//! Power control through the FTDI DTR line: the request the serialcap daemon
//! takes for a pulse and the time allowed for it. The HTTP request and the
//! direct-serial fallback are the application's part.
use vstd::prelude::*;
use crate::daemons::escaped;
use crate::text::{cat, decimal, push_decimal, push_str};

verus! {

/// The request timeout (ms) for a `ms`-long DTR pulse: the pulse plus five
/// seconds, floored at fifteen, saturating at `u64::MAX` for a huge pulse.
pub fn dtr_timeout_ms(ms: u64) -> (r: u64)
    ensures
        r == if ms + 5_000 > u64::MAX {
            u64::MAX
        } else if ms + 5_000 > 15_000 {
            (ms + 5_000) as u64
        } else {
            15_000
        },
{
    let t = ms.saturating_add(5_000);
    if t > 15_000 {
        t
    } else {
        15_000
    }
}

/// The daemon path that pulses DTR on `interface` for `ms` milliseconds,
/// the interface percent-encoded.
pub fn button_path(interface: &str, ms: u64) -> (r: String)
    ensures
        r@ == "/button?interface="@ + escaped(interface@) + "&ms="@ + decimal(ms as nat),
{
    let mut p = cat("/button?interface=", crate::daemons::query_escape(interface).as_str());
    push_str(&mut p, "&ms=");
    push_decimal(&mut p, ms);
    p
}

/// The daemon path that reads the power-sense line of `interface`.
pub fn status_path(interface: &str) -> (r: String)
    ensures
        r@ == "/status?interface="@ + escaped(interface@),
{
    cat("/status?interface=", crate::daemons::query_escape(interface).as_str())
}

/// What a serialcap `/status` body reads as: `None` when it is not JSON,
/// else its `power_on` taken as a boolean (`None` when absent, `null` or not
/// a boolean).
pub uninterp spec fn power_json(body: Seq<char>) -> Option<Option<bool>>;

/// `serde_json::from_str::<serde_json::Value>`, then `power_on` read with
/// `Value::get` and `Value::as_bool`. Trusted: its result is the name
/// `power_json` of the body, nothing more.
#[verifier::external_body]
fn read_power_json(body: &str) -> (r: Option<Option<bool>>)
    ensures
        power_json(body@) == r,
{
    let v: serde_json::Value = serde_json::from_str(body).ok()?;
    Some(v.get("power_on").and_then(serde_json::Value::as_bool))
}

/// The power state a `/status` body reports: on or off when it is JSON with
/// a boolean `power_on`, unknown (`None`) otherwise, as when the sense signal
/// is not configured.
pub fn power_state_of(body: &str) -> (r: Option<bool>)
    ensures
        r == match power_json(body@) {
            Some(Some(b)) => Some(b),
            _ => None,
        },
{
    match read_power_json(body) {
        Some(Some(b)) => Some(b),
        _ => None,
    }
}

} // verus!
