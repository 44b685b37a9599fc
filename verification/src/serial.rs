//! Serial console plumbing: the `serialcap` daemon's interface argument and
//! input request, the answer of its send/expect endpoint, and the naming of
//! a physical port among its `/dev/serial` aliases. Starting the daemon,
//! HTTP and listing devices are the application's part.
use vstd::prelude::*;
use crate::model::SerialChannel;
use crate::text::{
    cat, cat3, contains, has_substring, less, lt, owned, push_char, push_decimal, push_signed,
    push_str, signed_decimal, decimal,
};

verus! {

pub const DAEMON: &'static str = "serialcap";

/// Default daemon port: 0 = OS-assigned; the discovery file carries the
/// actual port.
pub const DEFAULT_PORT: u16 = 0;

/// The answer of serialcap's send/expect endpoint.
pub struct ExpectResponse {
    /// Whether the pattern matched before the timeout.
    pub matched: bool,
    /// The text the pattern matched.
    pub match_text: Option<String>,
    /// The pattern's capture groups, `None` for a group that did not take part.
    pub captures: Vec<Option<String>>,
    pub elapsed_ms: Option<u64>,
    /// Whether the reader fell behind the port.
    pub lagged: bool,
    /// The end of what was received, when nothing matched.
    pub tail: Option<String>,
}

/// `NAME=DEVICE@BAUD[:SENSE]`, one interface for the daemon's repeatable
/// `--interface` flag.
pub open spec fn interface_text(ch: SerialChannel) -> Seq<char> {
    ch.name@ + "="@ + ch.device@ + "@"@ + signed_decimal(ch.baud as int) + match ch.power_sense_signal {
        Some(s) => ":"@ + s@,
        None => Seq::empty(),
    }
}

pub fn interface_arg(ch: &SerialChannel) -> (r: String)
    ensures
        r@ == interface_text(*ch),
{
    let mut arg = cat3(ch.name.as_str(), "=", ch.device.as_str());
    push_str(&mut arg, "@");
    push_signed(&mut arg, ch.baud);
    if let Some(sense) = &ch.power_sense_signal {
        push_str(&mut arg, ":");
        push_str(&mut arg, sense.as_str());
    }
    arg
}

/// The URL that posts input to `interface` of the daemon at `base_url`,
/// paced per byte when `pace_ms` is not zero.
pub open spec fn input_url_text(base_url: Seq<char>, interface: Seq<char>, pace_ms: u32) -> Seq<char> {
    base_url + "/input?interface="@ + interface + if pace_ms > 0 {
        "&pace_ms="@ + decimal(pace_ms as nat)
    } else {
        Seq::empty()
    }
}

pub fn input_url(base_url: &str, interface: &str, pace_ms: u32) -> (r: String)
    ensures
        r@ == input_url_text(base_url@, interface@, pace_ms),
{
    let mut url = cat3(base_url, "/input?interface=", interface);
    if pace_ms > 0 {
        push_str(&mut url, "&pace_ms=");
        push_decimal(&mut url, pace_ms as u64);
    }
    url
}

/// The timeout of an input request: the paced duration plus ten seconds,
/// never under fifteen.
pub fn input_timeout_ms(len: usize, pace_ms: u32) -> (r: u64)
    requires
        len * pace_ms + 10_000 <= u64::MAX,
    ensures
        r == if len * pace_ms + 10_000 > 15_000 {
            (len * pace_ms + 10_000) as u64
        } else {
            15_000
        },
{
    let t = (len as u64) * (pace_ms as u64) + 10_000;
    if t > 15_000 {
        t
    } else {
        15_000
    }
}

/// The least of `s` in string order.
pub open spec fn least(s: Seq<Seq<char>>) -> Seq<char>
    decreases s.len(),
{
    if s.len() <= 1 {
        s[0]
    } else if lt(s.last(), least(s.drop_last())) {
        s.last()
    } else {
        least(s.drop_last())
    }
}

/// The first alias naming the adapter (`/by-id/`), else the least one.
pub open spec fn preferred(aliases: Seq<Seq<char>>) -> Option<Seq<char>>
    decreases aliases.len(),
{
    if aliases.len() == 0 {
        None
    } else {
        match first_by_id(aliases, 0) {
            Some(i) => Some(aliases[i]),
            None => Some(least(aliases)),
        }
    }
}

/// The first index at or after `i` of an alias containing `/by-id/`.
pub open spec fn first_by_id(aliases: Seq<Seq<char>>, i: int) -> Option<int>
    decreases aliases.len() - i,
{
    if i < 0 || i >= aliases.len() {
        None
    } else if contains(aliases[i], "/by-id/"@) {
        Some(i)
    } else {
        first_by_id(aliases, i + 1)
    }
}

/// The display name for one physical port's symlink aliases: the by-id
/// name when the adapter has one, else the first in sorted order.
pub fn preferred_alias(aliases: &[String]) -> (r: Option<String>)
    ensures
        match preferred(crate::text::views(aliases@)) {
            Some(p) => r matches Some(x) && x@ == p,
            None => r is None,
        },
{
    let ghost v = crate::text::views(aliases@);
    if aliases.len() == 0 {
        return None;
    }
    let mut i: usize = 0;
    while i < aliases.len()
        invariant
            i <= aliases.len(),
            v == crate::text::views(aliases@),
            first_by_id(v, 0) == first_by_id(v, i as int),
        decreases aliases.len() - i,
    {
        if has_substring(aliases[i].as_str(), "/by-id/") {
            return Some(aliases[i].clone());
        }
        i += 1;
    }
    let mut m: usize = 0;
    let mut k: usize = 1;
    assert(v.take(1) =~= seq![v[0]]);
    while k < aliases.len()
        invariant
            1 <= k <= aliases.len(),
            m < k,
            v == crate::text::views(aliases@),
            v[m as int] == least(v.take(k as int)),
        decreases aliases.len() - k,
    {
        assert(v.take(k + 1).drop_last() =~= v.take(k as int));
        if less(aliases[k].as_str(), aliases[m].as_str()) {
            m = k;
        }
        k += 1;
    }
    assert(v.take(aliases.len() as int) =~= v);
    Some(aliases[m].clone())
}

} // verus!
