//! Video capture through the `hdmicap` warm-stream daemon: the stable-frame
//! wait, the text of an OCR envelope, and the choice of OCR helper. Talking
//! to the daemon and finding helper binaries are the application's part.
use vstd::prelude::*;
use crate::text::{cat, decimal, owned, push_decimal};

verus! {

pub const DAEMON: &'static str = "hdmicap";

/// Default daemon port: 0 = OS-assigned.
pub const DEFAULT_PORT: u16 = 0;

/// The local request timeout (ms) for a stable-frame wait of `timeout_ms`:
/// the daemon's own wait plus five seconds, saturating at `u64::MAX`.
pub fn stable_wait_timeout_ms(timeout_ms: u64) -> (r: u64)
    ensures
        r == if timeout_ms + 5_000 > u64::MAX {
            u64::MAX
        } else {
            (timeout_ms + 5_000) as u64
        },
{
    timeout_ms.saturating_add(5_000)
}

/// The daemon path of a snapshot that waits for a stable signal.
pub fn stable_snapshot_path(timeout_ms: u64) -> (r: String)
    ensures
        r@ == "/snapshot?wait=stable&timeout="@ + decimal(timeout_ms as nat),
{
    let mut p = owned("/snapshot?wait=stable&timeout=");
    push_decimal(&mut p, timeout_ms);
    p
}

/// What an OCR response body holds if it is a JSON object: whether it has a
/// `version` key, and its `text` when that is a string.
pub uninterp spec fn ocr_json(body: Seq<char>) -> Option<(bool, Option<Seq<char>>)>;

/// `serde_json::from_str::<serde_json::Value>`, then whether `version` is
/// present and `text` read with `as_str`. Trusted: its result is the name
/// `ocr_json` of the body, nothing more.
#[verifier::external_body]
fn read_ocr_json(body: &str) -> (r: Option<(bool, Option<String>)>)
    ensures
        ocr_json(body@) == match r {
            Some((v, t)) => Some((v, match t {
                Some(s) => Some(s@),
                None => None,
            })),
            None => None,
        },
{
    let v: serde_json::Value = serde_json::from_str(body).ok()?;
    Some((v.get("version").is_some(), v.get("text").and_then(serde_json::Value::as_str).map(String::from)))
}

/// The recognized text of an OCR response, given what its body reads as: an
/// envelope (a `version` key) gives its `text` (empty when absent); any other
/// body is passed through unchanged.
pub open spec fn envelope_text(body: Seq<char>, read: Option<(bool, Option<Seq<char>>)>) -> Seq<char> {
    match read {
        Some((true, t)) => match t {
            Some(s) => s,
            None => Seq::empty(),
        },
        _ => body,
    }
}

/// [`text_of`] for a body already read as JSON (`read`).
pub fn text_from(body: &str, read: Option<(bool, Option<String>)>) -> (r: String)
    ensures
        r@ == envelope_text(
            body@,
            match read {
                Some((v, t)) => Some((v, match t {
                    Some(s) => Some(s@),
                    None => None,
                })),
                None => None,
            },
        ),
{
    match read {
        Some((true, t)) => match t {
            Some(s) => s,
            None => String::new(),
        },
        _ => owned(body),
    }
}

/// The recognized text from an OCR envelope; a body that is not an
/// envelope (an older daemon's bare text) is passed through unchanged.
pub fn text_of(body: &str) -> (r: String)
    ensures
        r@ == envelope_text(body@, ocr_json(body@)),
{
    text_from(body, read_ocr_json(body))
}

/// Which OCR helpers are installed on the host.
pub struct OcrHelpers {
    pub rapidocr: bool,
    pub visionocr: bool,
    pub winocr: bool,
    pub linuxocr: bool,
}

/// The OCR helper for a target's screens, and whether to warn that GUI mode
/// fell back: on Linux with `ocr_mode = "gui"` `rapidocr` when installed;
/// otherwise the first installed of `visionocr`, `winocr`, `linuxocr`.
pub open spec fn ocr_choice(ocr_mode: Option<Seq<char>>, is_linux: bool, h: OcrHelpers) -> (Option<Seq<char>>, bool) {
    let gui = is_linux && ocr_mode == Some("gui"@);
    if gui && h.rapidocr {
        (Some("rapidocr"@), false)
    } else {
        (
            if h.visionocr {
                Some("visionocr"@)
            } else if h.winocr {
                Some("winocr"@)
            } else if h.linuxocr {
                Some("linuxocr"@)
            } else {
                None
            },
            gui,
        )
    }
}

pub fn ocr_helper_with(ocr_mode: Option<&str>, is_linux: bool, installed: &OcrHelpers) -> (r: (Option<&'static str>, bool))
    ensures
        (match r.0 {
            Some(s) => Some(s@),
            None => None,
        }, r.1) == ocr_choice(
            match ocr_mode {
                Some(m) => Some(m@),
                None => None,
            },
            is_linux,
            *installed,
        ),
{
    let gui = is_linux && match ocr_mode {
        Some(m) => crate::text::same(m, "gui"),
        None => false,
    };
    if gui && installed.rapidocr {
        return (Some("rapidocr"), false);
    }
    let pick = if installed.visionocr {
        Some("visionocr")
    } else if installed.winocr {
        Some("winocr")
    } else if installed.linuxocr {
        Some("linuxocr")
    } else {
        None
    };
    (pick, gui)
}

} // verus!
