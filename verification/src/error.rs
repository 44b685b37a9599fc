//! The error contract: every failure is classified into a [`Kind`] with its own
//! exit status, carried by a [`PanioloError`] together with the target, channel
//! and host it concerns.
use vstd::prelude::*;
use crate::text::{chars_of, decimal, is_space, occurs_at, owned, push_char, push_decimal, push_str, same, trim, trimmed};

verus! {

/// What went wrong, in the house exit-code bands.
#[derive(Debug, Clone, Copy, PartialEq, Eq, Structural)]
pub enum Kind {
    /// Bad flags or arguments.
    Usage,
    /// No lab file, an invalid one, or an unknown target, channel, interface
    /// or host; a hook or helper that is missing or not executable.
    NotConfigured,
    /// A control host that cannot be reached.
    Unreachable,
    /// No answer within a deadline; the outcome is unknown.
    Timeout,
    /// The channel's daemon is not running and the command needs it.
    DaemonDown,
    /// A hook or helper ran and exited non-zero.
    HelperFailed,
    /// Any failure not yet classified.
    Internal,
}

/// The exit status of each kind.
pub open spec fn code_of(k: Kind) -> i32 {
    match k {
        Kind::Usage => 2,
        Kind::NotConfigured => 3,
        Kind::Unreachable => 4,
        Kind::Timeout => 22,
        Kind::DaemonDown => 100,
        Kind::HelperFailed => 101,
        Kind::Internal => 109,
    }
}

/// The `kind` string of each kind in the JSON object.
pub open spec fn name_of(k: Kind) -> Seq<char> {
    match k {
        Kind::Usage => "usage"@,
        Kind::NotConfigured => "not_configured"@,
        Kind::Unreachable => "unreachable"@,
        Kind::Timeout => "timeout"@,
        Kind::DaemonDown => "daemon_down"@,
        Kind::HelperFailed => "helper_failed"@,
        Kind::Internal => "internal"@,
    }
}

impl Kind {
    /// Every kind, in exit-status order.
    pub const ALL: [Kind; 7] = [
        Kind::Usage,
        Kind::NotConfigured,
        Kind::Unreachable,
        Kind::Timeout,
        Kind::DaemonDown,
        Kind::HelperFailed,
        Kind::Internal,
    ];

    /// The process exit status for this kind.
    pub fn exit_code(self) -> (r: i32)
        ensures
            r == code_of(self),
    {
        match self {
            Kind::Usage => 2,
            Kind::NotConfigured => 3,
            Kind::Unreachable => 4,
            Kind::Timeout => 22,
            Kind::DaemonDown => 100,
            Kind::HelperFailed => 101,
            Kind::Internal => 109,
        }
    }

    /// The `kind` string in the JSON object.
    pub fn as_str(self) -> (r: &'static str)
        ensures
            r@ == name_of(self),
    {
        match self {
            Kind::Usage => "usage",
            Kind::NotConfigured => "not_configured",
            Kind::Unreachable => "unreachable",
            Kind::Timeout => "timeout",
            Kind::DaemonDown => "daemon_down",
            Kind::HelperFailed => "helper_failed",
            Kind::Internal => "internal",
        }
    }
}

/// The exit-status section of `--help`.
pub const EXIT_STATUS_HELP: &'static str = "Exit status:\n  0    success\n  1    negative answer only (doctor found problems); no error exits 1\n  2    usage             bad flags or arguments\n  3    not_configured    no lab, or unknown target/channel/interface/host;\n                         a hook or helper missing or not executable\n  4    unreachable       control host not reachable over SSH\n  22   timeout           no answer within a deadline; outcome unknown\n  100  daemon_down       the channel's daemon is not running\n  101  helper_failed     a hook, helper or daemon ran and failed\n  109  internal          not yet classified\nPassthroughs (helper, config edit, video shot/devices, adb run/input/devices,\nadb shell, serial connect, setup --host) exit with their program's own status.\nPANIOLO_JSON_ERRORS=1, or --json-errors before any trailing arguments, adds a\none-line JSON object as the last line of stderr:\n{\"error\": {kind, code, message, target, channel, host, child_exit}}.";

/// Every kind exits with its own status, inside the band 2..125 that leaves 0
/// and 1 to success and a negative answer and stays clear of the shell's
/// 126..255.
pub proof fn law_codes_follow_the_bands(a: Kind, b: Kind)
    ensures
        2 <= code_of(a) < 125,
        a != b ==> code_of(a) != code_of(b),
        a != b ==> name_of(a) != name_of(b),
{
    reveal_strlit("usage");
    reveal_strlit("not_configured");
    reveal_strlit("unreachable");
    reveal_strlit("timeout");
    reveal_strlit("daemon_down");
    reveal_strlit("helper_failed");
    reveal_strlit("internal");
    assert(a != b ==> name_of(a).len() != name_of(b).len() || name_of(a)[0] != name_of(b)[0]);
}


/// The kinds in the order the help lists them (that of [`Kind::ALL`]).
pub open spec fn all_kinds() -> Seq<Kind> {
    seq![
        Kind::Usage,
        Kind::NotConfigured,
        Kind::Unreachable,
        Kind::Timeout,
        Kind::DaemonDown,
        Kind::HelperFailed,
        Kind::Internal,
    ]
}

/// A row of the exit-status help: at the start of a line, two spaces, the
/// code in a five-column field, then the name.
pub open spec fn help_row(code: nat, name: Seq<char>) -> Seq<char> {
    "\n  "@ + decimal(code) + Seq::new((5 - decimal(code).len()) as nat, |i: int| ' ') + name
}

/// `text` has the row for `code` and `name` at `p`, the name ending at a blank.
pub open spec fn lists_row(text: Seq<char>, code: nat, name: Seq<char>, p: int) -> bool {
    occurs_at(text, help_row(code, name), p) && is_space(text[p + help_row(code, name).len()])
}

/// `text` has, at the increasing positions `p`, the rows for success (0), a
/// negative answer (1), and each kind in [`all_kinds`] order.
pub open spec fn help_rows_at(text: Seq<char>, p: Seq<int>) -> bool {
    &&& p.len() == 9
    &&& forall|i: int, j: int| 0 <= i < j < 9 ==> p[i] < p[j]
    &&& lists_row(text, 0, "success"@, p[0])
    &&& lists_row(text, 1, "negative"@, p[1])
    &&& forall|k: int|
        0 <= k < 7 ==> #[trigger] lists_row(text, code_of(all_kinds()[k]) as nat, name_of(all_kinds()[k]), p[k + 2])
}

/// The help lists, in this order, success (0), a negative answer (1), and
/// every kind's exit status with its name.
pub proof fn law_the_help_lists_every_exit_status()
    ensures
        exists|p: Seq<int>| #[trigger] help_rows_at(EXIT_STATUS_HELP@, p),
{
    reveal_strlit("Exit status:\n  0    success\n  1    negative answer only (doctor found problems); no error exits 1\n  2    usage             bad flags or arguments\n  3    not_configured    no lab, or unknown target/channel/interface/host;\n                         a hook or helper missing or not executable\n  4    unreachable       control host not reachable over SSH\n  22   timeout           no answer within a deadline; outcome unknown\n  100  daemon_down       the channel's daemon is not running\n  101  helper_failed     a hook, helper or daemon ran and failed\n  109  internal          not yet classified\nPassthroughs (helper, config edit, video shot/devices, adb run/input/devices,\nadb shell, serial connect, setup --host) exit with their program's own status.\nPANIOLO_JSON_ERRORS=1, or --json-errors before any trailing arguments, adds a\none-line JSON object as the last line of stderr:\n{\"error\": {kind, code, message, target, channel, host, child_exit}}.");
    reveal_strlit("success");
    reveal_strlit("negative");
    reveal_strlit("usage");
    reveal_strlit("not_configured");
    reveal_strlit("unreachable");
    reveal_strlit("timeout");
    reveal_strlit("daemon_down");
    reveal_strlit("helper_failed");
    reveal_strlit("internal");
    reveal_strlit("\n  ");
    let t = EXIT_STATUS_HELP@;
    let p: Seq<int> = seq![12, 27, 97, 145, 288, 349, 419, 480, 545];
    assert(decimal(0) =~= seq!['0']);
    assert(decimal(1) =~= seq!['1']);
    assert(decimal(2) =~= seq!['2']);
    assert(decimal(3) =~= seq!['3']);
    assert(decimal(4) =~= seq!['4']);
    assert(decimal(22) =~= seq!['2', '2']);
    assert(decimal(10) =~= seq!['1', '0']);
    assert(decimal(100) =~= seq!['1', '0', '0']);
    assert(decimal(101) =~= seq!['1', '0', '1']);
    assert(decimal(109) =~= seq!['1', '0', '9']);
    assert(lists_row(t, 0, "success"@, 12)) by {
        assert(t.subrange(12, 12 + help_row(0, "success"@).len() as int) =~= help_row(0, "success"@));
    }
    assert(lists_row(t, 1, "negative"@, 27)) by {
        assert(t.subrange(27, 27 + help_row(1, "negative"@).len() as int) =~= help_row(1, "negative"@));
    }
    assert(lists_row(t, code_of(Kind::Usage) as nat, name_of(Kind::Usage), 97)) by {
        let r = help_row(code_of(Kind::Usage) as nat, name_of(Kind::Usage));
        assert(t.subrange(97, 97 + r.len() as int) =~= r);
    }
    assert(lists_row(t, code_of(Kind::NotConfigured) as nat, name_of(Kind::NotConfigured), 145)) by {
        let r = help_row(code_of(Kind::NotConfigured) as nat, name_of(Kind::NotConfigured));
        assert(t.subrange(145, 145 + r.len() as int) =~= r);
    }
    assert(lists_row(t, code_of(Kind::Unreachable) as nat, name_of(Kind::Unreachable), 288)) by {
        let r = help_row(code_of(Kind::Unreachable) as nat, name_of(Kind::Unreachable));
        assert(t.subrange(288, 288 + r.len() as int) =~= r);
    }
    assert(lists_row(t, code_of(Kind::Timeout) as nat, name_of(Kind::Timeout), 349)) by {
        let r = help_row(code_of(Kind::Timeout) as nat, name_of(Kind::Timeout));
        assert(t.subrange(349, 349 + r.len() as int) =~= r);
    }
    assert(lists_row(t, code_of(Kind::DaemonDown) as nat, name_of(Kind::DaemonDown), 419)) by {
        let r = help_row(code_of(Kind::DaemonDown) as nat, name_of(Kind::DaemonDown));
        assert(t.subrange(419, 419 + r.len() as int) =~= r);
    }
    assert(lists_row(t, code_of(Kind::HelperFailed) as nat, name_of(Kind::HelperFailed), 480)) by {
        let r = help_row(code_of(Kind::HelperFailed) as nat, name_of(Kind::HelperFailed));
        assert(t.subrange(480, 480 + r.len() as int) =~= r);
    }
    assert(lists_row(t, code_of(Kind::Internal) as nat, name_of(Kind::Internal), 545)) by {
        let r = help_row(code_of(Kind::Internal) as nat, name_of(Kind::Internal));
        assert(t.subrange(545, 545 + r.len() as int) =~= r);
    }
    assert forall|k: int| 0 <= k < 7 implies #[trigger] lists_row(
        t,
        code_of(all_kinds()[k]) as nat,
        name_of(all_kinds()[k]),
        p[k + 2],
    ) by {
        if k == 0 {
        } else if k == 1 {
        } else if k == 2 {
        } else if k == 3 {
        } else if k == 4 {
        } else if k == 5 {
        } else {
        }
    }
    assert(forall|i: int, j: int| 0 <= i < j < 9 ==> p[i] < p[j]);
    assert(help_rows_at(t, p));
}

/// A classified failure.
#[derive(Debug, Clone, PartialEq, Eq)]
pub struct PanioloError {
    pub kind: Kind,
    pub message: String,
    pub target: Option<String>,
    pub channel: Option<String>,
    pub host: Option<String>,
    pub child_exit: Option<i32>,
}

/// A scalar value of the JSON error object.
pub enum JsonScalar {
    Null,
    Int(i64),
    Str(String),
}

/// A [`JsonScalar`] as a value.
pub enum JsonScalarView {
    Null,
    Int(i64),
    Str(Seq<char>),
}

pub open spec fn scalar_view(v: JsonScalar) -> JsonScalarView {
    match v {
        JsonScalar::Null => JsonScalarView::Null,
        JsonScalar::Int(i) => JsonScalarView::Int(i),
        JsonScalar::Str(s) => JsonScalarView::Str(s@),
    }
}

pub open spec fn field_views_json(f: Seq<(&'static str, JsonScalar)>) -> Seq<(Seq<char>, JsonScalarView)> {
    f.map_values(|p: (&'static str, JsonScalar)| (p.0@, scalar_view(p.1)))
}

/// What `serde_json` writes, on one line, for the object
/// `{outer: {key: value, ...}}` made of `fields`.
pub uninterp spec fn json_object_line(outer: Seq<char>, fields: Seq<(Seq<char>, JsonScalarView)>) -> Seq<char>;

/// `serde_json::Value::Object` of `outer` holding an object of `fields`
/// (`serde_json::Map::insert` of each), rendered by `Value`'s `Display`.
/// Trusted: its result is the name `json_object_line` of its arguments.
#[verifier::external_body]
fn render_json_object(outer: &str, fields: &Vec<(&'static str, JsonScalar)>) -> (r: String)
    ensures
        r@ == json_object_line(outer@, field_views_json(fields@)),
{
    let mut m = serde_json::Map::new();
    for (k, v) in fields {
        let x = match v {
            JsonScalar::Null => serde_json::Value::Null,
            JsonScalar::Int(i) => serde_json::Value::from(*i),
            JsonScalar::Str(t) => serde_json::Value::from(t.as_str()),
        };
        m.insert(k.to_string(), x);
    }
    let mut o = serde_json::Map::new();
    o.insert(outer.to_string(), serde_json::Value::Object(m));
    serde_json::Value::Object(o).to_string()
}

pub open spec fn str_or_null(o: Option<String>) -> JsonScalarView {
    match o {
        Some(s) => JsonScalarView::Str(s@),
        None => JsonScalarView::Null,
    }
}

/// The fields of the JSON error object, in order: the kind's name, its exit
/// code, the message, then target, channel, host and child exit status,
/// each `null` when absent.
pub open spec fn error_fields(e: PanioloError) -> Seq<(Seq<char>, JsonScalarView)> {
    seq![
        ("kind"@, JsonScalarView::Str(name_of(e.kind))),
        ("code"@, JsonScalarView::Int(code_of(e.kind) as i64)),
        ("message"@, JsonScalarView::Str(e.message@)),
        ("target"@, str_or_null(e.target)),
        ("channel"@, str_or_null(e.channel)),
        ("host"@, str_or_null(e.host)),
        ("child_exit"@, match e.child_exit {
            Some(c) => JsonScalarView::Int(c as i64),
            None => JsonScalarView::Null,
        }),
    ]
}

fn str_scalar(o: &Option<String>) -> (r: JsonScalar)
    ensures
        scalar_view(r) == str_or_null(*o),
{
    match o {
        Some(s) => JsonScalar::Str(owned(s.as_str())),
        None => JsonScalar::Null,
    }
}

/// The one-line JSON error object `{"error": {...}}` that `--json-errors`
/// prints, holding [`error_fields`].
pub fn to_json(e: &PanioloError) -> (r: String)
    ensures
        r@ == json_object_line("error"@, error_fields(*e)),
{
    let mut f: Vec<(&'static str, JsonScalar)> = Vec::new();
    f.push(("kind", JsonScalar::Str(owned(e.kind.as_str()))));
    f.push(("code", JsonScalar::Int(e.kind.exit_code() as i64)));
    f.push(("message", JsonScalar::Str(owned(e.message.as_str()))));
    f.push(("target", str_scalar(&e.target)));
    f.push(("channel", str_scalar(&e.channel)));
    f.push(("host", str_scalar(&e.host)));
    let c = match e.child_exit {
        Some(c) => JsonScalar::Int(c as i64),
        None => JsonScalar::Null,
    };
    f.push(("child_exit", c));
    proof {
        assert(field_views_json(f@) =~= error_fields(*e));
    }
    render_json_object("error", &f)
}

/// An owned copy of an optional string.
pub fn copy_opt(o: &Option<String>) -> (r: Option<String>)
    ensures
        r == *o,
{
    match o {
        Some(s) => Some(s.clone()),
        None => None,
    }
}

/// An owned copy of an optional string slice, viewed.
pub fn owned_opt(o: Option<&str>) -> (r: Option<String>)
    ensures
        r is Some <==> o is Some,
        r is Some ==> r->0@ == o->0@,
{
    match o {
        Some(s) => Some(owned(s)),
        None => None,
    }
}

impl PanioloError {
    pub fn new(kind: Kind, message: &str) -> (r: Self)
        ensures
            r.kind == kind,
            r.message@ == message@,
            r.target is None,
            r.channel is None,
            r.host is None,
            r.child_exit is None,
    {
        PanioloError {
            kind,
            message: owned(message),
            target: None,
            channel: None,
            host: None,
            child_exit: None,
        }
    }

    pub fn not_configured(message: &str) -> (r: Self)
        ensures
            r.kind == Kind::NotConfigured,
            r.message@ == message@,
            r.target is None,
            r.channel is None,
            r.host is None,
            r.child_exit is None,
    {
        Self::new(Kind::NotConfigured, message)
    }

    pub fn target(self, target: &str) -> (r: Self)
        ensures
            r.target is Some && r.target->0@ == target@,
            r.kind == self.kind && r.message == self.message && r.channel == self.channel
                && r.host == self.host && r.child_exit == self.child_exit,
    {
        let mut e = self;
        e.target = Some(owned(target));
        e
    }

    pub fn channel(self, channel: &str) -> (r: Self)
        ensures
            r.channel is Some && r.channel->0@ == channel@,
            r.kind == self.kind && r.message == self.message && r.target == self.target
                && r.host == self.host && r.child_exit == self.child_exit,
    {
        let mut e = self;
        e.channel = Some(owned(channel));
        e
    }

    pub fn host(self, host: &str) -> (r: Self)
        ensures
            r.host is Some && r.host->0@ == host@,
            r.kind == self.kind && r.message == self.message && r.target == self.target
                && r.channel == self.channel && r.child_exit == self.child_exit,
    {
        let mut e = self;
        e.host = Some(owned(host));
        e
    }

    pub fn child_exit(self, code: Option<i32>) -> (r: Self)
        ensures
            r.child_exit == code,
            r.kind == self.kind && r.message == self.message && r.target == self.target
                && r.channel == self.channel && r.host == self.host,
    {
        let mut e = self;
        e.child_exit = code;
        e
    }
}

/// Fill in the `target` of a classified error raised without one; an error
/// that already names a target is returned unchanged.
pub fn with_target(err: PanioloError, target: &str) -> (r: PanioloError)
    ensures
        err.target is Some ==> r == err,
        err.target is None ==> r.target is Some && r.target->0@ == target@ && r.kind == err.kind
            && r.message == err.message && r.channel == err.channel && r.host == err.host
            && r.child_exit == err.child_exit,
{
    if err.target.is_none() {
        err.target(target)
    } else {
        err
    }
}

/// `target '<t>' not found in lab`, classified.
pub fn target_not_found(target: &str) -> (r: PanioloError)
    ensures
        r.kind == Kind::NotConfigured,
        r.message@ == "target '"@ + target@ + "' not found in lab"@,
        r.target is Some && r.target->0@ == target@,
        r.channel is None && r.host is None && r.child_exit is None,
{
    let mut m = owned("target '");
    push_str(&mut m, target);
    push_str(&mut m, "' not found in lab");
    PanioloError::not_configured(m.as_str()).target(target)
}

/// A target lacking a channel (or a required field of one, or a named
/// interface): `not_configured`, carrying the target and the channel kind.
pub fn channel_missing(target: &str, channel: &str, message: &str) -> (r: PanioloError)
    ensures
        r.kind == Kind::NotConfigured,
        r.message@ == message@,
        r.target is Some && r.target->0@ == target@,
        r.channel is Some && r.channel->0@ == channel@,
        r.host is None && r.child_exit is None,
{
    PanioloError::not_configured(message).target(target).channel(channel)
}

/// A child's exit status the way a shell reports it: its code, or 128+N when
/// signal N killed it, else 1.
pub fn shell_code(code: Option<i32>, signal: Option<i32>) -> (r: i32)
    requires
        signal matches Some(n) ==> 0 <= n <= 127,
    ensures
        code matches Some(c) ==> r == c,
        code is None && signal is Some ==> r == 128 + signal->0,
        code is None && signal is None ==> r == 1,
{
    match code {
        Some(c) => c,
        None => match signal {
            Some(n) => 128 + n,
            None => 1,
        },
    }
}

/// `cmd.exe`'s exit status for a command name it cannot find.
pub const CMD_NOT_RECOGNIZED: i32 = 9009;

/// The kind of a hook or helper that exited with `code` (`None` when a signal
/// killed it): 126 (not executable) and 127 (not found) mean the lab points at
/// something that is not there, and so does 9009 under Windows' `cmd.exe`.
pub open spec fn hook_kind(code: Option<i32>, windows: bool) -> Kind {
    match code {
        Some(c) => if c == 126 || c == 127 || (windows && c == CMD_NOT_RECOGNIZED) {
            Kind::NotConfigured
        } else {
            Kind::HelperFailed
        },
        None => Kind::HelperFailed,
    }
}

/// A hook or helper that ran and failed, classified from its exit code, with
/// the code kept in `child_exit`.
pub fn hook_failed(code: Option<i32>, windows: bool, message: &str) -> (r: PanioloError)
    ensures
        r.kind == hook_kind(code, windows),
        r.child_exit == code,
        r.message@ == message@,
        r.target is None && r.channel is None && r.host is None,
{
    let kind = match code {
        Some(c) => if c == 126 || c == 127 || (windows && c == CMD_NOT_RECOGNIZED) {
            Kind::NotConfigured
        } else {
            Kind::HelperFailed
        },
        None => Kind::HelperFailed,
    };
    PanioloError::new(kind, message).child_exit(code)
}

/// A bundled helper binary that is not installed.
pub fn helper_missing(name: &str) -> (r: PanioloError)
    ensures
        r.kind == Kind::NotConfigured,
        r.message@ == name@ + " not found"@,
        r.target is None && r.channel is None && r.host is None && r.child_exit is None,
{
    let mut m = owned(name);
    push_str(&mut m, " not found");
    PanioloError::not_configured(m.as_str())
}

/// The channel a daemon serves.
pub open spec fn channel_of_daemon(d: Seq<char>) -> Seq<char> {
    if d == "serialcap"@ {
        "serial"@
    } else if d == "hdmicap"@ {
        "video"@
    } else if d == "netbootd"@ {
        "netboot"@
    } else {
        d
    }
}

/// The channel a paniolo daemon serves, for the JSON `channel` field.
pub fn daemon_channel(daemon: &str) -> (r: String)
    ensures
        r@ == channel_of_daemon(daemon@),
{
    if same(daemon, "serialcap") {
        owned("serial")
    } else if same(daemon, "hdmicap") {
        owned("video")
    } else if same(daemon, "netbootd") {
        owned("netboot")
    } else {
        owned(daemon)
    }
}

/// The daemon a command needs is not running.
pub fn daemon_down(daemon: &str, message: &str) -> (r: PanioloError)
    ensures
        r.kind == Kind::DaemonDown,
        r.message@ == message@,
        r.channel is Some && r.channel->0@ == channel_of_daemon(daemon@),
        r.target is None && r.host is None && r.child_exit is None,
{
    let ch = daemon_channel(daemon);
    PanioloError::new(Kind::DaemonDown, message).channel(ch.as_str())
}

/// A daemon did not become ready within its start deadline and is still
/// running: `timeout`, since it may yet come up.
pub fn daemon_start_timeout(daemon: &str, message: &str) -> (r: PanioloError)
    ensures
        r.kind == Kind::Timeout,
        r.message@ == message@,
        r.channel is Some && r.channel->0@ == channel_of_daemon(daemon@),
        r.target is None && r.host is None && r.child_exit is None,
{
    let ch = daemon_channel(daemon);
    PanioloError::new(Kind::Timeout, message).channel(ch.as_str())
}

/// How many characters of a daemon's own explanation are kept.
pub const BODY_LIMIT: usize = 300;

/// Unicode control characters (general category `Cc`).
pub open spec fn is_control(c: char) -> bool {
    (c as u32) <= 0x1f || (0x7f <= (c as u32) && (c as u32) <= 0x9f)
}

pub open spec fn blank_controls(s: Seq<char>) -> Seq<char> {
    s.map_values(|c: char| if is_control(c) { ' ' } else { c })
}

/// `s` with control characters replaced by spaces and cut to [`BODY_LIMIT`]
/// characters, followed by `…` when it was cut.
pub open spec fn printable_spec(s: Seq<char>) -> Seq<char> {
    let kept = blank_controls(s).take(if s.len() < BODY_LIMIT { s.len() as int } else { BODY_LIMIT as int });
    if s.len() > BODY_LIMIT {
        kept.push('…')
    } else {
        kept
    }
}

/// `s` with control characters (ANSI escapes included) replaced by spaces and
/// capped, for text from a daemon that is going to a terminal.
pub fn printable(s: &str) -> (r: String)
    ensures
        r@ == printable_spec(s@),
{
    let cs = chars_of(s);
    let mut out = String::new();
    let mut i: usize = 0;
    while i < cs.len() && i < BODY_LIMIT
        invariant
            cs@ == s@,
            i <= cs.len(),
            i <= BODY_LIMIT,
            out@ == blank_controls(s@).take(i as int),
        decreases cs.len() - i,
    {
        let c = cs[i];
        let u = c as u32;
        let d = if u <= 0x1f || (0x7f <= u && u <= 0x9f) {
            ' '
        } else {
            c
        };
        push_char(&mut out, d);
        assert(blank_controls(s@).take(i + 1) =~= blank_controls(s@).take(i as int).push(d));
        i += 1;
    }
    if cs.len() > BODY_LIMIT {
        push_char(&mut out, '…');
    }
    out
}

/// What a failed request to a daemon looked like, as far as the classification
/// reads it.
pub enum RequestFailure {
    /// The daemon answered with an error status and this body.
    Status { code: u16, body: String },
    /// The request never completed.
    Transport {
        /// The connection was refused (ureq's `ConnectionFailed`).
        connection_failed: bool,
        /// An I/O error (ureq's `Io`).
        io: bool,
        /// The underlying I/O error was a timeout.
        timed_out: bool,
        /// The error's own rendering.
        text: String,
    },
}

/// The kind of a failed daemon request.
pub open spec fn request_kind(f: RequestFailure) -> Kind {
    match f {
        RequestFailure::Status { .. } => Kind::HelperFailed,
        RequestFailure::Transport { connection_failed, io, timed_out, .. } => if (connection_failed
            || io) && timed_out {
            Kind::Timeout
        } else if connection_failed {
            Kind::DaemonDown
        } else {
            Kind::Internal
        },
    }
}

/// The message of a failed daemon request: the daemon's own explanation when
/// it gave one.
pub open spec fn request_message(what: Seq<char>, f: RequestFailure) -> Seq<char> {
    match f {
        RequestFailure::Status { code, body } => {
            let msg = trim(printable_spec(trim(body@)));
            if msg.len() == 0 {
                what + " failed: daemon returned status "@ + decimal(code as nat)
            } else {
                what + " failed: "@ + msg
            }
        },
        RequestFailure::Transport { text, .. } => what + " failed: "@ + text@,
    }
}

/// A failed HTTP request to a running daemon, classified: a refused
/// connection means the discovery record outlived the daemon (`daemon_down`);
/// a timeout leaves the outcome unknown (`timeout`); an error status is the
/// daemon refusing the request (`helper_failed`, with its reason).
pub fn daemon_request_failed(daemon: &str, what: &str, failure: RequestFailure) -> (r:
    PanioloError)
    ensures
        r.kind == request_kind(failure),
        r.message@ == request_message(what@, failure),
        r.channel is Some && r.channel->0@ == channel_of_daemon(daemon@),
        r.target is None && r.host is None && r.child_exit is None,
{
    let kind = match &failure {
        RequestFailure::Status { .. } => Kind::HelperFailed,
        RequestFailure::Transport { connection_failed, io, timed_out, .. } => {
            if (*connection_failed || *io) && *timed_out {
                Kind::Timeout
            } else if *connection_failed {
                Kind::DaemonDown
            } else {
                Kind::Internal
            }
        },
    };
    let mut message = owned(what);
    match &failure {
        RequestFailure::Status { code, body } => {
            let t = trimmed(body.as_str());
            let p = printable(t.as_str());
            let msg = trimmed(p.as_str());
            if msg.as_str().is_empty() {
                push_str(&mut message, " failed: daemon returned status ");
                push_decimal(&mut message, *code as u64);
            } else {
                push_str(&mut message, " failed: ");
                push_str(&mut message, msg.as_str());
            }
        },
        RequestFailure::Transport { text, .. } => {
            push_str(&mut message, " failed: ");
            push_str(&mut message, text.as_str());
        },
    }
    let ch = daemon_channel(daemon);
    PanioloError::new(kind, message.as_str()).channel(ch.as_str())
}

/// ssh's own failure code, as opposed to the remote command's.
pub const SSH_TRANSPORT_FAILURE: i32 = 255;

pub open spec fn ssh_255_text(host: Seq<char>) -> Seq<char> {
    "ssh to control host '"@ + host
        + "' exited 255: the host is unreachable or the remote command was killed; its outcome is unknown"@
}

/// The message for ssh's 255 from `host`: the connection failed or the remote
/// command was killed, so the outcome is unknown.
pub fn ssh_255_message(host: &str) -> (r: String)
    ensures
        r@ == ssh_255_text(host@),
{
    let mut m = owned("ssh to control host '");
    push_str(&mut m, host);
    push_str(
        &mut m,
        "' exited 255: the host is unreachable or the remote command was killed; its outcome is unknown",
    );
    m
}

/// The control host `host` could not be reached.
pub fn unreachable_host(host: &str, message: &str) -> (r: PanioloError)
    ensures
        r.kind == Kind::Unreachable,
        r.message@ == message@,
        r.host is Some && r.host->0@ == host@,
        r.target is None && r.channel is None && r.child_exit is None,
{
    PanioloError::new(Kind::Unreachable, message).host(host)
}

/// The outcome of a command re-run over ssh that exited with `code`: ssh's
/// own failure (255) is `unreachable` for `host`, with [`ssh_255_text`];
/// any other status is the command's own.
pub fn transport_outcome(host: &str, code: i32) -> (r: Result<i32, PanioloError>)
    ensures
        code == SSH_TRANSPORT_FAILURE ==> (r matches Err(e) && e.kind == Kind::Unreachable && e.message@
            == ssh_255_text(host@) && e.host is Some && e.host->0@ == host@ && e.target is None
            && e.channel is None && e.child_exit is None),
        code != SSH_TRANSPORT_FAILURE ==> r == Ok::<i32, PanioloError>(code),
{
    if code == SSH_TRANSPORT_FAILURE {
        let m = ssh_255_message(host);
        Err(unreachable_host(host, m.as_str()))
    } else {
        Ok(code)
    }
}

/// One link of an error's cause chain, as far as classification reads it.
pub enum Cause {
    /// A classified error.
    Classified(PanioloError),
    /// A malformed lab.
    Lab,
    /// Anything else.
    Other,
}

/// The fields a cause chain is classified with: kind, target, channel, host
/// and child exit of the first classified error or lab error in it.
pub type Verdict = (Kind, Option<String>, Option<String>, Option<String>, Option<i32>);

/// The classification of a cause chain: the first classified error or lab
/// error wins; otherwise none does.
pub open spec fn chain_verdict(causes: Seq<Cause>) -> Option<Verdict>
    decreases causes.len(),
{
    if causes.len() == 0 {
        None
    } else {
        match causes[0] {
            Cause::Classified(e) => Some((e.kind, e.target, e.channel, e.host, e.child_exit)),
            Cause::Lab => Some((Kind::NotConfigured, None, None, None, None)),
            Cause::Other => chain_verdict(causes.drop_first()),
        }
    }
}

/// Classify an error for the exit status: the first [`PanioloError`] in the
/// chain wins (its fields are kept, with `message` the whole chain's text); a
/// lab error is `not_configured`; anything else is `internal`.
pub fn classify(message: &str, causes: &Vec<Cause>) -> (r: PanioloError)
    ensures
        r.message@ == message@,
        match chain_verdict(causes@) {
            Some(v) => r.kind == v.0 && r.target == v.1 && r.channel == v.2 && r.host == v.3
                && r.child_exit == v.4,
            None => r.kind == Kind::Internal && r.target is None && r.channel is None && r.host is None
                && r.child_exit is None,
        },
{
    let mut i: usize = 0;
    assert(causes@.subrange(0, causes.len() as int) =~= causes@);
    while i < causes.len()
        invariant
            i <= causes.len(),
            chain_verdict(causes@) == chain_verdict(causes@.subrange(i as int, causes.len() as int)),
        decreases causes.len() - i,
    {
        assert(causes@.subrange(i as int, causes.len() as int).drop_first() =~= causes@.subrange(
            i + 1,
            causes.len() as int,
        ));
        match &causes[i] {
            Cause::Classified(pe) => {
                return PanioloError {
                    kind: pe.kind,
                    message: owned(message),
                    target: copy_opt(&pe.target),
                    channel: copy_opt(&pe.channel),
                    host: copy_opt(&pe.host),
                    child_exit: pe.child_exit,
                };
            },
            Cause::Lab => {
                return PanioloError::not_configured(message);
            },
            Cause::Other => {},
        }
        i += 1;
    }
    PanioloError::new(Kind::Internal, message)
}

/// The environment variable that asks for the JSON error object.
pub const JSON_ERRORS_ENV: &'static str = "PANIOLO_JSON_ERRORS";

/// The environment asks for the JSON object when the variable is `1`.
pub fn env_requests_json(value: Option<&str>) -> (r: bool)
    ensures
        r == (value matches Some(v) && v@ == "1"@),
{
    match value {
        Some(v) => same(v, "1"),
        None => false,
    }
}

/// Whether the JSON error object was requested: recorded at start-up, or,
/// before that (a command-line parse failure), by the variable's value.
pub fn json_requested(recorded: bool, env_value: Option<&str>) -> (r: bool)
    ensures
        r == (recorded || (env_value matches Some(v) && v@ == "1"@)),
{
    recorded || env_requests_json(env_value)
}

/// `--json-errors` appears among the arguments after the program name and
/// before any `--`.
pub open spec fn json_flag_in(args: Seq<Seq<char>>) -> bool {
    exists|i: int|
        1 <= i < args.len() && args[i] == "--json-errors"@ && forall|j: int| 1 <= j < i ==> #[trigger] args[j] != "--"@
}

/// Whether `--json-errors` was given (the command line could not be parsed,
/// so the flag is looked for directly).
pub fn json_flag_given(args: &Vec<String>) -> (r: bool)
    ensures
        r == json_flag_in(crate::text::views(args@)),
{
    let ghost v = crate::text::views(args@);
    let mut i: usize = 1;
    while i < args.len()
        invariant
            1 <= i,
            v == crate::text::views(args@),
            forall|j: int| 1 <= j < i && j < args.len() ==> #[trigger] v[j] != "--"@ && v[j] != "--json-errors"@,
        decreases args.len() - i,
    {
        if same(args[i].as_str(), "--") {
            proof {
                assert forall|k: int| 1 <= k < args.len() && v[k] == "--json-errors"@ implies !(forall|j: int|
                    1 <= j < k ==> #[trigger] v[j] != "--"@) by {
                    if k > i {
                        assert(v[i as int] == "--"@);
                    } else if k == i {
                        assert(v[k] == "--"@);
                        reveal_strlit("--");
                        reveal_strlit("--json-errors");
                        assert(v[k].len() != "--json-errors"@.len());
                    }
                }
            }
            return false;
        }
        if same(args[i].as_str(), "--json-errors") {
            assert(v[i as int] == "--json-errors"@);
            return true;
        }
        i += 1;
    }
    false
}

/// Lines taken up to the first empty one or one starting `Usage:`.
pub open spec fn named_args(ls: Seq<Seq<char>>) -> Seq<Seq<char>>
    decreases ls.len(),
{
    if ls.len() == 0 || ls[0].len() == 0 || crate::text::starts_with(ls[0], "Usage:"@) {
        Seq::empty()
    } else {
        seq![ls[0]] + named_args(ls.drop_first())
    }
}

/// The sentence a command-line parse failure is reported with: the first
/// line of the parser's text without its `error: ` prefix; when it ends with
/// `:` (a list of missing arguments follows), the names listed after it.
pub open spec fn usage_text(text: Seq<char>) -> Seq<char> {
    let ls = crate::text::lines(text).map_values(|l: Seq<char>| trim(l));
    let first0 = if ls.len() > 0 {
        ls[0]
    } else {
        Seq::empty()
    };
    let first = if crate::text::starts_with(first0, "error: "@) {
        first0.subrange(7, first0.len() as int)
    } else {
        first0
    };
    if crate::text::ends_with(first, ":"@) {
        first + " "@ + crate::text::join(named_args(if ls.len() > 0 { ls.drop_first() } else { ls }), ", "@)
    } else {
        first
    }
}

pub fn usage_message(text: &str) -> (r: String)
    ensures
        r@ == usage_text(text@),
{
    let raw = crate::text::split_lines(text);
    let mut ls: Vec<String> = Vec::new();
    let mut i: usize = 0;
    while i < raw.len()
        invariant
            i <= raw.len(),
            crate::text::views(raw@) == crate::text::lines(text@),
            crate::text::views(ls@) == crate::text::views(raw@).take(i as int).map_values(|l: Seq<char>| trim(l)),
        decreases raw.len() - i,
    {
        crate::text::push_line(&mut ls, trimmed(raw[i].as_str()));
        assert(crate::text::views(raw@).take(i + 1) =~= crate::text::views(raw@).take(i as int).push(raw@[i as int]@));
        assert(crate::text::views(ls@) =~= crate::text::views(raw@).take(i + 1).map_values(|l: Seq<char>| trim(l)));
        i += 1;
    }
    assert(crate::text::views(raw@).take(raw.len() as int) =~= crate::text::views(raw@));
    let ghost lv = crate::text::views(ls@);
    let first0 = if ls.len() > 0 {
        ls[0].clone()
    } else {
        String::new()
    };
    proof {
        reveal_strlit("error: ");
    }
    let first = match crate::text::strip_prefix(first0.as_str(), "error: ") {
        Some(rest) => rest,
        None => first0,
    };
    if !crate::text::has_suffix(first.as_str(), ":") {
        return first;
    }
    let mut named: Vec<String> = Vec::new();
    let mut k: usize = 1;
    let ghost tail = if lv.len() > 0 { lv.drop_first() } else { lv };
    proof {
        if lv.len() > 0 {
            assert(lv.skip(1) =~= tail);
        }
    }
    while k < ls.len()
        invariant
            1 <= k,
            lv == crate::text::views(ls@),
            lv.len() > 0 ==> tail == lv.drop_first(),
            k <= ls.len() || ls.len() == 0,
            named_args(tail) == crate::text::views(named@) + named_args(if k <= lv.len() { lv.skip(k as int) } else { Seq::empty() }),
        ensures
            named_args(tail) == crate::text::views(named@),
        decreases ls.len() - k,
    {
        let l = ls[k].as_str();
        assert(lv.skip(k as int)[0] == lv[k as int]);
        assert(lv.skip(k as int).drop_first() =~= lv.skip(k + 1));
        if l.unicode_len() == 0 || crate::text::has_prefix(l, "Usage:") {
            assert(named_args(lv.skip(k as int)) =~= Seq::<Seq<char>>::empty());
            assert(crate::text::views(named@) + Seq::<Seq<char>>::empty() =~= crate::text::views(named@));
            break;
        }
        let ghost before = crate::text::views(named@);
        crate::text::push_line(&mut named, ls[k].clone());
        assert(crate::text::views(named@) + named_args(lv.skip(k + 1)) =~= before + (seq![lv[k as int]] + named_args(lv.skip(k + 1))));
        k += 1;
        proof {
            if k >= ls.len() {
                assert(lv.skip(k as int) =~= Seq::<Seq<char>>::empty());
                assert(crate::text::views(named@) + Seq::<Seq<char>>::empty() =~= crate::text::views(named@));
            }
        }
    }
    let mut m = first;
    push_str(&mut m, " ");
    push_str(&mut m, crate::text::join_strings(&named, ", ").as_str());
    m
}

/// A hook that exited with 126 (not executable) or 127 (not found) points at
/// something that is not there: `not_configured` (exit status 3), on every
/// platform. Any other exit code but Windows' 9009, and a death by signal,
/// is the hook's own failure: `helper_failed` (exit status 101).
pub proof fn law_a_missing_hook_is_not_configured(windows: bool, c: i32)
    ensures
        hook_kind(Some(126), windows) == Kind::NotConfigured && code_of(hook_kind(Some(126), windows)) == 3,
        hook_kind(Some(127), windows) == Kind::NotConfigured && code_of(hook_kind(Some(127), windows)) == 3,
        c != 126 && c != 127 && (c != 9009 || !windows) ==> hook_kind(Some(c), windows) == Kind::HelperFailed
            && code_of(hook_kind(Some(c), windows)) == 101,
        hook_kind(None, windows) == Kind::HelperFailed,
{
}

} // verus!
