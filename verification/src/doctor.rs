//! `paniolo doctor` — probe configured channels against reality.
//!
//! A read-only health check: for each channel, test on the channel's control
//! host that the configured device or interface exists. Each check is a
//! short conversation: this module says which probe to run next (as a
//! structure, and as POSIX text for the SSH hop) and, from the exit codes
//! gathered so far, what the verdict is. Running a probe, locally or over
//! SSH, is the application's part.
use vstd::prelude::*;
use crate::daemons::program_word;
use crate::model::{ChannelKind, Lab, ResolvedChannel, ResolvedTarget, kind_name};
use crate::ssh::{shell_quote, shell_quoted};
use crate::text::{
    cat, cat3, decimal, has_prefix, join, join_strings, owned, push_line, push_str, same, starts_with, views,
    words,
};

verus! {

/// The outcome of one channel check.
#[derive(Debug, PartialEq, Eq, Structural, Clone, Copy)]
pub enum Status {
    Present,
    Missing,
    Unreachable,
    Incomplete,
}

pub open spec fn status_label(s: Status) -> Seq<char> {
    match s {
        Status::Present => "ok"@,
        Status::Missing => "MISSING"@,
        Status::Unreachable => "unreachable"@,
        Status::Incomplete => "incomplete"@,
    }
}

impl Status {
    pub fn label(&self) -> (r: &'static str)
        ensures
            r@ == status_label(*self),
    {
        match self {
            Status::Present => "ok",
            Status::Missing => "MISSING",
            Status::Unreachable => "unreachable",
            Status::Incomplete => "incomplete",
        }
    }

    /// A missing or unreachable channel counts as a problem; an incomplete
    /// one does not.
    pub fn is_problem(&self) -> (r: bool)
        ensures
            r == (*self == Status::Missing || *self == Status::Unreachable),
    {
        match self {
            Status::Missing | Status::Unreachable => true,
            _ => false,
        }
    }
}

/// One health check, as a structure. Locally a probe runs natively;
/// remotely it renders to POSIX sh with [`Probe::to_posix`]. Exit code 3
/// marks a missing tool (hdmicap, adb) rather than a missing device.
pub enum Probe {
    /// The path exists.
    Exists(String),
    /// The program resolves the way a hook would: libexec dirs, then PATH.
    OnHookPath(String),
    /// A capture device: a path that exists, or a name `hdmicap devices` lists.
    Video(String),
    /// The network interface is present on this host.
    NetInterface(String),
    /// adb resolves, then `get-state` succeeds for the device.
    Adb { bin: String, serial: Option<String> },
}

/// What a probe is, in spec terms.
pub enum ProbeSpec {
    Exists(Seq<char>),
    OnHookPath(Seq<char>),
    Video(Seq<char>),
    NetInterface(Seq<char>),
    Adb(Seq<char>, Option<Seq<char>>),
}

pub open spec fn opt_seq(o: Option<String>) -> Option<Seq<char>> {
    match o {
        Some(s) => Some(s@),
        None => None,
    }
}

impl Probe {
    pub open spec fn view(self) -> ProbeSpec {
        match self {
            Probe::Exists(p) => ProbeSpec::Exists(p@),
            Probe::OnHookPath(p) => ProbeSpec::OnHookPath(p@),
            Probe::Video(d) => ProbeSpec::Video(d@),
            Probe::NetInterface(i) => ProbeSpec::NetInterface(i@),
            Probe::Adb { bin, serial } => ProbeSpec::Adb(bin@, opt_seq(serial)),
        }
    }
}

/// Shell statement giving hook commands the resolution the hooks get at
/// runtime: the per-user libexec dir, the system package dir, then PATH. A
/// standalone assignment, so a following `command -v` honors it in any sh.
pub const HOOK_PATH_PREFIX: &'static str =
    "PATH=\"$HOME/.local/libexec/paniolo/bin:/usr/libexec/paniolo/bin:$PATH\";";

pub open spec fn video_script(dev: Seq<char>) -> Seq<char> {
    "test -e "@ + shell_quoted(dev) + " && exit 0; "@ + HOOK_PATH_PREFIX@
        + " PATH=\"$PATH:$HOME/.cargo/bin\"; command -v hdmicap >/dev/null || exit 3; hdmicap devices 2>/dev/null | grep -F -q -- "@
        + shell_quoted(dev)
}

/// Probe script for a video channel: a path-style device short-circuits via
/// `test -e`; otherwise `hdmicap devices` must list the name. hdmicap
/// resolves through the helper dirs, then PATH, then `~/.cargo/bin`; exit 3
/// means hdmicap itself is missing.
pub fn video_probe_script(device: &str) -> (r: String)
    ensures
        r@ == video_script(device@),
{
    let q = shell_quote(device);
    let mut s = cat3("test -e ", q.as_str(), " && exit 0; ");
    push_str(&mut s, HOOK_PATH_PREFIX);
    push_str(
        &mut s,
        " PATH=\"$PATH:$HOME/.cargo/bin\"; command -v hdmicap >/dev/null || exit 3; hdmicap devices 2>/dev/null | grep -F -q -- ",
    );
    push_str(&mut s, q.as_str());
    s
}

pub open spec fn posix_text(p: ProbeSpec) -> Seq<char> {
    match p {
        ProbeSpec::Exists(path) => "test -e "@ + shell_quoted(path),
        ProbeSpec::OnHookPath(prog) => HOOK_PATH_PREFIX@ + " command -v "@ + shell_quoted(prog)
            + " >/dev/null"@,
        ProbeSpec::Video(dev) => video_script(dev),
        ProbeSpec::NetInterface(iface) => "test -e /sys/class/net/"@ + shell_quoted(iface)
            + " || ifconfig "@ + shell_quoted(iface) + " >/dev/null 2>&1"@,
        ProbeSpec::Adb(bin, serial) => (if starts_with(bin, "/"@) {
            "test -x "@ + shell_quoted(bin)
        } else {
            "command -v "@ + shell_quoted(bin) + " >/dev/null"@
        }) + " || exit 3; "@ + shell_quoted(bin) + " "@ + (match serial {
            Some(s) => "-s "@ + shell_quoted(s) + " "@,
            None => Seq::empty(),
        }) + "get-state >/dev/null 2>&1"@,
    }
}

impl Probe {
    /// Render as a POSIX-sh script, for probing a remote Unix control host.
    pub fn to_posix(&self) -> (r: String)
        ensures
            r@ == posix_text(self.view()),
    {
        match self {
            Probe::Exists(p) => cat("test -e ", shell_quote(p.as_str()).as_str()),
            Probe::OnHookPath(prog) => {
                let mut s = cat(HOOK_PATH_PREFIX, " command -v ");
                push_str(&mut s, shell_quote(prog.as_str()).as_str());
                push_str(&mut s, " >/dev/null");
                s
            },
            Probe::Video(dev) => video_probe_script(dev.as_str()),
            Probe::NetInterface(iface) => {
                let q = shell_quote(iface.as_str());
                let mut s = cat3("test -e /sys/class/net/", q.as_str(), " || ifconfig ");
                push_str(&mut s, q.as_str());
                push_str(&mut s, " >/dev/null 2>&1");
                s
            },
            Probe::Adb { bin, serial } => {
                let qb = shell_quote(bin.as_str());
                let mut s = if has_prefix(bin.as_str(), "/") {
                    cat("test -x ", qb.as_str())
                } else {
                    cat3("command -v ", qb.as_str(), " >/dev/null")
                };
                push_str(&mut s, " || exit 3; ");
                push_str(&mut s, qb.as_str());
                push_str(&mut s, " ");
                if let Some(sv) = serial {
                    push_str(&mut s, "-s ");
                    push_str(&mut s, shell_quote(sv.as_str()).as_str());
                    push_str(&mut s, " ");
                }
                push_str(&mut s, "get-state >/dev/null 2>&1");
                s
            },
        }
    }
}

pub open spec fn hook_probe_spec(prog: Seq<char>) -> ProbeSpec {
    if starts_with(prog, "/"@) {
        ProbeSpec::Exists(prog)
    } else {
        ProbeSpec::OnHookPath(prog)
    }
}

/// How a hook program is probed: an absolute path just has to exist; a bare
/// name has to resolve the way the hook itself resolves it.
pub fn hook_probe(prog: &str) -> (r: Probe)
    ensures
        r.view() == hook_probe_spec(prog@),
{
    if has_prefix(prog, "/") {
        Probe::Exists(owned(prog))
    } else {
        Probe::OnHookPath(owned(prog))
    }
}

/// How an exit code reads: no code, or ssh's own failure code 255, means the
/// host could not be reached; 0 means present; any other code means missing.
pub open spec fn interpret_spec(rc: Option<i32>, what: Seq<char>) -> (Status, Seq<char>) {
    match rc {
        None => (Status::Unreachable, "host unreachable"@),
        Some(c) => if c == 255 {
            (Status::Unreachable, "host unreachable"@)
        } else if c == 0 {
            (Status::Present, what)
        } else {
            (Status::Missing, what)
        },
    }
}

pub fn interpret(rc: Option<i32>, what: &str) -> (r: (Status, String))
    ensures
        (r.0, r.1@) == interpret_spec(rc, what@),
{
    match rc {
        None => (Status::Unreachable, owned("host unreachable")),
        Some(255) => (Status::Unreachable, owned("host unreachable")),
        Some(0) => (Status::Present, owned(what)),
        Some(_) => (Status::Missing, owned(what)),
    }
}

/// The value of the first field named `key`.
pub open spec fn field_spec(fields: Seq<(Seq<char>, Seq<char>)>, key: Seq<char>) -> Option<Seq<char>>
    decreases fields.len(),
{
    if fields.len() == 0 {
        None
    } else if fields[0].0 == key {
        Some(fields[0].1)
    } else {
        field_spec(fields.drop_first(), key)
    }
}

/// The value of `ch`'s first field named `key`.
pub fn field(ch: &ResolvedChannel, key: &str) -> (r: Option<String>)
    ensures
        opt_seq(r) == field_spec(ch.view().fields, key@),
{
    let ghost f = ch.view().fields;
    let mut i: usize = 0;
    proof {
        assert(f.skip(0) =~= f);
    }
    while i < ch.fields.len()
        invariant
            i <= ch.fields.len(),
            f == ch.view().fields,
            f.len() == ch.fields@.len(),
            field_spec(f, key@) == field_spec(f.skip(i as int), key@),
        decreases ch.fields.len() - i,
    {
        assert(f.skip(i as int)[0] == f[i as int]);
        assert(f.skip(i as int).drop_first() =~= f.skip(i + 1));
        if crate::text::same(ch.fields[i].0, key) {
            return Some(ch.fields[i].1.clone());
        }
        i += 1;
    }
    None
}

/// How a channel is named in the report: the kind, plus the interface name
/// for a named channel.
pub open spec fn channel_label(c: crate::model::ChannelView) -> Seq<char> {
    if c.name == kind_name(c.kind) {
        kind_name(c.kind)
    } else {
        kind_name(c.kind) + " "@ + c.name
    }
}

pub fn channel_name(ch: &ResolvedChannel) -> (r: String)
    ensures
        r@ == channel_label(ch.view()),
{
    let k = ch.kind.as_str();
    if crate::text::same(ch.name.as_str(), k) {
        owned(k)
    } else {
        cat3(k, " ", ch.name.as_str())
    }
}

/// The next thing a check does: settle on a verdict, or run a probe.
pub enum Step {
    Done(Status, String),
    Run(Probe),
}

pub enum StepSpec {
    Done(Status, Seq<char>),
    Run(ProbeSpec),
}

impl Step {
    pub open spec fn view(self) -> StepSpec {
        match self {
            Step::Done(s, d) => StepSpec::Done(s, d@),
            Step::Run(p) => StepSpec::Run(p.view()),
        }
    }
}

/// A check made of one probe: run it, then judge its exit code.
pub open spec fn one_probe(p: ProbeSpec, results: Seq<Option<i32>>, what: Seq<char>, tool_missing: Option<Seq<char>>) -> StepSpec {
    if results.len() == 0 {
        StepSpec::Run(p)
    } else {
        match tool_missing {
            Some(t) => if results[0] == Some(3i32) {
                StepSpec::Done(Status::Missing, t)
            } else {
                StepSpec::Done(interpret_spec(results[0], what).0, interpret_spec(results[0], what).1)
            },
            None => StepSpec::Done(interpret_spec(results[0], what).0, interpret_spec(results[0], what).1),
        }
    }
}

/// The program of a hook command as probed (`""` when it has none).
pub open spec fn hook_program(cmd: Seq<char>) -> Seq<char> {
    match program_word(words(cmd)) {
        Some(w) => w,
        None => Seq::empty(),
    }
}

pub open spec fn hook_keys() -> Seq<Seq<char>> {
    seq!["cycle_cmd"@, "on_cmd"@, "off_cmd"@, "state_cmd"@]
}

pub open spec fn is_set(fields: Seq<(Seq<char>, Seq<char>)>) -> spec_fn(Seq<char>) -> bool {
    |k: Seq<char>| field_spec(fields, k) is Some
}

/// The hook fields a power channel sets, in probing order.
pub open spec fn configured_hooks(fields: Seq<(Seq<char>, Seq<char>)>) -> Seq<Seq<char>> {
    hook_keys().filter(is_set(fields))
}

/// After the probes of `keys[..k]` all passed: the next step.
pub open spec fn power_step(
    fields: Seq<(Seq<char>, Seq<char>)>,
    keys: Seq<Seq<char>>,
    results: Seq<Option<i32>>,
    k: int,
) -> StepSpec
    decreases keys.len() - k,
{
    if k >= keys.len() || k < 0 {
        StepSpec::Done(
            Status::Present,
            if keys.len() == 0 {
                "configured"@
            } else {
                join(keys, ","@)
            },
        )
    } else {
        let prog = hook_program(field_spec(fields, keys[k]).unwrap_or(Seq::empty()));
        if k == results.len() {
            StepSpec::Run(hook_probe_spec(prog))
        } else if k > results.len() {
            StepSpec::Run(hook_probe_spec(prog))
        } else if results[k] != Some(0i32) {
            StepSpec::Done(interpret_spec(results[k], prog).0, interpret_spec(results[k], prog).1)
        } else {
            power_step(fields, keys, results, k + 1)
        }
    }
}

/// Whether `rt` has a serial channel named `si`.
pub open spec fn has_serial_named(rt: ResolvedTarget, si: Seq<char>) -> bool {
    exists|j: int|
        0 <= j < rt.channels@.len() && (#[trigger] rt.channels@[j]).kind == ChannelKind::Serial
            && rt.channels@[j].name@ == si
}

/// What checking channel `c` of target `rt` does next, given the exit codes
/// of the probes run so far (`None` where the host was unreachable).
pub open spec fn check_spec(c: crate::model::ChannelView, rt: ResolvedTarget, results: Seq<Option<i32>>) -> StepSpec {
    let f = c.fields;
    match c.kind {
        ChannelKind::Serial => match field_spec(f, "device"@) {
            None => StepSpec::Done(Status::Incomplete, "no device set"@),
            Some(dev) => one_probe(ProbeSpec::Exists(dev), results, dev, None),
        },
        ChannelKind::Video => match field_spec(f, "device"@) {
            None => StepSpec::Done(Status::Incomplete, "no device set"@),
            Some(dev) => one_probe(
                ProbeSpec::Video(dev),
                results,
                dev,
                Some(dev + " (hdmicap not installed)"@),
            ),
        },
        ChannelKind::Netboot => match field_spec(f, "interface"@) {
            None => StepSpec::Done(Status::Incomplete, "no interface set"@),
            Some(i) => one_probe(ProbeSpec::NetInterface(i), results, i, None),
        },
        ChannelKind::Power => match field_spec(f, "serial_interface"@) {
            Some(si) => if !has_serial_named(rt, si) {
                StepSpec::Done(
                    Status::Missing,
                    "serial_interface '"@ + si + "' has no matching serial"@,
                )
            } else {
                power_step(f, configured_hooks(f), results, 0)
            },
            None => power_step(f, configured_hooks(f), results, 0),
        },
        ChannelKind::Hid | ChannelKind::Usb => match field_spec(f, "cmd"@) {
            None => StepSpec::Done(Status::Incomplete, "no cmd set"@),
            Some(cmd) => one_probe(
                hook_probe_spec(hook_program(cmd)),
                results,
                hook_program(cmd),
                None,
            ),
        },
        ChannelKind::Adb => {
            let bin = field_spec(f, "adb"@).unwrap_or("adb"@);
            let serial = field_spec(f, "serial"@);
            one_probe(
                ProbeSpec::Adb(bin, serial),
                results,
                serial.unwrap_or("device"@),
                Some(bin + " (adb not installed)"@),
            )
        },
    }
}

proof fn lemma_power_step_ends(
    fields: Seq<(Seq<char>, Seq<char>)>,
    keys: Seq<Seq<char>>,
    results: Seq<Option<i32>>,
    k: int,
)
    requires
        0 <= k,
        keys.len() <= results.len(),
    ensures
        power_step(fields, keys, results, k) is Done,
    decreases keys.len() - k,
{
    if k < keys.len() && results[k] == Some(0i32) {
        lemma_power_step_ends(fields, keys, results, k + 1);
    }
}

/// Every check ends: one probe settles a device, interface, tool or hook
/// check, a power check probes at most its four hook commands, so given four
/// exit codes any check has its verdict.
pub proof fn law_every_check_ends(c: crate::model::ChannelView, rt: ResolvedTarget, results: Seq<Option<i32>>)
    requires
        results.len() >= 4,
    ensures
        check_spec(c, rt, results) is Done,
{
    broadcast use vstd::seq_lib::group_filter_ensures;

    let f = c.fields;
    assert(hook_keys().len() == 4);
    assert(configured_hooks(f).len() <= 4);
    lemma_power_step_ends(f, configured_hooks(f), results, 0);
}

fn program_of(cmd: &str) -> (r: String)
    ensures
        r@ == hook_program(cmd@),
{
    match crate::daemons::first_program_token(cmd) {
        Some(w) => w,
        None => String::new(),
    }
}

fn single(p: Probe, results: &Vec<Option<i32>>, what: &str, tool_missing: Option<String>) -> (r: Step)
    ensures
        r.view() == one_probe(p.view(), results@, what@, opt_seq(tool_missing)),
{
    if results.len() == 0 {
        return Step::Run(p);
    }
    if let Some(t) = tool_missing {
        if results[0] == Some(3i32) {
            return Step::Done(Status::Missing, t);
        }
    }
    let (s, d) = interpret(results[0], what);
    Step::Done(s, d)
}

fn serial_named(rt: &ResolvedTarget, si: &str) -> (r: bool)
    ensures
        r == has_serial_named(*rt, si@),
{
    let mut j: usize = 0;
    while j < rt.channels.len()
        invariant
            j <= rt.channels.len(),
            forall|k: int|
                0 <= k < j ==> !((#[trigger] rt.channels@[k]).kind == ChannelKind::Serial
                    && rt.channels@[k].name@ == si@),
        decreases rt.channels.len() - j,
    {
        let c = &rt.channels[j];
        let is_serial = match c.kind {
            ChannelKind::Serial => true,
            _ => false,
        };
        if is_serial && crate::text::same(c.name.as_str(), si) {
            return true;
        }
        j += 1;
    }
    false
}

proof fn lemma_filter_split(all: Seq<Seq<char>>, i: int, p: spec_fn(Seq<char>) -> bool)
    requires
        0 <= i <= all.len(),
    ensures
        all.filter(p) == all.take(i).filter(p) + all.skip(i).filter(p),
{
    assert(all =~= all.take(i) + all.skip(i));
    Seq::filter_distributes_over_add(all.take(i), all.skip(i), p);
}

fn power_check(ch: &ResolvedChannel, results: &Vec<Option<i32>>) -> (r: Step)
    ensures
        r.view() == power_step(
            ch.view().fields,
            configured_hooks(ch.view().fields),
            results@,
            0,
        ),
{
    let ghost f = ch.view().fields;
    let ghost kk = configured_hooks(f);
    let ghost p = is_set(f);
    let keys: [&'static str; 4] = ["cycle_cmd", "on_cmd", "off_cmd", "state_cmd"];
    let mut configured: Vec<String> = Vec::new();
    let ghost all = hook_keys();
    let mut i: usize = 0;
    proof {
        reveal(Seq::filter);
        assert(all.take(0) =~= Seq::<Seq<char>>::empty());
    }
    while i < 4
        invariant
            i <= 4,
            f == ch.view().fields,
            kk == configured_hooks(f),
            p == is_set(f),
            all == hook_keys(),
            keys@.len() == 4,
            keys@[0]@ == all[0] && keys@[1]@ == all[1] && keys@[2]@ == all[2] && keys@[3]@ == all[3],
            views(configured@) == all.take(i as int).filter(p),
            configured@.len() <= results@.len(),
            power_step(f, kk, results@, 0) == power_step(f, kk, results@, configured@.len() as int),
        decreases 4 - i,
    {
        proof {
            reveal(Seq::filter);
            assert(all.take(i + 1).drop_last() =~= all.take(i as int));
            assert(all.take(i + 1).last() == all[i as int]);
            lemma_filter_split(all, i + 1, p);
        }
        let key = keys[i];
        match field(ch, key) {
            Some(cmd) => {
                let prog = program_of(cmd.as_str());
                let n = configured.len();
                proof {
                    assert(p(all[i as int]));
                    assert(all.take(i + 1).filter(p) == all.take(i as int).filter(p).push(all[i as int]));
                    assert(kk[n as int] == all[i as int]);
                    assert(n < kk.len());
                }
                if n == results.len() {
                    return Step::Run(hook_probe(prog.as_str()));
                }
                if results[n] != Some(0i32) {
                    let (s, d) = interpret(results[n], prog.as_str());
                    return Step::Done(s, d);
                }
                push_line(&mut configured, owned(key));
            },
            None => {
                proof {
                    assert(!p(all[i as int]));
                }
            },
        }
        i += 1;
    }
    proof {
        assert(all.take(4) =~= all);
        assert(views(configured@) == kk);
    }
    if configured.len() == 0 {
        Step::Done(Status::Present, owned("configured"))
    } else {
        Step::Done(Status::Present, join_strings(&configured, ","))
    }
}

/// What checking channel `ch` of target `rt` does next, given the exit
/// codes of the probes run so far: a probe to run, or the verdict.
pub fn check_step(ch: &ResolvedChannel, rt: &ResolvedTarget, results: &Vec<Option<i32>>) -> (r: Step)
    ensures
        r.view() == check_spec(ch.view(), *rt, results@),
{
    match ch.kind {
        ChannelKind::Serial => match field(ch, "device") {
            None => Step::Done(Status::Incomplete, owned("no device set")),
            Some(dev) => single(Probe::Exists(dev.clone()), results, dev.as_str(), None),
        },
        ChannelKind::Video => match field(ch, "device") {
            None => Step::Done(Status::Incomplete, owned("no device set")),
            Some(dev) => single(
                Probe::Video(dev.clone()),
                results,
                dev.as_str(),
                Some(cat(dev.as_str(), " (hdmicap not installed)")),
            ),
        },
        ChannelKind::Netboot => match field(ch, "interface") {
            None => Step::Done(Status::Incomplete, owned("no interface set")),
            Some(i) => single(Probe::NetInterface(i.clone()), results, i.as_str(), None),
        },
        ChannelKind::Power => {
            if let Some(si) = field(ch, "serial_interface") {
                if !serial_named(rt, si.as_str()) {
                    let mut m = cat("serial_interface '", si.as_str());
                    push_str(&mut m, "' has no matching serial");
                    return Step::Done(Status::Missing, m);
                }
            }
            power_check(ch, results)
        },
        ChannelKind::Hid | ChannelKind::Usb => match field(ch, "cmd") {
            None => Step::Done(Status::Incomplete, owned("no cmd set")),
            Some(cmd) => {
                let prog = program_of(cmd.as_str());
                single(hook_probe(prog.as_str()), results, prog.as_str(), None)
            },
        },
        ChannelKind::Adb => {
            let bin = match field(ch, "adb") {
                Some(b) => b,
                None => owned("adb"),
            };
            let serial = field(ch, "serial");
            let what = match &serial {
                Some(s) => s.clone(),
                None => owned("device"),
            };
            let missing = cat(bin.as_str(), " (adb not installed)");
            single(Probe::Adb { bin, serial }, results, what.as_str(), Some(missing))
        },
    }
}

/// One report line: target, channel, `@host`, status label and detail,
/// tab-separated.
pub fn report_line(target: &str, ch: &ResolvedChannel, status: Status, detail: &str) -> (r: String)
    ensures
        r@ == target@ + "\t"@ + channel_label(ch.view()) + "\t@"@ + ch.host@ + "\t"@
            + status_label(status) + "\t"@ + detail@,
{
    let mut s = cat3(target, "\t", channel_name(ch).as_str());
    push_str(&mut s, "\t@");
    push_str(&mut s, ch.host.as_str());
    push_str(&mut s, "\t");
    push_str(&mut s, status.label());
    push_str(&mut s, "\t");
    push_str(&mut s, detail);
    s
}

/// How many of `verdicts` are problems (missing or unreachable).
pub open spec fn problems_in(verdicts: Seq<Status>) -> nat
    decreases verdicts.len(),
{
    if verdicts.len() == 0 {
        0
    } else {
        problems_in(verdicts.drop_last()) + if verdicts.last() == Status::Missing || verdicts.last()
            == Status::Unreachable {
            1nat
        } else {
            0nat
        }
    }
}

/// How a doctor run ends, given how many asked-for targets the lab lacks and
/// the verdict of every channel checked: with no problem, status 0 and
/// "All configured channels present."; otherwise status 1 and
/// "N problem(s) found.", N counting the missing targets and the problem
/// verdicts.
pub fn doctor_outcome(missing_targets: u64, verdicts: &Vec<Status>) -> (r: (i32, String))
    requires
        missing_targets + verdicts@.len() <= u64::MAX,
    ensures
        ({
            let n = missing_targets + problems_in(verdicts@);
            &&& r.0 == if n == 0 { 0i32 } else { 1i32 }
            &&& r.1@ == if n == 0 {
                "All configured channels present."@
            } else {
                decimal(n as nat) + " problem(s) found."@
            }
        }),
{
    let mut n: u64 = missing_targets;
    let mut i: usize = 0;
    while i < verdicts.len()
        invariant
            i <= verdicts.len(),
            missing_targets + verdicts@.len() <= u64::MAX,
            n == missing_targets + problems_in(verdicts@.take(i as int)),
            problems_in(verdicts@.take(i as int)) <= i,
        decreases verdicts.len() - i,
    {
        assert(verdicts@.take(i + 1).drop_last() =~= verdicts@.take(i as int));
        if verdicts[i].is_problem() {
            n = n + 1;
        }
        i += 1;
    }
    assert(verdicts@.take(verdicts.len() as int) =~= verdicts@);
    if n == 0 {
        (0, owned("All configured channels present."))
    } else {
        let mut m = String::new();
        crate::text::push_decimal(&mut m, n);
        push_str(&mut m, " problem(s) found.");
        (1, m)
    }
}

/// The targets `doctor` checks: the one named, else every target of the lab
/// in lab order.
pub fn doctor_targets(lab: &Lab, target: Option<&str>) -> (r: Vec<String>)
    ensures
        views(r@) == match target {
            Some(n) => seq![n@],
            None => lab.target_keys(),
        },
{
    match target {
        Some(n) => {
            let mut v: Vec<String> = Vec::new();
            v.push(owned(n));
            assert(views(v@) =~= seq![n@]);
            v
        },
        None => lab.target_names(),
    }
}

/// Whether `doctor` checks a channel on `host`: every channel, or under
/// `--host` only those on that host.
pub fn checks_host(host: &str, host_filter: Option<&str>) -> (r: bool)
    ensures
        r == match host_filter {
            Some(h) => host@ == h@,
            None => true,
        },
{
    match host_filter {
        Some(h) => same(host, h),
        None => true,
    }
}

/// An adb probe for a given serial asks about that device: its script ends
/// by running the (quoted) adb binary with `-s` and the shell-quoted serial
/// before `get-state`; without a serial, with nothing between them.
pub proof fn law_an_adb_probe_names_its_device(bin: Seq<char>, serial: Option<Seq<char>>)
    ensures
        serial matches Some(s) ==> exists|pre: Seq<char>|
            posix_text(ProbeSpec::Adb(bin, serial)) == pre + " || exit 3; "@ + shell_quoted(bin) + " -s "@
                + shell_quoted(s) + " get-state >/dev/null 2>&1"@,
        serial is None ==> exists|pre: Seq<char>|
            posix_text(ProbeSpec::Adb(bin, serial)) == pre + " || exit 3; "@ + shell_quoted(bin)
                + " get-state >/dev/null 2>&1"@,
{
    reveal_strlit(" ");
    reveal_strlit("-s ");
    reveal_strlit(" -s ");
    reveal_strlit("get-state >/dev/null 2>&1");
    reveal_strlit(" get-state >/dev/null 2>&1");
    let pre = if starts_with(bin, "/"@) {
        "test -x "@ + shell_quoted(bin)
    } else {
        "command -v "@ + shell_quoted(bin) + " >/dev/null"@
    };
    match serial {
        Some(s) => {
            assert(posix_text(ProbeSpec::Adb(bin, serial)) =~= pre + " || exit 3; "@ + shell_quoted(bin) + " -s "@
                + shell_quoted(s) + " get-state >/dev/null 2>&1"@);
        },
        None => {
            assert(posix_text(ProbeSpec::Adb(bin, serial)) =~= pre + " || exit 3; "@ + shell_quoted(bin)
                + " get-state >/dev/null 2>&1"@);
        },
    }
}

} // verus!
