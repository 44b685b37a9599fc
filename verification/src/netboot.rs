//! Netboot lifecycle: the decisions behind starting and stopping the
//! `netbootd` daemon (DHCP + TFTP over the dedicated USB-Ethernet link).
//! Spawning, watching and signalling the daemon is the application's part.
use vstd::prelude::*;
use crate::text::{opt_string_view, 
    cat, cat3, decimal, join, join_strings, lines, owned, push_decimal, push_line, push_signed,
    push_str, signed_decimal, split_lines, views,
};
use crate::error::{channel_missing, copy_opt, target_not_found, Kind, PanioloError};
use crate::model::{host_or, lemma_first_index, local, Lab, DEFAULT_HOST_IP, LOCAL};

verus! {

/// How much of the daemon's log a startup failure quotes.
pub const LOG_TAIL_LINES: usize = 20;
/// How long `start` watches a freshly spawned netbootd, in milliseconds.
pub const STARTUP_GRACE_MS: u64 = 2000;
/// Poll interval while watching, in milliseconds.
pub const STARTUP_POLL_MS: u64 = 100;

/// Optional UEFI boot parameters forwarded to `netbootd` as flags; each
/// defaults inside `netbootd` when unset.
pub struct BootOptions {
    pub boot_file: Option<String>,
    pub http_port: Option<String>,
    pub content_type: Option<String>,
}

impl Default for BootOptions {
    fn default() -> (r: Self)
        ensures
            r.boot_file is None && r.http_port is None && r.content_type is None,
    {
        BootOptions { boot_file: None, http_port: None, content_type: None }
    }
}

/// What a netboot record says of a running session.
pub struct NetbootRecord {
    pub target: String,
    pub dhcp_pid: i32,
    pub tftp_pid: i32,
    pub interface: String,
    pub tftp_root: String,
    pub engine: String,
}

/// The first record of another target whose session serves `interface`:
/// one netbootd per interface.
pub open spec fn conflict_index(target: Seq<char>, interface: Seq<char>, running: Seq<(String, NetbootRecord)>, i: int) -> Option<int>
    decreases running.len() - i,
{
    if i < 0 || i >= running.len() {
        None
    } else if running[i].0@ != target && running[i].1.interface@ == interface {
        Some(i)
    } else {
        conflict_index(target, interface, running, i + 1)
    }
}

/// The other target (name and record) whose live netbootd already owns
/// `interface`, if any.
pub fn interface_conflict<'a>(target: &str, interface: &str, running: &'a Vec<(String, NetbootRecord)>) -> (r: Option<&'a (String, NetbootRecord)>)
    ensures
        match conflict_index(target@, interface@, running@, 0) {
            Some(i) => r matches Some(x) && *x == running@[i],
            None => r is None,
        },
{
    let mut i: usize = 0;
    while i < running.len()
        invariant
            i <= running.len(),
            conflict_index(target@, interface@, running@, 0) == conflict_index(target@, interface@, running@, i as int),
        decreases running.len() - i,
    {
        if !crate::text::same(running[i].0.as_str(), target) && crate::text::same(running[i].1.interface.as_str(), interface) {
            return Some(&running[i]);
        }
        i += 1;
    }
    None
}

/// The last `n` lines of `text` (all of it if shorter), joined by newlines.
pub open spec fn tail_text(text: Seq<char>, n: nat) -> Seq<char> {
    let ls = lines(text);
    join(if ls.len() > n { ls.skip(ls.len() - n) } else { ls }, "\n"@)
}

pub fn log_tail(text: &str, n: usize) -> (r: String)
    ensures
        r@ == tail_text(text@, n as nat),
{
    let ls = split_lines(text);
    let ghost lv = views(ls@);
    let from: usize = if ls.len() > n { ls.len() - n } else { 0 };
    let mut tail: Vec<String> = Vec::new();
    let mut i = from;
    while i < ls.len()
        invariant
            from <= i <= ls.len(),
            lv == views(ls@),
            views(tail@) == lv.subrange(from as int, i as int),
        decreases ls.len() - i,
    {
        push_line(&mut tail, ls[i].clone());
        assert(lv.subrange(from as int, i + 1) =~= lv.subrange(from as int, i as int).push(lv[i as int]));
        i += 1;
    }
    assert(views(tail@) =~= (if lv.len() > n { lv.skip(lv.len() - n) } else { lv }));
    join_strings(&tail, "\n")
}

/// Why `start` refuses, checked in order: a session already running, no
/// TFTP root, a TFTP root that does not exist, the primary interface, or an
/// interface another target's session owns (`conflict`: its name and pid).
pub open spec fn start_refusal(
    target: Seq<char>,
    interface: Seq<char>,
    host_ip: Seq<char>,
    tftp_root: Seq<char>,
    running: bool,
    root_exists: bool,
    primary: bool,
    conflict: Option<(Seq<char>, i32)>,
) -> Option<Seq<char>> {
    if running {
        Some("netboot already running for '"@ + target + "'"@)
    } else if tftp_root.len() == 0 {
        Some("no tftp_root configured (paniolo netboot set -t "@ + target + " --tftp-root <path>)"@)
    } else if !root_exists {
        Some("TFTP root does not exist: "@ + tftp_root)
    } else if primary {
        Some(
            "refusing to start netboot on '"@ + interface
                + "': it carries the system default route (your primary network interface). netboot reconfigures it to "@
                + host_ip
                + " and would break host networking. Use a dedicated USB-Ethernet adapter for the netboot link."@,
        )
    } else {
        match conflict {
            Some((other, pid)) => Some(
                "netboot for '"@ + other + "' is already running on "@ + interface + " (pid "@
                    + signed_decimal(pid as int)
                    + "); one netboot per interface — stop it first (paniolo netboot stop "@ + other
                    + ") or give '"@ + target + "' its own adapter"@,
            ),
            None => None,
        }
    }
}

/// The refusal `start` answers with, if any, given what the host reported.
pub fn start_check(
    target: &str,
    interface: &str,
    host_ip: &str,
    tftp_root: &str,
    running: bool,
    root_exists: bool,
    primary: bool,
    conflict: Option<(&str, i32)>,
) -> (r: Result<(), String>)
    ensures
        match start_refusal(
            target@,
            interface@,
            host_ip@,
            tftp_root@,
            running,
            root_exists,
            primary,
            match conflict {
                Some((o, p)) => Some((o@, p)),
                None => None,
            },
        ) {
            Some(m) => r matches Err(e) && e@ == m,
            None => r is Ok,
        },
{
    if running {
        return Err(cat3("netboot already running for '", target, "'"));
    }
    if tftp_root.unicode_len() == 0 {
        return Err(cat3("no tftp_root configured (paniolo netboot set -t ", target, " --tftp-root <path>)"));
    }
    if !root_exists {
        return Err(cat("TFTP root does not exist: ", tftp_root));
    }
    if primary {
        let mut m = cat3("refusing to start netboot on '", interface, "': it carries the system default route (your primary network interface). netboot reconfigures it to ");
        push_str(&mut m, host_ip);
        push_str(&mut m, " and would break host networking. Use a dedicated USB-Ethernet adapter for the netboot link.");
        return Err(m);
    }
    match conflict {
        Some((other, pid)) => {
            let mut m = cat3("netboot for '", other, "' is already running on ");
            push_str(&mut m, interface);
            push_str(&mut m, " (pid ");
            push_signed(&mut m, pid as i64);
            push_str(&mut m, "); one netboot per interface — stop it first (paniolo netboot stop ");
            push_str(&mut m, other);
            push_str(&mut m, ") or give '");
            push_str(&mut m, target);
            push_str(&mut m, "' its own adapter");
            Err(m)
        },
        None => Ok(()),
    }
}

pub open spec fn opt_flag(flag: Seq<char>, v: Option<String>) -> Seq<Seq<char>> {
    match v {
        Some(x) => seq![flag, x@],
        None => Seq::empty(),
    }
}

/// The netbootd command line: through `sudo env NO_COLOR=1` where ports
/// 67/69 need root, the daemon itself otherwise; then its flags.
pub open spec fn netbootd_words(
    needs_sudo: bool,
    netbootd: Seq<char>,
    host_ip: Seq<char>,
    tftp_root: Seq<char>,
    interface: Seq<char>,
    opts: BootOptions,
) -> Seq<Seq<char>> {
    (if needs_sudo {
        seq!["sudo"@, "env"@, "NO_COLOR=1"@, netbootd]
    } else {
        seq![netbootd]
    }) + seq!["--host-ip"@, host_ip, "--tftp-root"@, tftp_root, "--interface"@, interface]
        + opt_flag("--boot-file"@, opts.boot_file) + opt_flag("--http-port"@, opts.http_port)
        + opt_flag("--content-type"@, opts.content_type)
}

fn push_flag(v: &mut Vec<String>, flag: &str, x: &Option<String>)
    ensures
        views(final(v)@) == views(old(v)@) + opt_flag(flag@, *x),
{
    let ghost start = views(v@);
    if let Some(s) = x {
        push_line(v, owned(flag));
        push_line(v, s.clone());
    }
    assert(views(v@) =~= start + opt_flag(flag@, *x));
}

/// The argv (program first) that starts netbootd. Without sudo the caller
/// sets `NO_COLOR=1` in the child's environment itself.
pub fn netbootd_command(
    needs_sudo: bool,
    netbootd: &str,
    host_ip: &str,
    tftp_root: &str,
    interface: &str,
    opts: &BootOptions,
) -> (r: Vec<String>)
    ensures
        views(r@) == netbootd_words(needs_sudo, netbootd@, host_ip@, tftp_root@, interface@, *opts),
{
    let mut v: Vec<String> = Vec::new();
    if needs_sudo {
        push_line(&mut v, owned("sudo"));
        push_line(&mut v, owned("env"));
        push_line(&mut v, owned("NO_COLOR=1"));
    }
    push_line(&mut v, owned(netbootd));
    push_line(&mut v, owned("--host-ip"));
    push_line(&mut v, owned(host_ip));
    push_line(&mut v, owned("--tftp-root"));
    push_line(&mut v, owned(tftp_root));
    push_line(&mut v, owned("--interface"));
    push_line(&mut v, owned(interface));
    let ghost mid = views(v@);
    push_flag(&mut v, "--boot-file", &opts.boot_file);
    push_flag(&mut v, "--http-port", &opts.http_port);
    push_flag(&mut v, "--content-type", &opts.content_type);
    assert(views(v@) =~= netbootd_words(needs_sudo, netbootd@, host_ip@, tftp_root@, interface@, *opts));
    v
}

/// Whether `stop` may signal a pid it read from the state file: only one
/// both alive and still running netbootd (a live pid running something else
/// has been recycled and belongs to a stranger).
pub fn should_signal(alive: bool, cmdline_mentions_netbootd: bool) -> (r: bool)
    ensures
        r == (alive && cmdline_mentions_netbootd),
{
    alive && cmdline_mentions_netbootd
}

/// The distinct pids of a record, each signalled once.
pub fn recorded_pids(dhcp_pid: i32, tftp_pid: i32) -> (r: Vec<i32>)
    ensures
        r@ == if tftp_pid != dhcp_pid {
            seq![dhcp_pid, tftp_pid]
        } else {
            seq![dhcp_pid]
        },
{
    let mut v: Vec<i32> = Vec::new();
    v.push(dhcp_pid);
    if tftp_pid != dhcp_pid {
        v.push(tftp_pid);
    }
    v
}

/// The error for netbootd pids that outlived SIGKILL.
pub fn stop_failure(survivors: &Vec<i32>, interface: &str) -> (r: String)
    ensures
        r@ == "netbootd (pid "@ + join(
            survivors@.map_values(|p: i32| signed_decimal(p as int)),
            ", "@,
        ) + ") is still running after SIGKILL; leaving its state file and interface "@ + interface@
            + " in place"@,
{
    let mut parts: Vec<String> = Vec::new();
    let mut i: usize = 0;
    while i < survivors.len()
        invariant
            i <= survivors.len(),
            views(parts@) == survivors@.take(i as int).map_values(|p: i32| signed_decimal(p as int)),
        decreases survivors.len() - i,
    {
        let mut s = String::new();
        push_signed(&mut s, survivors[i] as i64);
        push_line(&mut parts, s);
        assert(survivors@.take(i + 1) =~= survivors@.take(i as int).push(survivors@[i as int]));
        assert(views(parts@) =~= survivors@.take(i + 1).map_values(|p: i32| signed_decimal(p as int)));
        i += 1;
    }
    assert(survivors@.take(survivors.len() as int) =~= survivors@);
    let mut m = cat("netbootd (pid ", join_strings(&parts, ", ").as_str());
    push_str(&mut m, ") is still running after SIGKILL; leaving its state file and interface ");
    push_str(&mut m, interface);
    push_str(&mut m, " in place");
    m
}

// ── stopping ────────────────────────────────────────────────────────────────

/// Where stopping a netboot session stands. Each step is handed which of the
/// pids still being dealt with are verified to be netbootd right now.
#[derive(Debug, Clone, Copy, PartialEq, Eq, Structural)]
pub enum StopPhase {
    /// The recorded pids; the live ones get SIGTERM.
    Term,
    /// Those sent SIGTERM; the ones still alive get SIGKILL.
    Kill,
    /// Those sent SIGKILL; any still alive is a failure.
    Check,
    /// Stopping is over.
    Done,
}

pub struct StopState {
    pub phase: StopPhase,
    pub pids: Vec<i32>,
}

/// What the application does next.
pub enum StopAction {
    /// Send `signal` to each pid, then wait up to `wait_secs` for them to exit.
    Signal(Vec<i32>, crate::platform::Signal, u64),
    /// Done: on `Ok`, remove the state file and restore the interface; on
    /// `Err`, leave both in place and report the message.
    Finish(Result<(), String>),
}

/// The pids of `pids` whose flag in `alive` is set, in order.
pub open spec fn still_alive(pids: Seq<i32>, alive: Seq<bool>) -> Seq<i32>
    decreases pids.len(),
{
    if pids.len() == 0 || alive.len() == 0 {
        Seq::empty()
    } else {
        still_alive(pids.drop_last(), alive.drop_last()) + if alive.last() {
            seq![pids.last()]
        } else {
            Seq::empty()
        }
    }
}

fn keep_alive(pids: &Vec<i32>, alive: &Vec<bool>) -> (r: Vec<i32>)
    requires
        pids.len() == alive.len(),
    ensures
        r@ == still_alive(pids@, alive@),
{
    let mut out: Vec<i32> = Vec::new();
    let mut i: usize = 0;
    while i < pids.len()
        invariant
            i <= pids.len(),
            pids.len() == alive.len(),
            out@ == still_alive(pids@.take(i as int), alive@.take(i as int)),
        decreases pids.len() - i,
    {
        assert(pids@.take(i + 1).drop_last() =~= pids@.take(i as int));
        assert(alive@.take(i + 1).drop_last() =~= alive@.take(i as int));
        if alive[i] {
            out.push(pids[i]);
        }
        i += 1;
    }
    assert(pids@.take(pids.len() as int) =~= pids@);
    assert(alive@.take(alive.len() as int) =~= alive@);
    out
}

/// Stopping starts from the session's recorded pids (each distinct one once).
pub fn stop_start(dhcp_pid: i32, tftp_pid: i32) -> (r: StopState)
    ensures
        r.phase == StopPhase::Term,
        r.pids@ == if tftp_pid != dhcp_pid {
            seq![dhcp_pid, tftp_pid]
        } else {
            seq![dhcp_pid]
        },
{
    StopState { phase: StopPhase::Term, pids: recorded_pids(dhcp_pid, tftp_pid) }
}

/// One step of stopping: the live pids get SIGTERM and 3 s; those still
/// alive then get SIGKILL and 2 s; any alive after that fails the stop,
/// leaving the state file and `interface` in place. Liveness is checked
/// afresh before each escalation, as a pid may have been recycled.
pub fn stop_step(s: StopState, alive: &Vec<bool>, interface: &str) -> (r: (StopState, StopAction))
    requires
        s.phase != StopPhase::Done,
        alive.len() == s.pids.len(),
    ensures
        ({
            let left = still_alive(s.pids@, alive@);
            match s.phase {
                StopPhase::Term => r.0.phase == StopPhase::Kill && r.0.pids@ == left && (r.1 matches StopAction::Signal(p, g, w)
                    && p@ == left && g == crate::platform::Signal::Term && w == 3),
                StopPhase::Kill => r.0.phase == StopPhase::Check && r.0.pids@ == left && (r.1 matches StopAction::Signal(p, g, w)
                    && p@ == left && g == crate::platform::Signal::Kill && w == 2),
                _ => r.0.phase == StopPhase::Done && r.0.pids@ == left && if left.len() == 0 {
                    r.1 matches StopAction::Finish(Ok(()))
                } else {
                    r.1 matches StopAction::Finish(Err(m)) && m@ == "netbootd (pid "@ + join(
                        left.map_values(|p: i32| signed_decimal(p as int)),
                        ", "@,
                    ) + ") is still running after SIGKILL; leaving its state file and interface "@
                        + interface@ + " in place"@
                },
            }
        }),
{
    let left = keep_alive(&s.pids, alive);
    match s.phase {
        StopPhase::Term => {
            let p = keep_alive(&s.pids, alive);
            (StopState { phase: StopPhase::Kill, pids: left }, StopAction::Signal(p, crate::platform::Signal::Term, 3))
        },
        StopPhase::Kill => {
            let p = keep_alive(&s.pids, alive);
            (StopState { phase: StopPhase::Check, pids: left }, StopAction::Signal(p, crate::platform::Signal::Kill, 2))
        },
        _ => {
            if left.len() == 0 {
                (StopState { phase: StopPhase::Done, pids: left }, StopAction::Finish(Ok(())))
            } else {
                let m = stop_failure(&left, interface);
                (StopState { phase: StopPhase::Done, pids: left }, StopAction::Finish(Err(m)))
            }
        },
    }
}

/// A target's netboot channel as this host runs it.
pub struct LocalNetboot {
    pub interface: String,
    pub host_ip: String,
    pub tftp_root: Option<String>,
    pub opts: BootOptions,
}


pub open spec fn no_netboot_text(t: Seq<char>) -> Seq<char> {
    "target '"@ + t + "' has no netboot channel (paniolo netboot set -t "@ + t + " ...)"@
}

pub open spec fn not_here_text(t: Seq<char>) -> Seq<char> {
    "netboot channel for '"@ + t + "' is not on this host"@
}

pub open spec fn no_interface_text(t: Seq<char>) -> Seq<char> {
    "netboot channel for '"@ + t + "' has no interface set"@
}

/// The netboot channel of `target` for running it on this host: refused
/// (not configured) when the lab has no such target, when the target has no
/// netboot channel, when that channel lives on another host, or when it names
/// no interface; otherwise its interface, its host IP (the default link
/// address when unset), its TFTP root and its boot options.
pub fn local_netboot(lab: &Lab, target: &str) -> (r: Result<LocalNetboot, PanioloError>)
    ensures
        match lab.target_spec(target@) {
            None => r matches Err(e) && e.kind == Kind::NotConfigured && e.message@ == "target '"@ + target@
                + "' not found in lab"@,
            Some(t) => match t.netboot {
                None => r matches Err(e) && e.kind == Kind::NotConfigured && e.message@ == no_netboot_text(target@)
                    && (e.channel matches Some(c) && c@ == "netboot"@),
                Some(nb) => if host_or(nb.host, t.default_host_spec()) != local() {
                    r matches Err(e) && e.kind == Kind::NotConfigured && e.message@ == not_here_text(target@)
                } else {
                    match nb.interface {
                        None => r matches Err(e) && e.kind == Kind::NotConfigured && e.message@
                            == no_interface_text(target@),
                        Some(i) => r matches Ok(n) && n.interface@ == i@ && n.host_ip@ == match nb.host_ip {
                            Some(h) => h@,
                            None => DEFAULT_HOST_IP@,
                        } && opt_string_view(n.tftp_root) == opt_string_view(nb.tftp_root) && opt_string_view(n.opts.boot_file)
                            == opt_string_view(nb.boot_file) && opt_string_view(n.opts.http_port) == opt_string_view(nb.http_port)
                            && opt_string_view(n.opts.content_type) == opt_string_view(nb.content_type),
                    }
                },
            },
        },
{
    proof {
        lemma_first_index(lab.target_keys(), target@);
    }
    let i = match lab.find_target(target) {
        Some(i) => i,
        None => return Err(target_not_found(target)),
    };
    let t = &lab.targets[i].1;
    let nb = match &t.netboot {
        Some(nb) => nb,
        None => {
            let mut m = owned("target '");
            push_str(&mut m, target);
            push_str(&mut m, "' has no netboot channel (paniolo netboot set -t ");
            push_str(&mut m, target);
            push_str(&mut m, " ...)");
            return Err(channel_missing(target, "netboot", m.as_str()));
        },
    };
    let h = match &nb.host {
        Some(h) => h.as_str(),
        None => t.default_host(),
    };
    if !crate::text::same(h, LOCAL) {
        let mut m = owned("netboot channel for '");
        push_str(&mut m, target);
        push_str(&mut m, "' is not on this host");
        return Err(PanioloError::not_configured(m.as_str()));
    }
    let interface = match &nb.interface {
        Some(x) => owned(x.as_str()),
        None => {
            let mut m = owned("netboot channel for '");
            push_str(&mut m, target);
            push_str(&mut m, "' has no interface set");
            return Err(PanioloError::not_configured(m.as_str()));
        },
    };
    let host_ip = match &nb.host_ip {
        Some(x) => owned(x.as_str()),
        None => owned(DEFAULT_HOST_IP),
    };
    Ok(LocalNetboot {
        interface,
        host_ip,
        tftp_root: copy_opt(&nb.tftp_root),
        opts: BootOptions {
            boot_file: copy_opt(&nb.boot_file),
            http_port: copy_opt(&nb.http_port),
            content_type: copy_opt(&nb.content_type),
        },
    })
}

} // verus!
