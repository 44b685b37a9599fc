//! Persistent runtime state: where a target's netboot record and log live,
//! and the liveness rule for the processes a record names. Reading files and
//! the process table is the application's part.
use vstd::prelude::*;
use crate::ssh::{join_path, path_join};
use crate::text::{chars_of, contains, has_substring, owned, string_of, trim, trimmed};

verus! {

/// The netboot state directory, `~/.local/share/paniolo` (relative to the
/// current directory when there is no home).
pub fn state_dir(home: Option<&str>) -> (r: String)
    ensures
        r@ == path_join(
            match home {
                Some(h) => h@,
                None => Seq::empty(),
            },
            ".local/share/paniolo"@,
        ),
{
    proof {
        reveal_strlit("");
    }
    match home {
        Some(h) => join_path(h, ".local/share/paniolo"),
        None => join_path("", ".local/share/paniolo"),
    }
}

/// `<state dir>/<target>/netboot.json`.
pub fn netboot_state_path(state_dir: &str, target: &str) -> (r: String)
    ensures
        r@ == path_join(path_join(state_dir@, target@), "netboot.json"@),
{
    join_path(join_path(state_dir, target).as_str(), "netboot.json")
}

/// `<state dir>/<target>/netboot.log`.
pub fn netboot_log_path(state_dir: &str, target: &str) -> (r: String)
    ensures
        r@ == path_join(path_join(state_dir@, target@), "netboot.log"@),
{
    join_path(join_path(state_dir, target).as_str(), "netboot.log")
}

/// A process is the one a record names only while it is alive and its
/// command line mentions `needle` — a guard against pid reuse.
pub fn named_child_alive(alive: bool, cmdline: &str, needle: &str) -> (r: bool)
    ensures
        r == (alive && contains(cmdline@, needle@)),
{
    alive && has_substring(cmdline, needle)
}

/// A `/proc/<pid>/cmdline` body as one line: NULs become spaces, then trimmed.
pub fn cmdline_text(raw: &str) -> (r: String)
    ensures
        r@ == trim(raw@.map_values(|c: char| if c == '\0' { ' ' } else { c })),
{
    let v = chars_of(raw);
    let mut out: Vec<char> = Vec::new();
    let mut i: usize = 0;
    while i < v.len()
        invariant
            v@ == raw@,
            i <= v.len(),
            out@ == v@.take(i as int).map_values(|c: char| if c == '\0' { ' ' } else { c }),
        decreases v.len() - i,
    {
        out.push(if v[i] == '\0' { ' ' } else { v[i] });
        assert(v@.take(i + 1) =~= v@.take(i as int).push(v@[i as int]));
        assert(out@ =~= v@.take(i + 1).map_values(|c: char| if c == '\0' { ' ' } else { c }));
        i += 1;
    }
    assert(v@.take(v.len() as int) =~= v@);
    trimmed(string_of(&out).as_str())
}

/// The `(pid, name)` checks that decide whether a netboot record's session
/// is running: the one netbootd for the `rust` engine, both python children
/// otherwise. The session runs when every check passes.
pub open spec fn liveness_checks_spec(engine: Seq<char>, dhcp: i32, tftp: i32) -> Seq<(i32, Seq<char>)> {
    if engine == "rust"@ {
        seq![(dhcp, "netbootd"@)]
    } else {
        seq![(dhcp, "paniolo._dhcp"@), (tftp, "paniolo._tftp"@)]
    }
}

pub fn liveness_checks(engine: &str, dhcp_pid: i32, tftp_pid: i32) -> (r: Vec<(i32, &'static str)>)
    ensures
        r@.map_values(|c: (i32, &'static str)| (c.0, c.1@)) == liveness_checks_spec(
            engine@,
            dhcp_pid,
            tftp_pid,
        ),
{
    let mut v: Vec<(i32, &'static str)> = Vec::new();
    if crate::text::same(engine, "rust") {
        v.push((dhcp_pid, "netbootd"));
    } else {
        v.push((dhcp_pid, "paniolo._dhcp"));
        v.push((tftp_pid, "paniolo._tftp"));
    }
    assert(v@.map_values(|c: (i32, &'static str)| (c.0, c.1@)) =~= liveness_checks_spec(
        engine@,
        dhcp_pid,
        tftp_pid,
    ));
    v
}

/// The engine a record without one was written by.
pub fn default_engine() -> (r: String)
    ensures
        r@ == "python"@,
{
    owned("python")
}

/// Whether a netboot session is running: never without a record (`None`);
/// with a record of `(engine, dhcp pid, tftp pid)`, when every liveness
/// check of that record passed (`passed`, in the order of
/// [`liveness_checks`]).
pub fn netboot_running(record: Option<(&str, i32, i32)>, passed: &Vec<bool>) -> (r: bool)
    requires
        record matches Some((e, d, t)) ==> passed@.len() == liveness_checks_spec(e@, d, t).len(),
    ensures
        r == match record {
            None => false,
            Some(_) => forall|i: int| 0 <= i < passed@.len() ==> passed@[i],
        },
{
    if record.is_none() {
        return false;
    }
    let mut i: usize = 0;
    while i < passed.len()
        invariant
            i <= passed@.len(),
            forall|k: int| 0 <= k < i ==> passed@[k],
        decreases passed@.len() - i,
    {
        if !passed[i] {
            return false;
        }
        i += 1;
    }
    true
}

/// A recorded netboot session runs exactly when its processes do: for the
/// `rust` engine its `netbootd`, otherwise both python children, each alive
/// under its own name (`alive`).
pub proof fn law_a_netboot_runs_when_its_processes_do(
    engine: Seq<char>,
    dhcp: i32,
    tftp: i32,
    alive: spec_fn(i32, Seq<char>) -> bool,
    passed: Seq<bool>,
)
    requires
        passed.len() == liveness_checks_spec(engine, dhcp, tftp).len(),
        forall|i: int|
            0 <= i < passed.len() ==> #[trigger] passed[i] == alive(
                liveness_checks_spec(engine, dhcp, tftp)[i].0,
                liveness_checks_spec(engine, dhcp, tftp)[i].1,
            ),
    ensures
        (forall|i: int| 0 <= i < passed.len() ==> passed[i]) == if engine == "rust"@ {
            alive(dhcp, "netbootd"@)
        } else {
            alive(dhcp, "paniolo._dhcp"@) && alive(tftp, "paniolo._tftp"@)
        },
{
    if engine == "rust"@ {
        assert(passed[0] == alive(dhcp, "netbootd"@));
    } else {
        assert(passed[0] == alive(dhcp, "paniolo._dhcp"@));
        assert(passed[1] == alive(tftp, "paniolo._tftp"@));
    }
}

} // verus!
