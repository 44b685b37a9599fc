//! Shared plumbing for paniolo's per-subsystem daemons (serialcap, hdmicap,
//! hid, zigplug, netbootd, ...).
//!
//! Every daemon is an installed helper binary that binds localhost and
//! writes a discovery file `{pid, port, token}` under
//! `<runtime>/<name>[/<target>]/daemon.json`; `token` is the bearer secret
//! every request must carry. This module holds the naming rules for those
//! paths, the endpoint and its URLs, the reading of a discovery file's
//! fields, and the classification of stray helper processes in a `ps`
//! listing. Reading files, the environment and the process table is the
//! application's part.
use vstd::prelude::*;
use crate::numbers::{i32_parse, parse_i32};
use crate::ssh::{env_name, is_env_name, join_path, path_join};
use crate::text::{opt_view, 
    ascii_alnum, cat, cat3, chars_of, decimal, ends_with, has_prefix, is_ascii_alnum, is_space,
    join, join_strings, lines, owned, push_char, push_decimal, push_line, push_str, split_lines,
    split_words, starts_with, string_of, trim, trim_start, trimmed, views, words,
};

verus! {

// ── where helpers and daemon state live ────────────────────────────────────

/// The helper directory of the Linux system packages, searched after the
/// per-user libexec directory.
pub fn system_libexec_dir() -> (r: String)
    ensures
        r@ == "/usr/libexec/paniolo/bin"@,
{
    owned("/usr/libexec/paniolo/bin")
}

/// The per-user install root for helpers, `~/.local/libexec/paniolo`.
pub fn libexec_root(home: Option<&str>) -> (r: Option<String>)
    ensures
        match home {
            Some(h) => r matches Some(x) && x@ == path_join(h@, ".local/libexec/paniolo"@),
            None => r is None,
        },
{
    match home {
        Some(h) => Some(join_path(h, ".local/libexec/paniolo")),
        None => None,
    }
}

/// The per-user helper directory, `~/.local/libexec/paniolo/bin`.
pub fn libexec_dir(home: Option<&str>) -> (r: Option<String>)
    ensures
        match home {
            Some(h) => r matches Some(x) && x@ == path_join(
                path_join(h@, ".local/libexec/paniolo"@),
                "bin"@,
            ),
            None => r is None,
        },
{
    match libexec_root(home) {
        Some(root) => Some(join_path(root.as_str(), "bin")),
        None => None,
    }
}

/// Candidate file names for a helper in a directory: on Windows the `.exe`
/// name first, the bare one kept as a fallback; elsewhere only the name.
pub fn binary_names(name: &str, windows: bool) -> (r: Vec<String>)
    ensures
        views(r@) == if windows && !ends_with(name@, ".exe"@) {
            seq![name@ + ".exe"@, name@]
        } else {
            seq![name@]
        },
{
    let mut v: Vec<String> = Vec::new();
    if windows && !crate::text::has_suffix(name, ".exe") {
        push_line(&mut v, cat(name, ".exe"));
    }
    push_line(&mut v, owned(name));
    v
}

/// The per-user runtime base, `<root>/paniolo-<uid>`.
pub fn runtime_base(root: &str, uid: u32) -> (r: String)
    ensures
        r@ == path_join(root@, "paniolo-"@ + decimal(uid as nat)),
{
    let mut leaf = owned("paniolo-");
    push_decimal(&mut leaf, uid as u64);
    join_path(root, leaf.as_str())
}

/// A character kept as is in a path component.
pub open spec fn component_char(c: char) -> bool {
    is_ascii_alnum(c) || c == '-' || c == '_' || c == '.'
}

/// An instance key (a user-chosen target name) as one safe path component:
/// anything but alphanumerics, `-`, `_` and `.` becomes `_`; empty becomes `_`.
pub open spec fn sanitized(s: Seq<char>) -> Seq<char> {
    if s.len() == 0 {
        seq!['_']
    } else {
        s.map_values(|c: char| if component_char(c) { c } else { '_' })
    }
}

/// A sanitized instance key is exactly one path component: never empty,
/// never `/`, as long as the key, and unchanged when it was already safe.
pub proof fn law_sanitized_is_one_component(s: Seq<char>)
    ensures
        sanitized(s).len() > 0,
        !sanitized(s).contains('/'),
        s.len() > 0 ==> sanitized(s).len() == s.len(),
        (s.len() > 0 && forall|i: int| 0 <= i < s.len() ==> component_char(#[trigger] s[i]))
            ==> sanitized(s) == s,
{
    if s.len() > 0 {
        assert forall|i: int| 0 <= i < sanitized(s).len() implies #[trigger] sanitized(s)[i] != '/' by {
            assert(sanitized(s)[i] == if component_char(s[i]) { s[i] } else { '_' });
        }
        if forall|i: int| 0 <= i < s.len() ==> component_char(#[trigger] s[i]) {
            assert(sanitized(s) =~= s);
        }
    } else {
        assert(sanitized(s)[0] == '_');
    }
}

pub fn sanitize_component(s: &str) -> (r: String)
    ensures
        r@ == sanitized(s@),
{
    let v = chars_of(s);
    if v.len() == 0 {
        let mut r = String::new();
        push_char(&mut r, '_');
        return r;
    }
    let mut out: Vec<char> = Vec::new();
    let mut i: usize = 0;
    while i < v.len()
        invariant
            v@ == s@,
            i <= v.len(),
            out@ == v@.take(i as int).map_values(|c: char| if component_char(c) { c } else { '_' }),
        decreases v.len() - i,
    {
        let c = v[i];
        out.push(if ascii_alnum(c) || c == '-' || c == '_' || c == '.' { c } else { '_' });
        assert(v@.take(i + 1) =~= v@.take(i as int).push(c));
        assert(out@ =~= v@.take(i + 1).map_values(
            |c: char| if component_char(c) { c } else { '_' },
        ));
        i += 1;
    }
    assert(v@.take(v.len() as int) =~= v@);
    string_of(&out)
}

/// The runtime subdirectory of a daemon relative to the per-user base:
/// `<name>` for a host-singleton daemon, `<name>/<sanitized target>` for a
/// per-target one.
pub open spec fn runtime_rel_spec(name: Seq<char>, instance: Option<Seq<char>>) -> Seq<char> {
    match instance {
        Some(i) => name + "/"@ + sanitized(i),
        None => name,
    }
}


pub fn runtime_rel(name: &str, instance: Option<&str>) -> (r: String)
    ensures
        r@ == runtime_rel_spec(name@, opt_view(instance)),
{
    match instance {
        Some(i) => cat3(name, "/", sanitize_component(i).as_str()),
        None => owned(name),
    }
}

/// Where a daemon's stderr is captured: `<base>/<rel>/daemon.log` under the
/// per-user runtime base `base`.
pub fn log_path(base: &str, name: &str, instance: Option<&str>) -> (r: String)
    ensures
        r@ == path_join(path_join(base@, runtime_rel_spec(name@, opt_view(instance))), "daemon.log"@),
{
    let dir = join_path(base, runtime_rel(name, instance).as_str());
    join_path(dir.as_str(), "daemon.log")
}

// ── hook commands ───────────────────────────────────────────────────────────

/// The part of `w` after its last `/` (all of it when there is none).
pub open spec fn basename(w: Seq<char>) -> Seq<char>
    decreases w.len(),
{
    if w.len() == 0 {
        w
    } else if w.last() == '/' {
        Seq::empty()
    } else {
        basename(w.drop_last()).push(w.last())
    }
}

/// The helper name of an opaque hook command: the basename of its first
/// word, if that is not empty.
pub open spec fn hook_helper(cmd: Seq<char>) -> Option<Seq<char>> {
    let ws = words(cmd);
    if ws.len() == 0 || basename(ws[0]).len() == 0 {
        None
    } else {
        Some(basename(ws[0]))
    }
}

fn basename_of(w: &str) -> (r: String)
    ensures
        r@ == basename(w@),
{
    let v = chars_of(w);
    let mut start: usize = 0;
    let mut i: usize = 0;
    while i < v.len()
        invariant
            v@ == w@,
            start <= i <= v.len(),
            basename(v@.take(i as int)) == v@.subrange(start as int, i as int),
        decreases v.len() - i,
    {
        assert(v@.take(i + 1).drop_last() =~= v@.take(i as int));
        if v[i] == '/' {
            start = i + 1;
            assert(v@.subrange(start as int, i + 1) =~= Seq::<char>::empty());
        } else {
            assert(v@.subrange(start as int, i + 1) =~= v@.subrange(start as int, i as int).push(v@[i as int]));
        }
        i += 1;
    }
    assert(v@.take(v.len() as int) =~= v@);
    let mut out: Vec<char> = Vec::new();
    let mut k = start;
    while k < v.len()
        invariant
            start <= k <= v.len(),
            out@ == v@.subrange(start as int, k as int),
        decreases v.len() - k,
    {
        out.push(v[k]);
        assert(v@.subrange(start as int, k + 1) =~= v@.subrange(start as int, k as int).push(v@[k as int]));
        k += 1;
    }
    string_of(&out)
}

/// The helper name for an opaque hook command: the basename of its first
/// shell token (`zigplug -d … on …` → `zigplug`).
pub fn hook_helper_name(cmd: &str) -> (r: Option<String>)
    ensures
        match hook_helper(cmd@) {
            Some(n) => r matches Some(x) && x@ == n,
            None => r is None,
        },
{
    let ws = split_words(cmd);
    if ws.len() == 0 {
        return None;
    }
    let b = basename_of(ws[0].as_str());
    if b.unicode_len() == 0 {
        None
    } else {
        Some(b)
    }
}

/// A shell variable assignment word, `NAME=value`.
pub open spec fn is_assignment(w: Seq<char>) -> bool {
    exists|k: int| 0 < k < w.len() && w[k] == '=' && env_name(#[trigger] w.subrange(0, k))
}

/// The first word that is not a leading `NAME=value` assignment.
pub open spec fn program_word(ws: Seq<Seq<char>>) -> Option<Seq<char>>
    decreases ws.len(),
{
    if ws.len() == 0 {
        None
    } else if is_assignment(ws[0]) {
        program_word(ws.drop_first())
    } else {
        Some(ws[0])
    }
}

fn assignment_word(w: &str) -> (r: bool)
    ensures
        r == is_assignment(w@),
{
    let v = chars_of(w);
    let mut k: usize = 0;
    while k < v.len() && v[k] != '='
        invariant
            v@ == w@,
            k <= v.len(),
            forall|j: int| 0 <= j < k ==> v@[j] != '=',
        decreases v.len() - k,
    {
        k += 1;
    }
    if k == 0 || k >= v.len() {
        proof {
            if is_assignment(w@) {
                let j = choose|j: int| 0 < j < w@.len() && w@[j] == '=' && env_name(#[trigger] w@.subrange(0, j));
                assert(env_name(w@.subrange(0, j)));
                if k == 0 {
                    assert(w@.subrange(0, j)[0] == '=');
                }
            }
        }
        return false;
    }
    let mut head: Vec<char> = Vec::new();
    let mut i: usize = 0;
    while i < k
        invariant
            i <= k < v.len(),
            head@ == v@.subrange(0, i as int),
        decreases k - i,
    {
        head.push(v[i]);
        assert(v@.subrange(0, i + 1) =~= v@.subrange(0, i as int).push(v@[i as int]));
        i += 1;
    }
    let hs = string_of(&head);
    let ok = is_env_name(hs.as_str());
    proof {
        if ok {
            assert(env_name(w@.subrange(0, k as int)));
        } else if is_assignment(w@) {
            let j = choose|j: int| 0 < j < w@.len() && w@[j] == '=' && env_name(#[trigger] w@.subrange(0, j));
            if j > k {
                assert(w@.subrange(0, j)[k as int] == '=');
            }
        }
    }
    ok
}

/// The program a hook command runs: its first word after any leading
/// `NAME=value` credential assignments.
pub fn first_program_token(cmd: &str) -> (r: Option<String>)
    ensures
        match program_word(words(cmd@)) {
            Some(w) => r matches Some(x) && x@ == w,
            None => r is None,
        },
{
    let ws = split_words(cmd);
    let ghost wv = views(ws@);
    let mut i: usize = 0;
    proof {
        assert(wv.skip(0) =~= wv);
    }
    while i < ws.len()
        invariant
            i <= ws.len(),
            wv == views(ws@),
            wv == words(cmd@),
            program_word(wv) == program_word(wv.skip(i as int)),
        decreases ws.len() - i,
    {
        assert(wv.skip(i as int)[0] == ws@[i as int]@);
        assert(wv.skip(i as int).drop_first() =~= wv.skip(i + 1));
        if !assignment_word(ws[i].as_str()) {
            return Some(ws[i].clone());
        }
        i += 1;
    }
    None
}

// ── start failures ──────────────────────────────────────────────────────────

/// The last (at most) five lines of `log`.
pub open spec fn log_tail(log: Seq<char>) -> Seq<Seq<char>> {
    let ls = lines(log);
    if ls.len() > 5 {
        ls.skip(ls.len() - 5)
    } else {
        ls
    }
}

/// The message for a daemon that did not publish discovery in time, with
/// the tail of its stderr log.
pub open spec fn start_failure_text(name: Seq<char>, secs: nat, log: Seq<char>) -> Seq<char> {
    let tail = log_tail(log);
    if tail.len() == 0 {
        name + " daemon did not start within "@ + decimal(secs) + " s (no stderr captured)"@
    } else {
        name + " daemon did not start within "@ + decimal(secs) + " s; last stderr:\n  "@ + join(
            tail,
            "\n  "@,
        )
    }
}

/// The error text for daemon `name` that did not start within `secs`
/// seconds, given what its stderr log holds.
pub fn start_failure(name: &str, secs: u64, log: &str) -> (r: String)
    ensures
        r@ == start_failure_text(name@, secs as nat, log@),
{
    let ls = split_lines(log);
    let ghost lv = views(ls@);
    let from: usize = if ls.len() > 5 { ls.len() - 5 } else { 0 };
    let mut tail: Vec<String> = Vec::new();
    let mut i = from;
    while i < ls.len()
        invariant
            from <= i <= ls.len(),
            lv == views(ls@),
            views(tail@) == lv.subrange(from as int, i as int),
        decreases ls.len() - i,
    {
        push_line(&mut tail, ls[i].clone());
        assert(lv.subrange(from as int, i + 1) =~= lv.subrange(from as int, i as int).push(lv[i as int]));
        i += 1;
    }
    assert(views(tail@) =~= log_tail(log@));
    let mut m = cat(name, " daemon did not start within ");
    push_decimal(&mut m, secs);
    if tail.len() == 0 {
        push_str(&mut m, " s (no stderr captured)");
    } else {
        push_str(&mut m, " s; last stderr:\n  ");
        push_str(&mut m, join_strings(&tail, "\n  ").as_str());
    }
    m
}

// ── binary staleness ────────────────────────────────────────────────────────

/// Identity of the binary a daemon was spawned from.
pub struct BinMeta {
    /// Helper basename, to re-resolve the current install.
    pub bin: String,
    /// Absolute path the daemon was launched from.
    pub path: String,
    /// Modification time, nanoseconds since the Unix epoch.
    pub mtime_ns: u128,
    /// Size in bytes.
    pub size: u64,
}

/// Whether the binary now at `current` (whose `(mtime_ns, size)` is `now`,
/// `None` when it cannot be read) differs from what `meta` recorded.
pub fn meta_differs(meta: &BinMeta, current: &str, now: Option<(u128, u64)>) -> (r: bool)
    ensures
        r == match now {
            Some((m, s)) => current@ != meta.path@ || m != meta.mtime_ns || s != meta.size,
            None => true,
        },
{
    match now {
        Some((m, s)) => !crate::text::same(current, meta.path.as_str()) || m != meta.mtime_ns || s
            != meta.size,
        None => true,
    }
}

/// One live daemon found through its discovery file.
pub struct DaemonInfo {
    /// Discovery directory name (serialcap, hdmicap, hid, zigplug, ...).
    pub name: String,
    /// Target name of a per-target daemon; `None` for a host-singleton.
    pub instance: Option<String>,
    pub pid: i32,
    pub port: Option<u16>,
    /// Daemon-specific detail (e.g. zigplug's serial device), if published.
    pub detail: String,
    /// Whether the binary changed on disk since the daemon started, if known.
    pub stale: Option<bool>,
}

/// `a` is listed before `b`: by name, then by instance (a host-singleton
/// before any per-target instance).
pub open spec fn listed_before(a: DaemonInfo, b: DaemonInfo) -> bool {
    crate::text::lt(a.name@, b.name@) || (a.name@ == b.name@ && match (a.instance, b.instance) {
        (None, Some(_)) => true,
        (Some(x), Some(y)) => crate::text::lt(x@, y@),
        _ => false,
    })
}

/// Whether `a` sorts strictly before `b` in the daemon listing.
pub fn daemon_before(a: &DaemonInfo, b: &DaemonInfo) -> (r: bool)
    ensures
        r == listed_before(*a, *b),
{
    if crate::text::less(a.name.as_str(), b.name.as_str()) {
        return true;
    }
    if !crate::text::same(a.name.as_str(), b.name.as_str()) {
        return false;
    }
    match (&a.instance, &b.instance) {
        (None, Some(_)) => true,
        (Some(x), Some(y)) => crate::text::less(x.as_str(), y.as_str()),
        _ => false,
    }
}

// ── stray helpers ───────────────────────────────────────────────────────────

/// The first position of `c` in `s`.
pub open spec fn index_of(s: Seq<char>, c: char) -> Option<int>
    decreases s.len(),
{
    if s.len() == 0 {
        None
    } else if s[0] == c {
        Some(0)
    } else {
        match index_of(s.drop_first(), c) {
            Some(i) => Some(i + 1),
            None => None,
        }
    }
}

/// `str::split_once(' ')`.
pub open spec fn split_once_space(s: Seq<char>) -> Option<(Seq<char>, Seq<char>)> {
    match index_of(s, ' ') {
        Some(k) => Some((s.subrange(0, k), s.subrange(k + 1, s.len() as int))),
        None => None,
    }
}

/// One row of `ps -axo pid=,ppid=,args=`: the pid, the parent pid and the
/// command line, each column taken up to the next run of blanks.
pub open spec fn ps_row(line: Seq<char>) -> Option<(int, int, Seq<char>)> {
    match split_once_space(trim_start(line)) {
        None => None,
        Some((pid, rest)) => match split_once_space(trim_start(rest)) {
            None => None,
            Some((ppid, rest2)) => match (i32_parse(pid), i32_parse(ppid)) {
                (Some(p), Some(q)) => Some((p, q, trim(rest2))),
                _ => None,
            },
        },
    }
}

pub proof fn lemma_index_of(s: Seq<char>, c: char)
    ensures
        match index_of(s, c) {
            Some(k) => 0 <= k < s.len() && s[k] == c && forall|j: int| 0 <= j < k ==> s[j] != c,
            None => forall|j: int| 0 <= j < s.len() ==> s[j] != c,
        },
    decreases s.len(),
{
    if s.len() > 0 && s[0] != c {
        lemma_index_of(s.drop_first(), c);
        match index_of(s.drop_first(), c) {
            Some(k) => {
                assert forall|j: int| 0 <= j < k + 1 implies s[j] != c by {
                    if j > 0 {
                        assert(s[j] == s.drop_first()[j - 1]);
                    }
                }
            },
            None => {
                assert forall|j: int| 0 <= j < s.len() implies s[j] != c by {
                    if j > 0 {
                        assert(s[j] == s.drop_first()[j - 1]);
                    }
                }
            },
        }
    }
}

fn split_space(v: &Vec<char>, from: usize) -> (r: Option<usize>)
    requires
        from <= v.len(),
    ensures
        match index_of(v@.subrange(from as int, v.len() as int), ' ') {
            Some(k) => r == Some((from + k) as usize) && 0 <= k && from + k < v.len(),
            None => r is None,
        },
{
    proof {
        lemma_index_of(v@.subrange(from as int, v.len() as int), ' ');
    }
    let mut i = from;
    while i < v.len()
        invariant
            from <= i <= v.len(),
            index_of(v@.subrange(from as int, v.len() as int), ' ') == match index_of(
                v@.subrange(i as int, v.len() as int),
                ' ',
            ) {
                Some(k) => Some(k + (i - from)),
                None => None,
            },
        decreases v.len() - i,
    {
        assert(v@.subrange(i as int, v.len() as int)[0] == v@[i as int]);
        if v[i] == ' ' {
            return Some(i);
        }
        assert(v@.subrange(i as int, v.len() as int).drop_first() =~= v@.subrange(i + 1, v.len() as int));
        i += 1;
    }
    None
}

fn skip_blank(v: &Vec<char>, from: usize) -> (r: usize)
    requires
        from <= v.len(),
    ensures
        from <= r <= v.len(),
        trim_start(v@.subrange(from as int, v.len() as int)) == v@.subrange(r as int, v.len() as int),
{
    let mut i = from;
    while i < v.len() && crate::text::space(v[i])
        invariant
            from <= i <= v.len(),
            trim_start(v@.subrange(from as int, v.len() as int)) == trim_start(
                v@.subrange(i as int, v.len() as int),
            ),
        decreases v.len() - i,
    {
        assert(v@.subrange(i as int, v.len() as int).drop_first() =~= v@.subrange(i + 1, v.len() as int));
        i += 1;
    }
    i
}

fn slice_of(v: &Vec<char>, a: usize, b: usize) -> (r: String)
    requires
        a <= b <= v.len(),
    ensures
        r@ == v@.subrange(a as int, b as int),
{
    let mut out: Vec<char> = Vec::new();
    let mut i = a;
    while i < b
        invariant
            a <= i <= b <= v.len(),
            out@ == v@.subrange(a as int, i as int),
        decreases b - i,
    {
        out.push(v[i]);
        assert(v@.subrange(a as int, i + 1) =~= v@.subrange(a as int, i as int).push(v@[i as int]));
        i += 1;
    }
    string_of(&out)
}

/// Parse one row of a `ps -axo pid=,ppid=,args=` listing.
pub fn parse_ps_row(line: &str) -> (r: Option<(i32, i32, String)>)
    ensures
        match ps_row(line@) {
            Some((p, q, a)) => r matches Some((x, y, z)) && x == p && y == q && z@ == a,
            None => r is None,
        },
{
    let v = chars_of(line);
    let a = skip_blank(&v, 0);
    assert(v@.subrange(0, v.len() as int) =~= line@);
    let ghost t1 = v@.subrange(a as int, v.len() as int);
    let k1 = match split_space(&v, a) {
        Some(k) => k,
        None => return None,
    };
    let pid = slice_of(&v, a, k1);
    assert(t1.subrange(0, k1 - a) =~= v@.subrange(a as int, k1 as int));
    assert(t1.subrange(k1 - a + 1, t1.len() as int) =~= v@.subrange(k1 + 1, v.len() as int));
    let b = skip_blank(&v, k1 + 1);
    let ghost t2 = v@.subrange(b as int, v.len() as int);
    let k2 = match split_space(&v, b) {
        Some(k) => k,
        None => return None,
    };
    let ppid = slice_of(&v, b, k2);
    assert(t2.subrange(0, k2 - b) =~= v@.subrange(b as int, k2 as int));
    assert(t2.subrange(k2 - b + 1, t2.len() as int) =~= v@.subrange(k2 + 1, v.len() as int));
    let rest = slice_of(&v, k2 + 1, v.len());
    let p = match parse_i32(pid.as_str()) {
        Some(p) => p,
        None => return None,
    };
    let q = match parse_i32(ppid.as_str()) {
        Some(q) => q,
        None => return None,
    };
    Some((p, q, trimmed(rest.as_str())))
}

/// The directory part of a program path: up to its last `/` (`/` itself
/// for a file at the root); none for a bare name.
pub open spec fn parent_dir(p: Seq<char>) -> Option<Seq<char>>
    decreases p.len(),
{
    if p.len() == 0 {
        None
    } else if p.last() == '/' {
        if p.len() == 1 {
            Some(p)
        } else {
            Some(p.drop_last())
        }
    } else {
        parent_dir(p.drop_last())
    }
}

/// The command line's program (its first word) sits directly in one of
/// `dirs`; its arguments are not consulted.
pub open spec fn launched_from_spec(args: Seq<char>, dirs: Seq<Seq<char>>) -> bool {
    let ws = words(args);
    ws.len() > 0 && match parent_dir(ws[0]) {
        Some(d) => dirs.contains(d),
        None => false,
    }
}

pub fn parent_of(p: &str) -> (r: Option<String>)
    ensures
        match parent_dir(p@) {
            Some(d) => r matches Some(x) && x@ == d,
            None => r is None,
        },
{
    let v = chars_of(p);
    let mut i = v.len();
    assert(v@.take(v.len() as int) =~= v@);
    while i > 0 && v[i - 1] != '/'
        invariant
            i <= v.len(),
            v@ == p@,
            parent_dir(p@) == parent_dir(v@.take(i as int)),
        decreases i,
    {
        assert(v@.take(i as int).drop_last() =~= v@.take(i - 1));
        i -= 1;
    }
    if i == 0 {
        assert(v@.take(0) =~= Seq::<char>::empty());
        return None;
    }
    assert(v@.take(i as int).last() == v@[i - 1]);
    if i == 1 {
        Some(slice_of(&v, 0, 1))
    } else {
        assert(v@.take(i as int).drop_last() =~= v@.subrange(0, i - 1));
        Some(slice_of(&v, 0, i - 1))
    }
}

fn contains_str(dirs: &Vec<String>, d: &str) -> (r: bool)
    ensures
        r == views(dirs@).contains(d@),
{
    let mut i: usize = 0;
    while i < dirs.len()
        invariant
            i <= dirs.len(),
            forall|j: int| 0 <= j < i ==> dirs@[j]@ != d@,
        decreases dirs.len() - i,
    {
        if crate::text::same(dirs[i].as_str(), d) {
            assert(views(dirs@)[i as int] == d@);
            return true;
        }
        i += 1;
    }
    proof {
        if views(dirs@).contains(d@) {
            let j = choose|j: int| 0 <= j < views(dirs@).len() && views(dirs@)[j] == d@;
            assert(dirs@[j]@ == d@);
        }
    }
    false
}

/// Whether the program of command line `args` sits directly in one of
/// `dirs`.
pub fn launched_from(args: &str, dirs: &Vec<String>) -> (r: bool)
    ensures
        r == launched_from_spec(args@, views(dirs@)),
{
    let ws = split_words(args);
    if ws.len() == 0 {
        return false;
    }
    match parent_of(ws[0].as_str()) {
        Some(d) => contains_str(dirs, d.as_str()),
        None => false,
    }
}

/// `p` is excluded within `k` steps: one of `ex`, or the child (by a row of
/// `rows`) of a pid excluded within `k - 1` steps.
pub open spec fn excluded_within(rows: Seq<(i32, i32, String)>, ex: Seq<i32>, p: i32, k: nat) -> bool
    decreases k,
{
    if k == 0 {
        ex.contains(p)
    } else {
        excluded_within(rows, ex, p, (k - 1) as nat) || exists|j: int|
            0 <= j < rows.len() && (#[trigger] rows[j]).0 == p && excluded_within(
                rows,
                ex,
                rows[j].1,
                (k - 1) as nat,
            )
    }
}

/// `p` is one of `ex` or descends from one through the parent links of `rows`.
pub open spec fn excluded(rows: Seq<(i32, i32, String)>, ex: Seq<i32>, p: i32) -> bool {
    exists|k: nat| excluded_within(rows, ex, p, k)
}

/// What a row contributes to the stray list.
pub open spec fn stray_of(
    rows: Seq<(i32, i32, String)>,
    dirs: Seq<Seq<char>>,
    me: i32,
    ex: Seq<i32>,
) -> spec_fn((i32, i32, String)) -> Option<(i32, Seq<char>)> {
    |r: (i32, i32, String)|
        if r.0 != me && !excluded(rows, ex, r.0) && launched_from_spec(r.2@, dirs) {
            Some((r.0, r.2@))
        } else {
            None
        }
}

/// The stray helpers of a listing: rows not ours, not excluded, launched
/// from a helper directory, as `(pid, command line)` in listing order.
pub open spec fn strays(
    rows: Seq<(i32, i32, String)>,
    dirs: Seq<Seq<char>>,
    me: i32,
    ex: Seq<i32>,
) -> Seq<(i32, Seq<char>)> {
    rows.filter_map(stray_of(rows, dirs, me, ex))
}

pub open spec fn ps_rows(ps: Seq<char>) -> Seq<(int, int, Seq<char>)> {
    lines(ps).filter_map(|l: Seq<char>| ps_row(l))
}

pub open spec fn row_views(rows: Seq<(i32, i32, String)>) -> Seq<(int, int, Seq<char>)> {
    rows.map_values(|r: (i32, i32, String)| (r.0 as int, r.1 as int, r.2@))
}

fn vec_has(v: &Vec<i32>, x: i32) -> (r: bool)
    ensures
        r == v@.contains(x),
{
    let mut i: usize = 0;
    while i < v.len()
        invariant
            i <= v.len(),
            forall|j: int| 0 <= j < i ==> v@[j] != x,
        decreases v.len() - i,
    {
        if v[i] == x {
            return true;
        }
        i += 1;
    }
    false
}

proof fn lemma_within_mono(rows: Seq<(i32, i32, String)>, ex: Seq<i32>, p: i32, k: nat, m: nat)
    requires
        k <= m,
        excluded_within(rows, ex, p, k),
    ensures
        excluded_within(rows, ex, p, m),
    decreases m,
{
    if k < m {
        lemma_within_mono(rows, ex, p, k, (m - 1) as nat);
    }
}

proof fn lemma_closed_complete(
    rows: Seq<(i32, i32, String)>,
    ex: Seq<i32>,
    set: Seq<i32>,
    p: i32,
    k: nat,
)
    requires
        forall|x: i32| ex.contains(x) ==> set.contains(x),
        forall|j: int| 0 <= j < rows.len() && set.contains((#[trigger] rows[j]).1) ==> set.contains(
            rows[j].0,
        ),
        excluded_within(rows, ex, p, k),
    ensures
        set.contains(p),
    decreases k,
{
    if k > 0 {
        if !excluded_within(rows, ex, p, (k - 1) as nat) {
            let j = choose|j: int|
                0 <= j < rows.len() && (#[trigger] rows[j]).0 == p && excluded_within(
                    rows,
                    ex,
                    rows[j].1,
                    (k - 1) as nat,
                );
            lemma_closed_complete(rows, ex, set, rows[j].1, (k - 1) as nat);
        } else {
            lemma_closed_complete(rows, ex, set, p, (k - 1) as nat);
        }
    }
}

/// How many of the first `n` rows have their pid in `set`.
pub open spec fn covered(rows: Seq<(i32, i32, String)>, set: Seq<i32>, n: int) -> nat
    decreases n,
{
    if n <= 0 {
        0
    } else {
        covered(rows, set, n - 1) + if set.contains(rows[n - 1].0) {
            1nat
        } else {
            0nat
        }
    }
}

proof fn lemma_covered_bound(rows: Seq<(i32, i32, String)>, set: Seq<i32>, n: int)
    requires
        0 <= n,
    ensures
        covered(rows, set, n) <= n,
    decreases n,
{
    if n > 0 {
        lemma_covered_bound(rows, set, n - 1);
    }
}

proof fn lemma_covered_grows(
    rows: Seq<(i32, i32, String)>,
    s1: Seq<i32>,
    s2: Seq<i32>,
    n: int,
    j: int,
)
    requires
        forall|x: i32| s1.contains(x) ==> s2.contains(x),
    ensures
        covered(rows, s1, n) <= covered(rows, s2, n),
        0 <= j < n && !s1.contains(rows[j].0) && s2.contains(rows[j].0) ==> covered(rows, s1, n)
            < covered(rows, s2, n),
    decreases n,
{
    if n > 0 {
        lemma_covered_grows(rows, s1, s2, n - 1, j);
    }
}

/// The pids of `ex` and all their descendants through `rows`.
fn exclusion_closure(rows: &Vec<(i32, i32, String)>, ex: &[i32]) -> (r: Vec<i32>)
    ensures
        forall|p: i32| r@.contains(p) <==> excluded(rows@, ex@, p),
{
    let mut set: Vec<i32> = Vec::new();
    let mut i: usize = 0;
    while i < ex.len()
        invariant
            i <= ex.len(),
            set@ == ex@.take(i as int),
        decreases ex.len() - i,
    {
        set.push(ex[i]);
        assert(set@ =~= ex@.take(i + 1));
        i += 1;
    }
    assert(ex@.take(ex.len() as int) =~= ex@);
    proof {
        assert forall|x: i32| set@.contains(x) implies excluded(rows@, ex@, x) by {
            assert(excluded_within(rows@, ex@, x, 0));
        }
    }
    loop
        invariant
            forall|x: i32| ex@.contains(x) ==> set@.contains(x),
            forall|x: i32| set@.contains(x) ==> excluded(rows@, ex@, x),
        decreases rows@.len() - covered(rows@, set@, rows@.len() as int),
    {
        let mut grew = false;
        let mut j: usize = 0;
        let ghost start = set@;
        proof {
            lemma_covered_bound(rows@, set@, rows@.len() as int);
        }
        while j < rows.len()
            invariant
                j <= rows.len(),
                forall|x: i32| ex@.contains(x) ==> set@.contains(x),
                forall|x: i32| set@.contains(x) ==> excluded(rows@, ex@, x),
                forall|x: i32| start.contains(x) ==> set@.contains(x),
                grew ==> covered(rows@, start, rows@.len() as int) < covered(
                    rows@,
                    set@,
                    rows@.len() as int,
                ),
                !grew ==> set@ == start,
                !grew ==> forall|k: int|
                    0 <= k < j && start.contains(#[trigger] rows@[k].1) ==> start.contains(
                        rows@[k].0,
                    ),
            decreases rows.len() - j,
        {
            let pid = rows[j].0;
            let ppid = rows[j].1;
            if vec_has(&set, ppid) && !vec_has(&set, pid) {
                let ghost before = set@;
                set.push(pid);
                proof {
                    let kk = choose|kk: nat| excluded_within(rows@, ex@, ppid, kk);
                    assert(excluded_within(rows@, ex@, pid, kk + 1));
                    assert forall|x: i32| before.contains(x) implies set@.contains(x) by {
                        let m = choose|m: int| 0 <= m < before.len() && before[m] == x;
                        assert(set@[m] == x);
                    }
                    assert forall|x: i32| set@.contains(x) implies excluded(rows@, ex@, x) by {
                        if x != pid {
                            let m = choose|m: int| 0 <= m < set@.len() && set@[m] == x;
                            assert(before[m] == x);
                            assert(before.contains(x));
                        }
                    }
                    assert(set@[set@.len() - 1] == pid);
                    lemma_covered_grows(rows@, before, set@, rows@.len() as int, j as int);
                    lemma_covered_grows(rows@, start, before, rows@.len() as int, j as int);
                }
                grew = true;
            }
            j += 1;
        }
        if !grew {
            proof {
                assert forall|p: i32| excluded(rows@, ex@, p) implies set@.contains(p) by {
                    let k = choose|k: nat| excluded_within(rows@, ex@, p, k);
                    lemma_closed_complete(rows@, ex@, set@, p, k);
                }
            }
            return set;
        }
        proof {
            lemma_covered_bound(rows@, set@, rows@.len() as int);
        }
    }
}

/// The stray helper processes of a `ps -axo pid=,ppid=,args=` listing: those
/// launched from one of `dirs` that are neither `me` nor in `ex` nor
/// descended from one of `ex`, as `(pid, command line)`.
pub fn strays_in_ps(ps: &str, dirs: &Vec<String>, me: i32, ex: &[i32]) -> (r: Vec<(i32, String)>)
    ensures
        exists|rows: Seq<(i32, i32, String)>|
            row_views(rows) == ps_rows(ps@) && r@.map_values(|p: (i32, String)| (p.0, p.1@))
                == strays(rows, views(dirs@), me, ex@),
{
    let ls = split_lines(ps);
    let ghost lv = views(ls@);
    let mut rows: Vec<(i32, i32, String)> = Vec::new();
    let mut i: usize = 0;
    while i < ls.len()
        invariant
            i <= ls.len(),
            lv == views(ls@),
            lv == lines(ps@),
            row_views(rows@) == lv.take(i as int).filter_map(|l: Seq<char>| ps_row(l)),
        decreases ls.len() - i,
    {
        assert(lv.take(i + 1).drop_last() =~= lv.take(i as int));
        match parse_ps_row(ls[i].as_str()) {
            Some(row) => {
                let ghost before = rows@;
                rows.push(row);
                assert(row_views(rows@) =~= row_views(before) + seq![
                    (rows@.last().0 as int, rows@.last().1 as int, rows@.last().2@),
                ]);
            },
            None => {},
        }
        i += 1;
    }
    assert(lv.take(lv.len() as int) =~= lv);
    let set = exclusion_closure(&rows, ex);
    let mut out: Vec<(i32, String)> = Vec::new();
    let mut k: usize = 0;
    while k < rows.len()
        invariant
            k <= rows.len(),
            forall|p: i32| set@.contains(p) <==> excluded(rows@, ex@, p),
            out@.map_values(|p: (i32, String)| (p.0, p.1@)) == rows@.take(k as int).filter_map(
                stray_of(rows@, views(dirs@), me, ex@),
            ),
        decreases rows.len() - k,
    {
        assert(rows@.take(k + 1).drop_last() =~= rows@.take(k as int));
        let pid = rows[k].0;
        if pid != me && !vec_has(&set, pid) && launched_from(rows[k].2.as_str(), dirs) {
            let ghost before = out@;
            out.push((pid, rows[k].2.clone()));
            assert(out@.map_values(|p: (i32, String)| (p.0, p.1@)) =~= before.map_values(
                |p: (i32, String)| (p.0, p.1@),
            ) + seq![(pid, rows@[k as int].2@)]);
        }
        k += 1;
    }
    assert(rows@.take(rows.len() as int) =~= rows@);
    assert(row_views(rows@) == ps_rows(ps@));
    out
}

// ── query strings ─────────────────────────────────────────────────────────

/// The UTF-8 encoding of a character.
pub open spec fn utf8_of(c: char) -> Seq<u8> {
    let u = c as u32;
    if u < 0x80 {
        seq![u as u8]
    } else if u < 0x800 {
        seq![(0xC0 + u / 64) as u8, (0x80 + u % 64) as u8]
    } else if u < 0x10000 {
        seq![(0xE0 + u / 4096) as u8, (0x80 + (u / 64) % 64) as u8, (0x80 + u % 64) as u8]
    } else {
        seq![
            (0xF0 + u / 262144) as u8,
            (0x80 + (u / 4096) % 64) as u8,
            (0x80 + (u / 64) % 64) as u8,
            (0x80 + u % 64) as u8,
        ]
    }
}

/// A character left as is in a query component (RFC 3986 unreserved).
pub open spec fn unreserved(c: char) -> bool {
    is_ascii_alnum(c) || c == '-' || c == '.' || c == '_' || c == '~'
}

pub open spec fn hex_upper(d: nat) -> char {
    if d < 10 {
        (48 + d) as char
    } else {
        (55 + d) as char
    }
}

/// `%XX` for each byte.
pub open spec fn percent_bytes(b: Seq<u8>) -> Seq<char>
    decreases b.len(),
{
    if b.len() == 0 {
        Seq::empty()
    } else {
        seq!['%', hex_upper((b[0] / 16) as nat), hex_upper((b[0] % 16) as nat)] + percent_bytes(
            b.drop_first(),
        )
    }
}

pub open spec fn escape_char(c: char) -> Seq<char> {
    if unreserved(c) {
        seq![c]
    } else {
        percent_bytes(utf8_of(c))
    }
}

/// `s` percent-encoded for a query string: unreserved characters kept,
/// every other character as the `%XX` of each of its UTF-8 bytes.
pub open spec fn escaped(s: Seq<char>) -> Seq<char> {
    crate::text::concat_map(s, |c: char| escape_char(c))
}

fn hex_digit_upper(d: u8) -> (r: char)
    requires
        d < 16,
    ensures
        r == hex_upper(d as nat),
{
    if d < 10 {
        (48u8 + d) as char
    } else {
        (55u8 + d) as char
    }
}

fn push_percent(out: &mut String, b: u8)
    ensures
        final(out)@ == old(out)@ + seq!['%', hex_upper((b / 16) as nat), hex_upper((b % 16) as nat)],
{
    push_char(out, '%');
    push_char(out, hex_digit_upper(b / 16));
    push_char(out, hex_digit_upper(b % 16));
    assert(out@ =~= old(out)@ + seq!['%', hex_upper((b / 16) as nat), hex_upper((b % 16) as nat)]);
}

fn utf8_bytes(c: char) -> (r: Vec<u8>)
    ensures
        r@ == utf8_of(c),
{
    let u = c as u32;
    let mut v: Vec<u8> = Vec::new();
    if u < 0x80 {
        v.push(u as u8);
    } else if u < 0x800 {
        v.push((0xC0 + u / 64) as u8);
        v.push((0x80 + u % 64) as u8);
    } else if u < 0x10000 {
        v.push((0xE0 + u / 4096) as u8);
        v.push((0x80 + (u / 64) % 64) as u8);
        v.push((0x80 + u % 64) as u8);
    } else {
        v.push((0xF0 + u / 262144) as u8);
        v.push((0x80 + (u / 4096) % 64) as u8);
        v.push((0x80 + (u / 64) % 64) as u8);
        v.push((0x80 + u % 64) as u8);
    }
    assert(v@ =~= utf8_of(c));
    v
}

/// Percent-encode `s` for use as one query-string value, so a name holding
/// `&`, `=` or a space cannot reshape the query it is spliced into.
pub fn query_escape(s: &str) -> (r: String)
    ensures
        r@ == escaped(s@),
{
    let v = chars_of(s);
    let mut out = String::new();
    let mut i: usize = 0;
    while i < v.len()
        invariant
            v@ == s@,
            i <= v.len(),
            out@ == crate::text::concat_map(v@.take(i as int), |c: char| escape_char(c)),
        decreases v.len() - i,
    {
        proof {
            crate::text::lemma_concat_map_step(v@, i as int, |c: char| escape_char(c));
        }
        let c = v[i];
        if ascii_alnum(c) || c == '-' || c == '.' || c == '_' || c == '~' {
            push_char(&mut out, c);
        } else {
            let b = utf8_bytes(c);
            let ghost start = out@;
            let mut k: usize = 0;
            assert(b@.skip(0) =~= b@);
            while k < b.len()
                invariant
                    k <= b.len(),
                    out@ + percent_bytes(b@.skip(k as int)) == start + percent_bytes(b@),
                decreases b.len() - k,
            {
                let ghost before = out@;
                assert(b@.skip(k as int).drop_first() =~= b@.skip(k + 1));
                push_percent(&mut out, b[k]);
                assert(out@ + percent_bytes(b@.skip(k + 1)) =~= before + percent_bytes(b@.skip(k as int)));
                k += 1;
            }
            assert(b@.skip(0) =~= b@);
            assert(b@.skip(b.len() as int) =~= Seq::<u8>::empty());
            assert(out@ + Seq::<char>::empty() =~= out@);
        }
        i += 1;
    }
    assert(v@.take(v.len() as int) =~= v@);
    out
}

// ── endpoints ───────────────────────────────────────────────────────────────

/// A running daemon's HTTP endpoint: the loopback port and the bearer token
/// every request must carry (`None` for a daemon older than the token).
#[derive(Debug, Clone, PartialEq, Eq)]
pub struct Endpoint {
    pub pid: i32,
    pub port: u16,
    pub token: Option<String>,
}

/// What a `daemon.json` body holds under `pid`, `port` and `token`, if it is
/// JSON at all: each as the integer or string found there, `None` where the
/// key is absent or of another kind.
pub uninterp spec fn discovery_json(text: Seq<char>) -> Option<(Option<i64>, Option<u64>, Option<Seq<char>>)>;

/// `serde_json::from_str::<serde_json::Value>`, then `pid` read with
/// `as_i64`, `port` with `as_u64` and `token` with `as_str`. Trusted: its
/// result is the name `discovery_json` of the text, nothing more.
#[verifier::external_body]
fn read_discovery_json(text: &str) -> (r: Option<(Option<i64>, Option<u64>, Option<String>)>)
    ensures
        discovery_json(text@) == match r {
            Some((p, q, t)) => Some((p, q, match t {
                Some(s) => Some(s@),
                None => None,
            })),
            None => None,
        },
{
    let v: serde_json::Value = serde_json::from_str(text).ok()?;
    Some((
        v.get("pid").and_then(serde_json::Value::as_i64),
        v.get("port").and_then(serde_json::Value::as_u64),
        v.get("token").and_then(serde_json::Value::as_str).map(String::from),
    ))
}

/// The endpoint a discovery file's fields describe: a pid that fits `i32`
/// and a port that fits `u16` are required; an empty token counts as none.
pub open spec fn endpoint_of(
    fields: Option<(Option<i64>, Option<u64>, Option<Seq<char>>)>,
) -> Option<(i32, u16, Option<Seq<char>>)> {
    match fields {
        Some((Some(pid), Some(port), token)) => if i32::MIN <= pid <= i32::MAX && port
            <= u16::MAX {
            Some(
                (
                    pid as i32,
                    port as u16,
                    match token {
                        Some(t) => if t.len() > 0 {
                            Some(t)
                        } else {
                            None
                        },
                        None => None,
                    },
                ),
            )
        } else {
            None
        },
        _ => None,
    }
}

pub open spec fn endpoint_view(e: Endpoint) -> (i32, u16, Option<Seq<char>>) {
    (
        e.pid,
        e.port,
        match e.token {
            Some(t) => Some(t@),
            None => None,
        },
    )
}

impl Endpoint {
    /// The endpoint described by the `pid`, `port` and `token` values read
    /// from a discovery file.
    pub fn from_fields(pid: Option<i64>, port: Option<u64>, token: Option<String>) -> (r: Option<
        Endpoint,
    >)
        ensures
            match endpoint_of(
                Some(
                    (
                        pid,
                        port,
                        match token {
                            Some(t) => Some(t@),
                            None => None,
                        },
                    ),
                ),
            ) {
                Some(e) => r matches Some(x) && endpoint_view(x) == e,
                None => r is None,
            },
    {
        let pid = match pid {
            Some(p) => p,
            None => return None,
        };
        let port = match port {
            Some(p) => p,
            None => return None,
        };
        if pid < -2147483648i64 || pid > 2147483647i64 || port > 65535u64 {
            return None;
        }
        let token = match token {
            Some(t) => if t.unicode_len() > 0 {
                Some(t)
            } else {
                None
            },
            None => None,
        };
        Some(Endpoint { pid: pid as i32, port: port as u16, token })
    }

    /// Parse a `daemon.json` body. `None` without a pid and a port.
    pub fn from_json(text: &str) -> (r: Option<Endpoint>)
        ensures
            match endpoint_of(discovery_json(text@)) {
                Some(e) => r matches Some(x) && endpoint_view(x) == e,
                None => r is None,
            },
    {
        match read_discovery_json(text) {
            Some((pid, port, token)) => Endpoint::from_fields(pid, port, token),
            None => None,
        }
    }

    pub open spec fn base_url_spec(&self) -> Seq<char> {
        "http://127.0.0.1:"@ + decimal(self.port as nat)
    }

    /// `http://127.0.0.1:<port>` — the base for API calls.
    pub fn base_url(&self) -> (r: String)
        ensures
            r@ == self.base_url_spec(),
    {
        let mut u = owned("http://127.0.0.1:");
        push_decimal(&mut u, self.port as u64);
        u
    }

    /// The value of the `Authorization` header requests carry, if any.
    pub fn authorization(&self) -> (r: Option<String>)
        ensures
            match self.token {
                Some(t) => r matches Some(x) && x@ == "Bearer "@ + t@,
                None => r is None,
            },
    {
        match &self.token {
            Some(t) => Some(cat("Bearer ", t.as_str())),
            None => None,
        }
    }

    pub open spec fn url_with_token_spec(&self, scheme: Seq<char>, path: Seq<char>) -> Seq<char> {
        scheme + "://127.0.0.1:"@ + decimal(self.port as nat) + path + match self.token {
            Some(t) => (if path.contains('?') {
                seq!['&']
            } else {
                seq!['?']
            }) + "token="@ + t@,
            None => Seq::empty(),
        }
    }

    fn url_with_token(&self, scheme: &str, path: &str) -> (r: String)
        ensures
            r@ == self.url_with_token_spec(scheme@, path@),
    {
        let mut url = cat(scheme, "://127.0.0.1:");
        push_decimal(&mut url, self.port as u64);
        push_str(&mut url, path);
        if let Some(t) = &self.token {
            let v = chars_of(path);
            let mut q = false;
            let mut i: usize = 0;
            while i < v.len()
                invariant
                    v@ == path@,
                    i <= v.len(),
                    q == v@.take(i as int).contains('?'),
                decreases v.len() - i,
            {
                assert(v@.take(i + 1) =~= v@.take(i as int).push(v@[i as int]));
                if v[i] == '?' {
                    q = true;
                    assert(v@.take(i + 1)[i as int] == '?');
                }
                i += 1;
            }
            assert(v@.take(v.len() as int) =~= v@);
            push_char(&mut url, if q { '&' } else { '?' });
            push_str(&mut url, "token=");
            push_str(&mut url, t.as_str());
        }
        url
    }

    /// The URL a human opens in a browser, with the token as a query
    /// parameter (a page load cannot set a header).
    pub fn http_url(&self, path: &str) -> (r: String)
        ensures
            r@ == self.url_with_token_spec("http"@, path@),
    {
        self.url_with_token("http", path)
    }

    /// The URL the dashboard page connects to (`/stream`, `/hid`).
    pub fn ws_url(&self, path: &str) -> (r: String)
        ensures
            r@ == self.url_with_token_spec("ws"@, path@),
    {
        self.url_with_token("ws", path)
    }
}


} // verus!
