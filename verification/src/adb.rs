//! adb transport for an Android target: the argument vectors of the `adb`
//! invocations and the wording of a failure to run it. Running `adb` is the
//! application's part.
use vstd::prelude::*;
use crate::text::{opt_view, cat, cat3, owned, push_line, push_str, views};

verus! {

pub const DEFAULT_ADB: &'static str = "adb";

pub open spec fn adb_words(adb_cmd: Option<Seq<char>>, serial: Option<Seq<char>>, rest: Seq<Seq<char>>) -> Seq<Seq<char>> {
    seq![
        match adb_cmd {
            Some(c) => c,
            None => DEFAULT_ADB@,
        },
    ] + (match serial {
        Some(s) => seq!["-s"@, s],
        None => Seq::empty(),
    }) + rest
}


/// Full argv for an adb invocation: the binary, an optional `-s <serial>`
/// device selector, then `rest`.
pub fn argv(adb_cmd: Option<&str>, serial: Option<&str>, rest: &[String]) -> (r: Vec<String>)
    ensures
        views(r@) == adb_words(opt_view(adb_cmd), opt_view(serial), views(rest@)),
{
    let mut a: Vec<String> = Vec::new();
    match adb_cmd {
        Some(c) => push_line(&mut a, owned(c)),
        None => push_line(&mut a, owned(DEFAULT_ADB)),
    }
    if let Some(s) = serial {
        push_line(&mut a, owned("-s"));
        push_line(&mut a, owned(s));
    }
    let ghost head = views(a@);
    let mut i: usize = 0;
    while i < rest.len()
        invariant
            i <= rest.len(),
            views(a@) == head + views(rest@).take(i as int),
        decreases rest.len() - i,
    {
        push_line(&mut a, rest[i].clone());
        assert(views(rest@).take(i + 1) =~= views(rest@).take(i as int).push(rest@[i as int]@));
        i += 1;
    }
    assert(views(rest@).take(rest.len() as int) =~= views(rest@));
    assert(views(a@) =~= adb_words(opt_view(adb_cmd), opt_view(serial), views(rest@)));
    a
}

/// The message for a failure to run adb: a missing binary names it and the
/// package to install; anything else quotes the error.
pub open spec fn spawn_error_text(adb_cmd: Option<Seq<char>>, not_found: bool, error: Seq<char>) -> Seq<char> {
    if not_found {
        "'"@ + match adb_cmd {
            Some(c) => c,
            None => DEFAULT_ADB@,
        } + "' not found — install the Android platform-tools (adb) on this host"@
    } else {
        "failed to run adb: "@ + error
    }
}

pub fn spawn_err(adb_cmd: Option<&str>, not_found: bool, error: &str) -> (r: String)
    ensures
        r@ == spawn_error_text(opt_view(adb_cmd), not_found, error@),
{
    if not_found {
        let c = match adb_cmd {
            Some(c) => c,
            None => DEFAULT_ADB,
        };
        cat3("'", c, "' not found — install the Android platform-tools (adb) on this host")
    } else {
        cat("failed to run adb: ", error)
    }
}

/// The arguments after the selector for one PNG screen capture
/// (`exec-out` is binary-clean).
pub fn screencap_args() -> (r: Vec<String>)
    ensures
        views(r@) == seq!["exec-out"@, "screencap"@, "-p"@],
{
    let mut v: Vec<String> = Vec::new();
    push_line(&mut v, owned("exec-out"));
    push_line(&mut v, owned("screencap"));
    push_line(&mut v, owned("-p"));
    v
}

} // verus!
