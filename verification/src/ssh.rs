//! SSH transport for driving a target on a remote control host: quoting,
//! the remote command line, the `ssh`/`sftp` argument vectors and the
//! forwarded-environment policy. Spawning the processes is the
//! application's part; everything it passes to them is decided here.
use vstd::prelude::*;
use crate::model::{Host, LOCAL};
use crate::text::{opt_view, 
    ascii_alnum, cat, cat3, chars_of, concat_map, is_ascii_alnum, is_ascii_alpha,
    is_ascii_digit, join, join_strings, owned, push_char, push_line, push_str, starts_with,
    string_of, strip_prefix, views,
};

verus! {

pub const CONTROL_PERSIST: &'static str = "300";
pub const CONNECT_TIMEOUT: &'static str = "10";

// ── shell quoting ───────────────────────────────────────────────────────────

/// A character a POSIX shell passes through unquoted.
pub open spec fn shell_safe(c: char) -> bool {
    is_ascii_alnum(c) || c == '@' || c == '%' || c == '_' || c == '+' || c == '=' || c == ':'
        || c == ',' || c == '.' || c == '/' || c == '-'
}

/// Inside single quotes, a quote is written `'\''`.
pub open spec fn quote_char(c: char) -> Seq<char> {
    if c == '\'' {
        seq!['\'', '\\', '\'', '\'']
    } else {
        seq![c]
    }
}

/// `s` as one POSIX shell token: bare when non-empty and all safe, else in
/// single quotes.
pub open spec fn shell_quoted(s: Seq<char>) -> Seq<char> {
    if s.len() > 0 && forall|i: int| 0 <= i < s.len() ==> shell_safe(#[trigger] s[i]) {
        s
    } else {
        seq!['\''] + concat_map(s, |c: char| quote_char(c)) + seq!['\'']
    }
}

/// `p` put in front of a word read, when there is one.
pub open spec fn read_onto(p: Seq<char>, o: Option<Seq<char>>) -> Option<Seq<char>> {
    match o {
        Some(r) => Some(p + r),
        None => None,
    }
}

/// How a POSIX shell reads `w`, outside quotes, as (the rest of) one word:
/// safe characters stand for themselves, `\` takes the next character
/// literally, `'` opens a quote. `None` when `w` is not one word: an
/// unquoted blank or other metacharacter, a trailing `\`, or a quote left
/// open.
pub open spec fn read_word(w: Seq<char>) -> Option<Seq<char>>
    decreases w.len(),
{
    if w.len() == 0 {
        Some(Seq::empty())
    } else if w[0] == '\'' {
        read_quoted(w.drop_first())
    } else if w[0] == '\\' {
        if w.len() >= 2 {
            read_onto(seq![w[1]], read_word(w.subrange(2, w.len() as int)))
        } else {
            None
        }
    } else if shell_safe(w[0]) {
        read_onto(seq![w[0]], read_word(w.drop_first()))
    } else {
        None
    }
}

/// The same inside single quotes: everything is literal up to the closing
/// `'`.
pub open spec fn read_quoted(w: Seq<char>) -> Option<Seq<char>>
    decreases w.len(),
{
    if w.len() == 0 {
        None
    } else if w[0] == '\'' {
        read_word(w.drop_first())
    } else {
        read_onto(seq![w[0]], read_quoted(w.drop_first()))
    }
}

proof fn lemma_read_bare(s: Seq<char>)
    requires
        forall|i: int| 0 <= i < s.len() ==> shell_safe(#[trigger] s[i]),
    ensures
        read_word(s) == Some(s),
    decreases s.len(),
{
    if s.len() > 0 {
        assert(shell_safe(s[0]));
        let t = s.drop_first();
        assert forall|i: int| 0 <= i < t.len() implies shell_safe(#[trigger] t[i]) by {
            assert(t[i] == s[i + 1]);
        }
        lemma_read_bare(t);
        assert(seq![s[0]] + t =~= s);
    }
}

proof fn lemma_read_quoted_char(c: char, rest: Seq<char>)
    ensures
        read_quoted(quote_char(c) + rest) == read_onto(seq![c], read_quoted(rest)),
{
    let w = quote_char(c) + rest;
    if c == '\'' {
        assert(w[0] == '\'');
        let w1 = w.drop_first();
        assert(w1 =~= seq!['\\', '\'', '\''] + rest);
        assert(read_quoted(w) == read_word(w1));
        assert(w1[0] == '\\' && w1[1] == '\'' && w1.len() >= 2);
        let w2 = w1.subrange(2, w1.len() as int);
        assert(w2 =~= seq!['\''] + rest);
        assert(read_word(w1) == read_onto(seq![w1[1]], read_word(w2)));
        assert(w2[0] == '\'');
        assert(w2.drop_first() =~= rest);
        assert(read_word(w2) == read_quoted(rest));
    } else {
        assert(w[0] == c);
        assert(w.drop_first() =~= rest);
        assert(read_quoted(w) == read_onto(seq![c], read_quoted(w.drop_first())));
    }
}

proof fn lemma_read_quoted_all(s: Seq<char>, rest: Seq<char>)
    ensures
        read_quoted(concat_map(s, |c: char| quote_char(c)) + rest) == read_onto(s, read_quoted(rest)),
    decreases s.len(),
{
    let f = |c: char| quote_char(c);
    if s.len() == 0 {
        assert(concat_map(s, f) + rest =~= rest);
        match read_quoted(rest) {
            Some(r) => assert(s + r =~= r),
            None => {},
        }
    } else {
        let init = s.drop_last();
        let c = s.last();
        assert(concat_map(s, f) == concat_map(init, f) + quote_char(c));
        assert(concat_map(s, f) + rest =~= concat_map(init, f) + (quote_char(c) + rest));
        lemma_read_quoted_all(init, quote_char(c) + rest);
        lemma_read_quoted_char(c, rest);
        match read_quoted(rest) {
            Some(r) => assert(init + (seq![c] + r) =~= s + r),
            None => {},
        }
    }
}

/// A shell reads a quoted token back as exactly the one word it quotes: the
/// token is never empty, and reading it gives the original text, whatever
/// characters (blanks, quotes, `$`, newlines) it holds.
pub proof fn law_a_quoted_token_reads_back_as_itself(s: Seq<char>)
    ensures
        shell_quoted(s).len() > 0,
        read_word(shell_quoted(s)) == Some(s),
{
    if s.len() > 0 && forall|i: int| 0 <= i < s.len() ==> shell_safe(#[trigger] s[i]) {
        lemma_read_bare(s);
    } else {
        let f = |c: char| quote_char(c);
        let body = concat_map(s, f);
        let q = seq!['\''] + body + seq!['\''];
        assert(q[0] == '\'');
        assert(q.drop_first() =~= body + seq!['\'']);
        lemma_read_quoted_all(s, seq!['\'']);
        assert(seq!['\''][0] == '\'');
        assert(seq!['\''].drop_first() =~= Seq::<char>::empty());
        assert(read_word(Seq::<char>::empty()) == Some(Seq::<char>::empty()));
        assert(read_quoted(seq!['\'']) == Some(Seq::<char>::empty()));
        assert(s + Seq::<char>::empty() =~= s);
    }
}

fn is_shell_safe(c: char) -> (r: bool)
    ensures
        r == shell_safe(c),
{
    ascii_alnum(c) || c == '@' || c == '%' || c == '_' || c == '+' || c == '=' || c == ':' || c
        == ',' || c == '.' || c == '/' || c == '-'
}

/// Quote a single token for a POSIX shell.
pub fn shell_quote(s: &str) -> (r: String)
    ensures
        r@ == shell_quoted(s@),
{
    let v = chars_of(s);
    let mut safe = v.len() > 0;
    let mut i: usize = 0;
    while i < v.len()
        invariant
            v@ == s@,
            i <= v.len(),
            safe == (v.len() > 0 && forall|j: int| 0 <= j < i ==> shell_safe(#[trigger] v@[j])),
        decreases v.len() - i,
    {
        if !is_shell_safe(v[i]) {
            safe = false;
        }
        i += 1;
    }
    if safe {
        return owned(s);
    }
    let mut out = owned("'");
    proof {
        reveal_strlit("'");
    }
    let mut k: usize = 0;
    while k < v.len()
        invariant
            v@ == s@,
            k <= v.len(),
            out@ == seq!['\''] + concat_map(v@.take(k as int), |c: char| quote_char(c)),
        decreases v.len() - k,
    {
        proof {
            crate::text::lemma_concat_map_step(v@, k as int, |c: char| quote_char(c));
        }
        if v[k] == '\'' {
            push_char(&mut out, '\'');
            push_char(&mut out, '\\');
            push_char(&mut out, '\'');
            push_char(&mut out, '\'');
        } else {
            push_char(&mut out, v[k]);
        }
        assert(out@ =~= seq!['\''] + concat_map(v@.take(k + 1), |c: char| quote_char(c)));
        k += 1;
    }
    assert(v@.take(v.len() as int) =~= v@);
    push_char(&mut out, '\'');
    out
}

/// A POSIX shell variable name (`[A-Za-z_][A-Za-z0-9_]*`).
pub open spec fn env_name(s: Seq<char>) -> bool {
    s.len() > 0 && (is_ascii_alpha(s[0]) || s[0] == '_') && forall|i: int|
        1 <= i < s.len() ==> is_ascii_alnum(#[trigger] s[i]) || s[i] == '_'
}

/// Whether `s` is a POSIX shell variable name.
pub fn is_env_name(s: &str) -> (r: bool)
    ensures
        r == env_name(s@),
{
    let v = chars_of(s);
    if v.len() == 0 {
        return false;
    }
    if !(crate::text::ascii_alpha(v[0]) || v[0] == '_') {
        return false;
    }
    let mut i: usize = 1;
    while i < v.len()
        invariant
            v@ == s@,
            1 <= i <= v.len(),
            forall|j: int| 1 <= j < i ==> is_ascii_alnum(#[trigger] v@[j]) || v@[j] == '_',
        decreases v.len() - i,
    {
        if !(ascii_alnum(v[i]) || v[i] == '_') {
            return false;
        }
        i += 1;
    }
    true
}

// ── the remote command line ─────────────────────────────────────────────────

/// The statement that reads and exports one forwarded variable.
pub open spec fn read_statement(v: Seq<char>) -> Seq<char> {
    "IFS= read -r "@ + v + " && export "@ + v + " && "@
}

/// The prelude script: read each variable in order, then exec the command.
pub open spec fn prelude_script(vars: Seq<Seq<char>>) -> Seq<char>
    decreases vars.len(),
{
    if vars.len() == 0 {
        "exec \"$@\""@
    } else {
        read_statement(vars[0]) + prelude_script(vars.drop_first())
    }
}

/// The words of the command that reads `vars` from stdin, exports them, then
/// execs `argv`.
pub open spec fn prelude_words(argv: Seq<Seq<char>>, vars: Seq<Seq<char>>) -> Seq<Seq<char>> {
    seq!["sh"@, "-c"@, shell_quoted(prelude_script(vars)), "sh"@] + argv.map_values(
        |a: Seq<char>| shell_quoted(a),
    )
}

proof fn lemma_prelude_script_split(vars: Seq<Seq<char>>, i: int)
    requires
        0 <= i <= vars.len(),
    ensures
        prelude_script(vars) == prelude_script_prefix(vars.take(i)) + prelude_script(vars.skip(i)),
    decreases i,
{
    if i > 0 {
        lemma_prelude_script_split(vars, i - 1);
        let t = vars.skip(i - 1);
        assert(t.drop_first() =~= vars.skip(i));
        assert(vars.take(i).drop_last() =~= vars.take(i - 1));
        assert(prelude_script_prefix(vars.take(i)) == prelude_script_prefix(vars.take(i - 1))
            + read_statement(vars[i - 1]));
    } else {
        assert(vars.skip(0) =~= vars);
    }
}

/// The read statements alone, for a prefix of the variables.
pub open spec fn prelude_script_prefix(vars: Seq<Seq<char>>) -> Seq<char>
    decreases vars.len(),
{
    if vars.len() == 0 {
        Seq::empty()
    } else {
        prelude_script_prefix(vars.drop_last()) + read_statement(vars.last())
    }
}

fn quote_all(argv: &[String]) -> (r: Vec<String>)
    ensures
        views(r@) == views(argv@).map_values(|a: Seq<char>| shell_quoted(a)),
{
    let mut out: Vec<String> = Vec::new();
    let mut i: usize = 0;
    while i < argv.len()
        invariant
            i <= argv.len(),
            views(out@) == views(argv@).take(i as int).map_values(|a: Seq<char>| shell_quoted(a)),
        decreases argv.len() - i,
    {
        push_line(&mut out, shell_quote(argv[i].as_str()));
        assert(views(argv@).take(i + 1) =~= views(argv@).take(i as int).push(argv@[i as int]@));
        assert(views(out@) =~= views(argv@).take(i + 1).map_values(|a: Seq<char>| shell_quoted(a)));
        i += 1;
    }
    assert(views(argv@).take(argv.len() as int) =~= views(argv@));
    out
}

/// The views of a list of string slices.
pub open spec fn str_views(v: Seq<&str>) -> Seq<Seq<char>> {
    v.map_values(|s: &str| s@)
}

/// The remote command that reads `vars` from its stdin, one line each in
/// order, exports them, and then execs `argv` with the rest of stdin still
/// attached. The values themselves are not in this string.
pub fn stdin_prelude(argv: &[String], vars: &[&str]) -> (r: String)
    requires
        forall|i: int| 0 <= i < vars@.len() ==> env_name((#[trigger] vars@[i])@),
    ensures
        r@ == join(prelude_words(views(argv@), str_views(vars@)), " "@),
{
    let ghost vv = str_views(vars@);
    let mut script = String::new();
    let mut i: usize = 0;
    while i < vars.len()
        invariant
            i <= vars.len(),
            vv == str_views(vars@),
            script@ == prelude_script_prefix(vv.take(i as int)),
        decreases vars.len() - i,
    {
        let v = vars[i];
        push_str(&mut script, "IFS= read -r ");
        push_str(&mut script, v);
        push_str(&mut script, " && export ");
        push_str(&mut script, v);
        push_str(&mut script, " && ");
        assert(vv.take(i + 1).drop_last() =~= vv.take(i as int));
        assert(script@ =~= prelude_script_prefix(vv.take(i + 1)));
        i += 1;
    }
    push_str(&mut script, "exec \"$@\"");
    proof {
        lemma_prelude_script_split(vv, vv.len() as int);
        assert(vv.take(vv.len() as int) =~= vv);
        assert(vv.skip(vv.len() as int) =~= Seq::<Seq<char>>::empty());
    }
    let mut parts: Vec<String> = Vec::new();
    push_line(&mut parts, owned("sh"));
    push_line(&mut parts, owned("-c"));
    push_line(&mut parts, shell_quote(script.as_str()));
    push_line(&mut parts, owned("sh"));
    let q = quote_all(argv);
    let mut k: usize = 0;
    let ghost head = views(parts@);
    while k < q.len()
        invariant
            k <= q.len(),
            views(parts@) == head + views(q@).take(k as int),
        decreases q.len() - k,
    {
        push_line(&mut parts, q[k].clone());
        assert(views(q@).take(k + 1) =~= views(q@).take(k as int).push(q@[k as int]@));
        k += 1;
    }
    assert(views(q@).take(q.len() as int) =~= views(q@));
    assert(views(parts@) =~= prelude_words(views(argv@), vv));
    join_strings(&parts, " ")
}

/// The names of forwarded variables, in order.
pub open spec fn env_names(env: Seq<(String, String)>) -> Seq<Seq<char>> {
    env.map_values(|p: (String, String)| p.0@)
}

/// The words of the command run remotely for `argv` with `env` forwarded.
pub open spec fn remote_words(argv: Seq<Seq<char>>, env: Seq<(String, String)>) -> Seq<Seq<char>> {
    if env.len() == 0 {
        argv.map_values(|a: Seq<char>| shell_quoted(a))
    } else {
        prelude_words(argv, env_names(env))
    }
}

/// Quote argv into one remote command, preserving argument boundaries through
/// the remote shell. With a non-empty `env` the command is wrapped in the
/// stdin prelude for those variables' names; their values never appear.
pub fn remote_command(argv: &[String], env: &[(String, String)]) -> (r: String)
    requires
        forall|i: int| 0 <= i < env@.len() ==> env_name((#[trigger] env@[i]).0@),
    ensures
        r@ == join(remote_words(views(argv@), env@), " "@),
{
    if env.len() == 0 {
        let q = quote_all(argv);
        return join_strings(&q, " ");
    }
    let mut names: Vec<&str> = Vec::new();
    let mut i: usize = 0;
    while i < env.len()
        invariant
            i <= env.len(),
            forall|k: int| 0 <= k < env@.len() ==> env_name((#[trigger] env@[k]).0@),
            names@.len() == i,
            forall|k: int| 0 <= k < i ==> (#[trigger] names@[k])@ == env@[k].0@,
        decreases env.len() - i,
    {
        names.push(env[i].0.as_str());
        i += 1;
    }
    assert(str_views(names@) =~= env_names(env@));
    stdin_prelude(argv, names.as_slice())
}

/// Forwarded values never reach the command line: the remote command for
/// `argv` is the same whatever values the forwarded variables hold, so `ps`
/// on the control host shows names only.
pub proof fn law_forwarded_values_never_reach_the_command_line(
    argv: Seq<Seq<char>>,
    e1: Seq<(String, String)>,
    e2: Seq<(String, String)>,
)
    requires
        env_names(e1) == env_names(e2),
    ensures
        remote_words(argv, e1) == remote_words(argv, e2),
{
    assert(e1.len() == env_names(e1).len());
    assert(e2.len() == env_names(e2).len());
}

// ── forwarded environment ───────────────────────────────────────────────────

/// Environment variables carried to a remote control host: the secrets a
/// helper reads from its environment rather than from the lab file. The
/// values travel on the remote command's stdin, never its command line.
pub const FORWARDED_ENV: [&'static str; 1] = ["AMT_PASSWORD"];

/// What looking a variable up in the environment found.
pub enum EnvLookup {
    Unset,
    NotUnicode,
    Value(String),
}

pub open spec fn forward_error(name: Seq<char>, why: Seq<char>) -> Seq<char> {
    name + " "@ + why + ", so it cannot be forwarded to a control host"@
}

/// What forwarding the variables `names`, found as `found`, gives: the set
/// ones in order, or the first refusal (a value that is not Unicode, or one
/// holding a newline the remote's line-oriented `read` would cut short).
pub open spec fn forwarded(names: Seq<Seq<char>>, found: Seq<EnvLookup>) -> Result<
    Seq<(Seq<char>, Seq<char>)>,
    Seq<char>,
>
    decreases names.len(),
{
    if names.len() == 0 || found.len() == 0 {
        Ok(Seq::empty())
    } else {
        match found[0] {
            EnvLookup::Unset => forwarded(names.drop_first(), found.drop_first()),
            EnvLookup::NotUnicode => Err(forward_error(names[0], "is not valid UTF-8"@)),
            EnvLookup::Value(v) => if v@.contains('\n') {
                Err(forward_error(names[0], "contains a newline"@))
            } else {
                match forwarded(names.drop_first(), found.drop_first()) {
                    Ok(rest) => Ok(seq![(names[0], v@)] + rest),
                    Err(e) => Err(e),
                }
            },
        }
    }
}

/// Every forwarded value is a single line: a value the remote's
/// line-oriented `read` could not take back intact is refused, never passed
/// on cut short. The names come through in order, each one asked for.
pub proof fn law_forwarded_values_are_single_lines(names: Seq<Seq<char>>, found: Seq<EnvLookup>)
    ensures
        forwarded(names, found) matches Ok(v) ==> forall|i: int|
            0 <= i < v.len() ==> !(#[trigger] v[i]).1.contains('\n') && names.contains(v[i].0),
    decreases names.len(),
{
    if names.len() > 0 && found.len() > 0 {
        law_forwarded_values_are_single_lines(names.drop_first(), found.drop_first());
        match forwarded(names, found) {
            Ok(v) => {
                assert forall|i: int| 0 <= i < v.len() implies !(#[trigger] v[i]).1.contains('\n')
                    && names.contains(v[i].0) by {
                    match found[0] {
                        EnvLookup::Value(x) => {
                            let rest = forwarded(names.drop_first(), found.drop_first())->Ok_0;
                            if i == 0 {
                                assert(names[0] == v[i].0);
                            } else {
                                assert(v[i] == rest[i - 1]);
                                let k = choose|k: int| 0 <= k < names.drop_first().len() && names.drop_first()[k] == rest[i - 1].0;
                                assert(names[k + 1] == v[i].0);
                            }
                        },
                        _ => {
                            let k = choose|k: int| 0 <= k < names.drop_first().len() && names.drop_first()[k] == v[i].0;
                            assert(names[k + 1] == v[i].0);
                        },
                    }
                }
            },
            Err(_) => {},
        }
    }
}

fn has_newline(s: &str) -> (r: bool)
    ensures
        r == s@.contains('\n'),
{
    let v = chars_of(s);
    let mut i: usize = 0;
    while i < v.len()
        invariant
            v@ == s@,
            i <= v.len(),
            forall|j: int| 0 <= j < i ==> v@[j] != '\n',
        decreases v.len() - i,
    {
        if v[i] == '\n' {
            assert(s@[i as int] == '\n');
            return true;
        }
        i += 1;
    }
    false
}

fn forward_error_text(name: &str, why: &str) -> (r: String)
    ensures
        r@ == forward_error(name@, why@),
{
    let mut m = cat3(name, " ", why);
    push_str(&mut m, ", so it cannot be forwarded to a control host");
    m
}

/// `prefix` put before a successful result.
pub open spec fn prepend(
    prefix: Seq<(Seq<char>, Seq<char>)>,
    r: Result<Seq<(Seq<char>, Seq<char>)>, Seq<char>>,
) -> Result<Seq<(Seq<char>, Seq<char>)>, Seq<char>> {
    match r {
        Ok(rest) => Ok(prefix + rest),
        Err(e) => Err(e),
    }
}

proof fn lemma_prepend_assoc(
    a: Seq<(Seq<char>, Seq<char>)>,
    b: Seq<(Seq<char>, Seq<char>)>,
    r: Result<Seq<(Seq<char>, Seq<char>)>, Seq<char>>,
)
    ensures
        prepend(a, prepend(b, r)) == prepend(a + b, r),
        prepend(Seq::empty(), r) == r,
{
    match r {
        Ok(rest) => {
            assert(a + (b + rest) =~= (a + b) + rest);
            assert(Seq::<(Seq<char>, Seq<char>)>::empty() + rest =~= rest);
        },
        Err(_) => {},
    }
}

pub open spec fn pair_views(v: Seq<(String, String)>) -> Seq<(Seq<char>, Seq<char>)> {
    v.map_values(|p: (String, String)| (p.0@, p.1@))
}

/// The forwarded variables among `names`, given what the environment holds
/// for each (`found[i]` for `names[i]`).
pub fn collect_forwarded(names: &[&str], found: &Vec<EnvLookup>) -> (r: Result<
    Vec<(String, String)>,
    String,
>)
    requires
        names@.len() == found@.len(),
    ensures
        match (r, forwarded(str_views(names@), found@)) {
            (Ok(v), Ok(w)) => pair_views(v@) == w,
            (Err(e), Err(m)) => e@ == m,
            _ => false,
        },
{
    let ghost nv = str_views(names@);
    let mut out: Vec<(String, String)> = Vec::new();
    let mut i: usize = 0;
    proof {
        assert(nv.skip(0) =~= nv);
        assert(found@.skip(0) =~= found@);
        lemma_prepend_assoc(Seq::empty(), Seq::empty(), forwarded(nv, found@));
        assert(pair_views(out@) =~= Seq::<(Seq<char>, Seq<char>)>::empty());
    }
    while i < names.len()
        invariant
            i <= names.len(),
            names@.len() == found@.len(),
            nv == str_views(names@),
            forwarded(nv, found@) == prepend(
                pair_views(out@),
                forwarded(nv.skip(i as int), found@.skip(i as int)),
            ),
        decreases names.len() - i,
    {
        let ghost s = nv.skip(i as int);
        let ghost f = found@.skip(i as int);
        assert(s.drop_first() =~= nv.skip(i + 1));
        assert(f.drop_first() =~= found@.skip(i + 1));
        assert(s[0] == names@[i as int]@);
        assert(f[0] == found@[i as int]);
        match &found[i] {
            EnvLookup::Unset => {},
            EnvLookup::NotUnicode => {
                return Err(forward_error_text(names[i], "is not valid UTF-8"));
            },
            EnvLookup::Value(v) => {
                if has_newline(v.as_str()) {
                    return Err(forward_error_text(names[i], "contains a newline"));
                }
                let ghost before = out@;
                out.push((owned(names[i]), v.clone()));
                proof {
                    assert(pair_views(out@) =~= pair_views(before) + seq![(names@[i as int]@, v@)]);
                    lemma_prepend_assoc(
                        pair_views(before),
                        seq![(names@[i as int]@, v@)],
                        forwarded(nv.skip(i + 1), found@.skip(i + 1)),
                    );
                }
            },
        }
        i += 1;
    }
    proof {
        assert(nv.skip(i as int).len() == 0);
        lemma_prepend_assoc(pair_views(out@), Seq::empty(), Ok(Seq::empty()));
        assert(pair_views(out@) + Seq::<(Seq<char>, Seq<char>)>::empty() =~= pair_views(out@));
    }
    Ok(out)
}

// ── ssh and sftp arguments ──────────────────────────────────────────────────

/// `b` appended to the directory `a` as `Path::join` does on Unix: an
/// absolute `b` replaces `a`; otherwise one `/` separates them.
pub open spec fn path_join(a: Seq<char>, b: Seq<char>) -> Seq<char> {
    if b.len() > 0 && b[0] == '/' {
        b
    } else if a.len() == 0 {
        b
    } else if a.last() == '/' {
        a + b
    } else {
        a + "/"@ + b
    }
}

pub fn join_path(a: &str, b: &str) -> (r: String)
    ensures
        r@ == path_join(a@, b@),
{
    let x = chars_of(a);
    let y = chars_of(b);
    if y.len() > 0 && y[0] == '/' {
        owned(b)
    } else if x.len() == 0 {
        owned(b)
    } else if x[x.len() - 1] == '/' {
        cat(a, b)
    } else {
        cat3(a, "/", b)
    }
}

/// `~/rest` under the home directory, when there is one; any other path as
/// it stands.
pub open spec fn home_expanded(p: Seq<char>, home: Option<Seq<char>>) -> Seq<char> {
    if starts_with(p, "~/"@) && home is Some {
        path_join(home->0, p.subrange(2, p.len() as int))
    } else {
        p
    }
}

/// A path with a leading `~/` resolved against `home`.
pub fn expand_tilde(p: &str, home: Option<&str>) -> (r: String)
    ensures
        r@ == home_expanded(
            p@,
            match home {
                Some(h) => Some(h@),
                None => None,
            },
        ),
{
    proof {
        reveal_strlit("~/");
    }
    match (strip_prefix(p, "~/"), home) {
        (Some(rest), Some(h)) => join_path(h, rest.as_str()),
        _ => owned(p),
    }
}


/// The ControlMaster socket path for `host`: its own `control_path`, else
/// `cm-%C` in the default control directory.
pub open spec fn control_path_of(host: Host, home: Option<Seq<char>>, control_dir: Seq<char>) -> Seq<
    char,
> {
    match host.control_path {
        Some(p) => home_expanded(p@, home),
        None => path_join(control_dir, "cm-%C"@),
    }
}

pub open spec fn control_words(cp: Seq<char>) -> Seq<Seq<char>> {
    seq![
        "-o"@,
        "ControlMaster=auto"@,
        "-o"@,
        "ControlPath="@ + cp,
        "-o"@,
        "ControlPersist="@ + CONTROL_PERSIST@,
    ]
}

pub open spec fn identity_words(host: Host, home: Option<Seq<char>>) -> Seq<Seq<char>> {
    match host.identity {
        Some(id) => seq!["-i"@, home_expanded(id@, home), "-o"@, "IdentitiesOnly=yes"@],
        None => Seq::empty(),
    }
}

/// The base `ssh` argv (program and options) for a non-local host.
pub open spec fn base_words(
    host: Host,
    interactive: bool,
    multiplex: bool,
    home: Option<Seq<char>>,
    control_dir: Seq<char>,
) -> Seq<Seq<char>> {
    seq!["ssh"@] + (if !interactive {
        seq!["-o"@, "BatchMode=yes"@]
    } else {
        Seq::empty()
    }) + seq!["-o"@, "ConnectTimeout="@ + CONNECT_TIMEOUT@] + identity_words(host, home) + (
    if multiplex {
        control_words(control_path_of(host, home, control_dir))
    } else {
        seq!["-o"@, "ControlMaster=no"@, "-o"@, "ControlPath=none"@]
    })
}

fn push_identity(a: &mut Vec<String>, host: &Host, home: Option<&str>)
    ensures
        views(final(a)@) == views(old(a)@) + identity_words(*host, opt_view(home)),
{
    let ghost start = views(a@);
    if let Some(id) = &host.identity {
        push_line(a, owned("-i"));
        push_line(a, expand_tilde(id.as_str(), home));
        push_line(a, owned("-o"));
        push_line(a, owned("IdentitiesOnly=yes"));
    }
    assert(views(a@) =~= start + identity_words(*host, opt_view(home)));
}

fn push_control(a: &mut Vec<String>, host: &Host, home: Option<&str>, control_dir: &str)
    ensures
        views(final(a)@) == views(old(a)@) + control_words(
            control_path_of(*host, opt_view(home), control_dir@),
        ),
{
    let ghost start = views(a@);
    let cp = match &host.control_path {
        Some(p) => expand_tilde(p.as_str(), home),
        None => join_path(control_dir, "cm-%C"),
    };
    push_line(a, owned("-o"));
    push_line(a, owned("ControlMaster=auto"));
    push_line(a, owned("-o"));
    push_line(a, cat("ControlPath=", cp.as_str()));
    push_line(a, owned("-o"));
    push_line(a, cat("ControlPersist=", CONTROL_PERSIST));
    assert(views(a@) =~= start + control_words(control_path_of(*host, opt_view(home), control_dir@)));
}

/// Base `ssh` argv (program + options) for a non-local host. `multiplex`
/// false gives a standalone connection (a port forward must own its channel).
/// `home` resolves `~/` in the host's paths; `control_dir` is the private
/// directory for default ControlMaster sockets, used when the host names no
/// `control_path` of its own.
pub fn base_args(
    host: &Host,
    interactive: bool,
    multiplex: bool,
    home: Option<&str>,
    control_dir: &str,
) -> (r: Vec<String>)
    ensures
        views(r@) == base_words(*host, interactive, multiplex, opt_view(home), control_dir@),
{
    let mut a: Vec<String> = Vec::new();
    push_line(&mut a, owned("ssh"));
    if !interactive {
        push_line(&mut a, owned("-o"));
        push_line(&mut a, owned("BatchMode=yes"));
    }
    push_line(&mut a, owned("-o"));
    push_line(&mut a, cat("ConnectTimeout=", CONNECT_TIMEOUT));
    let ghost mid = views(a@);
    push_identity(&mut a, host, home);
    if multiplex {
        push_control(&mut a, host, home, control_dir);
    } else {
        push_line(&mut a, owned("-o"));
        push_line(&mut a, owned("ControlMaster=no"));
        push_line(&mut a, owned("-o"));
        push_line(&mut a, owned("ControlPath=none"));
    }
    assert(views(a@) =~= base_words(*host, interactive, multiplex, opt_view(home), control_dir@));
    a
}

/// The arguments of `ssh` for running a command on `host`: the base options
/// (multiplexed), `-t` for a PTY, then `--` and the destination, so a
/// destination beginning with `-` is never read as an option.
pub open spec fn ssh_words(
    host: Host,
    interactive: bool,
    home: Option<Seq<char>>,
    control_dir: Seq<char>,
) -> Seq<Seq<char>> {
    base_words(host, interactive, true, home, control_dir).drop_first() + (if interactive {
        seq!["-t"@]
    } else {
        Seq::empty()
    }) + seq!["--"@, host.ssh@]
}

/// The `ssh` arguments (after the program name) for running on `host`.
pub fn ssh_args(host: &Host, interactive: bool, home: Option<&str>, control_dir: &str) -> (r: Vec<
    String,
>)
    ensures
        views(r@) == ssh_words(*host, interactive, opt_view(home), control_dir@),
{
    let b = base_args(host, interactive, true, home, control_dir);
    let ghost bv = views(b@);
    assert(bv.len() >= 1);
    assert(b@.len() == bv.len());
    let mut a: Vec<String> = Vec::new();
    let mut i: usize = 1;
    while i < b.len()
        invariant
            1 <= i <= b.len(),
            bv == views(b@),
            bv.len() >= 1,
            views(a@) == bv.subrange(1, i as int),
        decreases b.len() - i,
    {
        push_line(&mut a, b[i].clone());
        assert(bv.subrange(1, i + 1) =~= bv.subrange(1, i as int).push(bv[i as int]));
        i += 1;
    }
    assert(bv.subrange(1, bv.len() as int) =~= bv.drop_first());
    let ghost mid = views(a@);
    if interactive {
        push_line(&mut a, owned("-t"));
    }
    push_line(&mut a, owned("--"));
    push_line(&mut a, host.ssh.clone());
    assert(views(a@) =~= ssh_words(*host, interactive, opt_view(home), control_dir@));
    a
}

/// The `ssh` options for `sftp`: batch mode, timeout, identity and the
/// session's ControlMaster, so a transfer costs no extra handshake.
pub open spec fn transfer_words(host: Host, home: Option<Seq<char>>, control_dir: Seq<char>) -> Seq<
    Seq<char>,
> {
    seq!["-o"@, "BatchMode=yes"@, "-o"@, "ConnectTimeout="@ + CONNECT_TIMEOUT@] + identity_words(
        host,
        home,
    ) + control_words(control_path_of(host, home, control_dir))
}

/// SSH options shared with [`base_args`], for `sftp` rather than `ssh`.
pub fn transfer_args(host: &Host, home: Option<&str>, control_dir: &str) -> (r: Vec<String>)
    ensures
        views(r@) == transfer_words(*host, opt_view(home), control_dir@),
{
    let mut a: Vec<String> = Vec::new();
    push_line(&mut a, owned("-o"));
    push_line(&mut a, owned("BatchMode=yes"));
    push_line(&mut a, owned("-o"));
    push_line(&mut a, cat("ConnectTimeout=", CONNECT_TIMEOUT));
    push_identity(&mut a, host, home);
    push_control(&mut a, host, home, control_dir);
    assert(views(a@) =~= transfer_words(*host, opt_view(home), control_dir@));
    a
}

/// A backslash and a double quote are escaped for an sftp batch line.
pub open spec fn sftp_char(c: char) -> Seq<char> {
    if c == '\\' {
        seq!['\\', '\\']
    } else if c == '"' {
        seq!['\\', '"']
    } else {
        seq![c]
    }
}

pub open spec fn sftp_quoted(s: Seq<char>) -> Seq<char> {
    seq!['"'] + concat_map(s, |c: char| sftp_char(c)) + seq!['"']
}

/// Quote a path for an sftp batch line: sftp splits on whitespace and honours
/// double quotes; only the quote and the escape character need care, so a
/// Windows path's backslashes survive.
pub fn sftp_quote(s: &str) -> (r: String)
    ensures
        r@ == sftp_quoted(s@),
{
    let v = chars_of(s);
    let mut out = String::new();
    push_char(&mut out, '"');
    let mut k: usize = 0;
    while k < v.len()
        invariant
            v@ == s@,
            k <= v.len(),
            out@ == seq!['"'] + concat_map(v@.take(k as int), |c: char| sftp_char(c)),
        decreases v.len() - k,
    {
        proof {
            crate::text::lemma_concat_map_step(v@, k as int, |c: char| sftp_char(c));
        }
        if v[k] == '\\' {
            push_char(&mut out, '\\');
            push_char(&mut out, '\\');
        } else if v[k] == '"' {
            push_char(&mut out, '\\');
            push_char(&mut out, '"');
        } else {
            push_char(&mut out, v[k]);
        }
        assert(out@ =~= seq!['"'] + concat_map(v@.take(k + 1), |c: char| sftp_char(c)));
        k += 1;
    }
    assert(v@.take(v.len() as int) =~= v@);
    push_char(&mut out, '"');
    out
}

/// The sftp batch script that uploads `local` to `remote_rel`.
pub fn sftp_put_script(local: &str, remote_rel: &str) -> (r: String)
    ensures
        r@ == "put "@ + sftp_quoted(local@) + " "@ + sftp_quoted(remote_rel@) + "\n"@,
{
    let mut s = owned("put ");
    push_str(&mut s, sftp_quote(local).as_str());
    push_str(&mut s, " ");
    push_str(&mut s, sftp_quote(remote_rel).as_str());
    push_str(&mut s, "\n");
    s
}

/// The sftp batch script that removes `remote_rel`.
pub fn sftp_rm_script(remote_rel: &str) -> (r: String)
    ensures
        r@ == "rm "@ + sftp_quoted(remote_rel@) + "\n"@,
{
    let mut s = owned("rm ");
    push_str(&mut s, sftp_quote(remote_rel).as_str());
    push_str(&mut s, "\n");
    s
}

/// Result of a captured remote command.
pub struct Output {
    pub status: i32,
    pub stdout: String,
    pub stderr: String,
}

} // verus!
