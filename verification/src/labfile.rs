//! Editing the lab: the rules of every change the CLI makes to a lab
//! (names, collisions, what may be removed, how optional fields merge),
//! decided over the typed [`Lab`], and the same change made surgically on
//! the file's `toml_edit` document, so the author's comments, key order and
//! layout survive. A place written inline (`hosts = { … }`) cannot be edited
//! that way and is refused. The text is handed out for saving only for a lab
//! that passes [`crate::model::validate_for_save`]; writing the file is the
//! application's part.
use vstd::prelude::*;
use crate::model::{
    lab_ok, lab_problem, power_refs_ok, save_problem, validate, validate_for_save, first_index, invalid_name_text, lemma_first_index, resolved_channels, validate_name,
    valid_name, AdbChannel, HidChannel, Host, Lab, LabError, NetbootChannel, PowerChannel,
    SerialChannel, Target, UsbChannel, VideoChannel,
};
use crate::text::{opt_string_view, opt_view, 
    chars_of, join, join_strings, less, lt, owned, push_line, push_str, same, sorted, string_of,
    trim_start, views, starts_with, is_space, space,
};
use crate::tomldoc::{
    lemma_key_words, nothing_under, has_prefix,
    doc_serials, doc_shapes, doc_text, doc_texts, drop_under, entry_open, is_kind, move_under,
    serial_has_key, serials_of, shape_at, target_open, toml_parse, with_serial,
    channel_shape, entry_shape, insert_channel, insert_entry, insert_section, insert_serial_array,
    move_entry, new_document, parse_document, push_serial, remove_channel, remove_entry,
    remove_entry_key, remove_serial_at, remove_serial_key, render_document, section_shape,
    serial_count, serial_text_at, serial_shape, set_channel_key, set_entry_key, set_serial_int,
    set_serial_text, set_serial_true, Shape,
};
use toml_edit::DocumentMut;

verus! {

// ── values ──────────────────────────────────────────────────────────────────

/// An optional field after an edit: a given value replaces it, an absent one
/// leaves it as it was.
pub open spec fn set_v(old: Option<String>, v: Option<&str>) -> Option<Seq<char>> {
    match v {
        Some(x) => Some(x@),
        None => opt_string_view(old),
    }
}

fn set_opt(field: &mut Option<String>, v: Option<&str>)
    ensures
        opt_string_view(*final(field)) == set_v(*old(field), v),
{
    if let Some(x) = v {
        *field = Some(owned(x));
    }
}

fn opt_owned(v: Option<&str>) -> (r: Option<String>)
    ensures
        opt_string_view(r) == opt_view(v),
{
    match v {
        Some(x) => Some(owned(x)),
        None => None,
    }
}

// ── positions ───────────────────────────────────────────────────────────────

/// Where `name` goes among the ascending `keys`: after every key that sorts
/// before it.
pub open spec fn insert_pos(keys: Seq<Seq<char>>, name: Seq<char>) -> int
    decreases keys.len(),
{
    if keys.len() == 0 || !lt(keys[0], name) {
        0
    } else {
        1 + insert_pos(keys.drop_first(), name)
    }
}

proof fn lemma_insert_pos_bounds(keys: Seq<Seq<char>>, name: Seq<char>)
    ensures
        0 <= insert_pos(keys, name) <= keys.len(),
        forall|k: int| 0 <= k < insert_pos(keys, name) ==> lt(#[trigger] keys[k], name),
        insert_pos(keys, name) < keys.len() ==> !lt(keys[insert_pos(keys, name)], name),
    decreases keys.len(),
{
    if keys.len() > 0 && lt(keys[0], name) {
        let rest = keys.drop_first();
        lemma_insert_pos_bounds(rest, name);
        assert forall|k: int| 0 <= k < insert_pos(keys, name) implies lt(#[trigger] keys[k], name) by {
            if k > 0 {
                assert(keys[k] == rest[k - 1]);
            }
        }
    }
}

/// `new` is `old` with one element put in at `pos`.
pub open spec fn inserted_at<A>(old: Seq<A>, new: Seq<A>, pos: int) -> bool {
    &&& 0 <= pos <= old.len()
    &&& new.len() == old.len() + 1
    &&& forall|k: int| 0 <= k < pos ==> new[k] == old[k]
    &&& forall|k: int| pos < k < new.len() ==> new[k] == old[k - 1]
}

fn host_pos(lab: &Lab, name: &str) -> (r: usize)
    ensures
        r == insert_pos(lab.host_keys(), name@),
        r <= lab.hosts@.len(),
{
    let ghost keys = lab.host_keys();
    let mut i: usize = 0;
    proof {
        assert(keys.skip(0) =~= keys);
    }
    while i < lab.hosts.len() && less(lab.hosts[i].0.as_str(), name)
        invariant
            i <= lab.hosts.len(),
            keys == lab.host_keys(),
            keys.len() == lab.hosts@.len(),
            insert_pos(keys, name@) == i + insert_pos(keys.skip(i as int), name@),
        decreases lab.hosts.len() - i,
    {
        assert(keys.skip(i as int)[0] == keys[i as int]);
        assert(keys.skip(i as int).drop_first() =~= keys.skip(i + 1));
        i += 1;
    }
    proof {
        if i < lab.hosts.len() {
            assert(keys.skip(i as int)[0] == keys[i as int]);
        } else {
            assert(keys.skip(i as int).len() == 0);
        }
    }
    i
}

fn target_pos(targets: &Vec<(String, Target)>, name: &str) -> (r: usize)
    ensures
        r == insert_pos(targets@.map_values(|e: (String, Target)| e.0@), name@),
        r <= targets@.len(),
{
    let ghost keys = targets@.map_values(|e: (String, Target)| e.0@);
    let mut i: usize = 0;
    proof {
        assert(keys.skip(0) =~= keys);
    }
    while i < targets.len() && less(targets[i].0.as_str(), name)
        invariant
            i <= targets.len(),
            keys == targets@.map_values(|e: (String, Target)| e.0@),
            insert_pos(keys, name@) == i + insert_pos(keys.skip(i as int), name@),
        decreases targets.len() - i,
    {
        assert(keys.skip(i as int)[0] == keys[i as int]);
        assert(keys.skip(i as int).drop_first() =~= keys.skip(i + 1));
        i += 1;
    }
    proof {
        if i < targets.len() {
            assert(keys.skip(i as int)[0] == keys[i as int]);
        } else {
            assert(keys.skip(i as int).len() == 0);
        }
    }
    i
}

// ── laws of the name order ──────────────────────────────────────────────────

/// A new name put in at its position keeps an ascending list of names
/// ascending (and so free of duplicates): adding a host or target, or
/// renaming a target, keeps the lab's names in order, each once.
pub proof fn law_new_names_land_in_order(keys: Seq<Seq<char>>, name: Seq<char>)
    requires
        sorted(keys),
        !keys.contains(name),
    ensures
        sorted(keys.insert(insert_pos(keys, name), name)),
{
    lemma_insert_pos_bounds(keys, name);
    let p = insert_pos(keys, name);
    let nk = keys.insert(p, name);
    if p < keys.len() {
        crate::text::lemma_lt_total(keys[p], name);
        assert(keys[p] != name);
    }
    assert forall|a: int, b: int| 0 <= a < b < nk.len() implies lt(nk[a], nk[b]) by {
        if b < p {
        } else if b == p {
        } else if a < p {
            assert(nk[b] == keys[b - 1]);
            if b - 1 > p {
                crate::text::lemma_lt_transitive(name, keys[p], keys[b - 1]);
            }
            crate::text::lemma_lt_transitive(nk[a], name, nk[b]);
        } else if a == p {
            assert(nk[b] == keys[b - 1]);
            if b - 1 > p {
                crate::text::lemma_lt_transitive(name, keys[p], keys[b - 1]);
            }
        } else {
            assert(nk[a] == keys[a - 1]);
            assert(nk[b] == keys[b - 1]);
        }
    }
}

/// Taking a name out keeps the rest in order.
pub proof fn law_removing_a_name_keeps_the_rest_in_order(keys: Seq<Seq<char>>, i: int)
    requires
        sorted(keys),
        0 <= i < keys.len(),
    ensures
        sorted(keys.remove(i)),
{
    let nk = keys.remove(i);
    assert forall|a: int, b: int| 0 <= a < b < nk.len() implies lt(nk[a], nk[b]) by {
        let a0 = if a < i { a } else { a + 1 };
        let b0 = if b < i { b } else { b + 1 };
        assert(nk[a] == keys[a0]);
        assert(nk[b] == keys[b0]);
    }
}

proof fn lemma_insert_pos_at(keys: Seq<Seq<char>>, name: Seq<char>, i: int)
    requires
        0 <= i <= keys.len(),
        forall|k: int| 0 <= k < i ==> lt(#[trigger] keys[k], name),
        i < keys.len() ==> !lt(keys[i], name),
    ensures
        insert_pos(keys, name) == i,
    decreases keys.len(),
{
    if i > 0 {
        let rest = keys.drop_first();
        assert forall|k: int| 0 <= k < i - 1 implies lt(#[trigger] rest[k], name) by {
            assert(rest[k] == keys[k + 1]);
        }
        if i - 1 < rest.len() {
            assert(rest[i - 1] == keys[i]);
        }
        assert(lt(keys[0], name));
        lemma_insert_pos_at(rest, name, i - 1);
    }
}

pub open spec fn entry_keys<A>(v: Seq<(String, A)>) -> Seq<Seq<char>> {
    v.map_values(|e: (String, A)| e.0@)
}

proof fn lemma_first_index_of_new<A>(old: Seq<(String, A)>, new: Seq<(String, A)>, p: int, name: Seq<char>)
    requires
        !entry_keys(old).contains(name),
        inserted_at(old, new, p),
        new[p].0@ == name,
    ensures
        crate::model::first_index(entry_keys(new), name) == Some(p),
{
    assert forall|k: int| 0 <= k < p implies entry_keys(new)[k] != name by {
        assert(new[k] == old[k]);
        assert(entry_keys(old)[k] == old[k].0@);
    }
    crate::model::lemma_first_index_at(entry_keys(new), name, p);
}

/// Adding a host or target and then removing it by name gives back the very
/// list it was added to.
pub proof fn law_an_entry_added_then_removed_leaves_the_list_as_it_was<A>(
    old: Seq<(String, A)>,
    new: Seq<(String, A)>,
    name: Seq<char>,
)
    requires
        !entry_keys(old).contains(name),
        inserted_at(old, new, insert_pos(entry_keys(old), name)),
        new[insert_pos(entry_keys(old), name)].0@ == name,
    ensures
        crate::model::first_index(entry_keys(new), name) == Some(insert_pos(entry_keys(old), name)),
        new.remove(insert_pos(entry_keys(old), name)) == old,
{
    let p = insert_pos(entry_keys(old), name);
    lemma_first_index_of_new(old, new, p, name);
    assert(new.remove(p) =~= old);
}

/// Renaming a target and renaming it back gives back the lab's names, in
/// order, each with the target it had: renaming carries a target's every
/// channel and moves nothing else.
pub proof fn law_renaming_there_and_back_restores_the_targets<A>(
    old: Seq<(String, A)>,
    mid: Seq<(String, A)>,
    fin: Seq<(String, A)>,
    a: Seq<char>,
    b: Seq<char>,
)
    requires
        sorted(entry_keys(old)),
        entry_keys(old).contains(a),
        !entry_keys(old).contains(b),
        ({
            let i = crate::model::first_index(entry_keys(old), a)->0;
            let rest = old.remove(i);
            let p = insert_pos(entry_keys(rest), b);
            &&& inserted_at(rest, mid, p)
            &&& mid[p].0@ == b
            &&& mid[p].1 == old[i].1
        }),
        ({
            let j = crate::model::first_index(entry_keys(mid), b)->0;
            let rest = mid.remove(j);
            let q = insert_pos(entry_keys(rest), a);
            &&& inserted_at(rest, fin, q)
            &&& fin[q].0@ == a
            &&& fin[q].1 == mid[j].1
        }),
    ensures
        entry_keys(fin) == entry_keys(old),
        forall|k: int| 0 <= k < old.len() ==> (#[trigger] fin[k]).1 == old[k].1,
{
    crate::model::lemma_first_index(entry_keys(old), a);
    let i = crate::model::first_index(entry_keys(old), a)->0;
    let rest = old.remove(i);
    let p = insert_pos(entry_keys(rest), b);
    assert(entry_keys(rest) =~= entry_keys(old).remove(i));
    assert(!entry_keys(rest).contains(b)) by {
        if entry_keys(rest).contains(b) {
            let k = choose|k: int| 0 <= k < entry_keys(rest).len() && entry_keys(rest)[k] == b;
            let k0 = if k < i { k } else { k + 1 };
            assert(entry_keys(old)[k0] == b);
        }
    }
    lemma_first_index_of_new(rest, mid, p, b);
    assert(mid.remove(p) =~= rest);
    let keys = entry_keys(old);
    let rk = entry_keys(rest);
    assert forall|k: int| 0 <= k < i implies lt(#[trigger] rk[k], a) by {
        assert(rk[k] == keys[k]);
        assert(keys[i] == a);
    }
    if i < rk.len() {
        assert(rk[i] == keys[i + 1]);
        assert(lt(keys[i], keys[i + 1]));
        crate::text::lemma_lt_total(keys[i + 1], a);
    }
    lemma_insert_pos_at(rk, a, i);
    assert(entry_keys(fin) =~= entry_keys(old)) by {
        assert forall|k: int| 0 <= k < old.len() implies entry_keys(fin)[k] == entry_keys(old)[k] by {
            if k < i {
                assert(fin[k] == rest[k]);
            } else if k > i {
                assert(fin[k] == rest[k - 1]);
                assert(rest[k - 1] == old[k]);
            }
        }
    }
    assert forall|k: int| 0 <= k < old.len() implies (#[trigger] fin[k]).1 == old[k].1 by {
        if k < i {
            assert(fin[k] == rest[k]);
        } else if k > i {
            assert(fin[k] == rest[k - 1]);
        }
    }
}

// ── errors ──────────────────────────────────────────────────────────────────

/// `<lead><name>' already exists`, `lead` naming the kind (`host '`).
pub open spec fn exists_text(lead: Seq<char>, name: Seq<char>) -> Seq<char> {
    lead + name + "' already exists"@
}

/// `<lead><name>'`, `lead` naming what is missing (`no host '`).
pub open spec fn missing_text(lead: Seq<char>, name: Seq<char>) -> Seq<char> {
    lead + name + "'"@
}

fn err_named(a: &str, name: &str, b: &str) -> (r: Result<(), LabError>)
    ensures
        r matches Err(e) && e.0@ == a@ + name@ + b@,
{
    let mut m = owned(a);
    push_str(&mut m, name);
    push_str(&mut m, b);
    Err(LabError(m))
}


proof fn lemma_keys_after_insert<A>(old: Seq<(String, A)>, new: Seq<(String, A)>, p: int, name: Seq<char>)
    requires
        sorted(old.map_values(|e: (String, A)| e.0@)),
        !old.map_values(|e: (String, A)| e.0@).contains(name),
        p == insert_pos(old.map_values(|e: (String, A)| e.0@), name),
        inserted_at(old, new, p),
        new[p].0@ == name,
    ensures
        sorted(new.map_values(|e: (String, A)| e.0@)),
{
    let keys = old.map_values(|e: (String, A)| e.0@);
    law_new_names_land_in_order(keys, name);
    assert(new.map_values(|e: (String, A)| e.0@) =~= keys.insert(p, name));
}

proof fn lemma_keys_after_remove<A>(old: Seq<(String, A)>, i: int)
    requires
        sorted(old.map_values(|e: (String, A)| e.0@)),
        0 <= i < old.len(),
    ensures
        sorted(old.remove(i).map_values(|e: (String, A)| e.0@)),
{
    let keys = old.map_values(|e: (String, A)| e.0@);
    law_removing_a_name_keeps_the_rest_in_order(keys, i);
    assert(old.remove(i).map_values(|e: (String, A)| e.0@) =~= keys.remove(i));
}

proof fn lemma_replaced_keys(old: Lab, new: Lab, i: int, t: Target)
    requires
        target_replaced(old, new, i, t),
    ensures
        new.target_keys() == old.target_keys(),
        new.host_keys() == old.host_keys(),
{
    assert(new.target_keys() =~= old.target_keys());
}

// ── the editor ──────────────────────────────────────────────────────────────

/// A lab open for editing: the typed lab every edit is decided on, and the
/// live document the same edits are written into. Each edit keeps the two in
/// agreement ([`doc_agrees`]): the document's hosts, targets, channel
/// tables and serial interfaces are the lab's.
pub struct LabFile {
    pub lab: Lab,
    pub doc: DocumentMut,
    /// Whether saving puts the header comment on top (a freshly created lab).
    pub header: bool,
}

// ── the document's refusals ─────────────────────────────────────────────────

/// What follows the last `.` of a dotted key (all of it when there is none).
pub open spec fn last_segment(s: Seq<char>) -> Seq<char>
    decreases s.len(),
{
    if s.len() == 0 {
        s
    } else if s.last() == '.' {
        Seq::empty()
    } else {
        last_segment(s.drop_last()).push(s.last())
    }
}

/// The refusal for a table the CLI cannot edit because it is written inline.
pub open spec fn not_standard_text(key: Seq<char>) -> Seq<char> {
    "`"@ + key + "` is not a standard table \u{2014} the CLI cannot edit the inline form (`"@ + last_segment(key)
        + " = { \u{2026} }`); rewrite it as a `["@ + key + "]` table by hand"@
}

pub open spec fn not_table_text(target: Seq<char>, kind: Seq<char>) -> Seq<char> {
    "target '"@ + target + "': "@ + kind + " is not a table"@
}

pub open spec fn not_serial_array_text(target: Seq<char>) -> Seq<char> {
    "target '"@ + target + "': serial is not [[serial]]"@
}

fn last_segment_of(s: &str) -> (r: String)
    ensures
        r@ == last_segment(s@),
{
    let v = chars_of(s);
    let mut i: usize = v.len();
    assert(v@.take(v.len() as int) =~= v@);
    assert(v@.subrange(v.len() as int, v.len() as int) =~= Seq::<char>::empty());
    assert(v@ + Seq::<char>::empty() =~= v@);
    while i > 0 && v[i - 1] != '.'
        invariant
            i <= v.len(),
            last_segment(v@) == last_segment(v@.take(i as int)) + v@.subrange(i as int, v.len() as int),
        decreases i,
    {
        assert(v@.take(i as int).drop_last() =~= v@.take(i - 1));
        assert(v@.subrange(i - 1, v.len() as int) =~= seq![v@[i - 1]] + v@.subrange(i as int, v.len() as int));
        assert(last_segment(v@.take(i as int)) == last_segment(v@.take(i - 1)).push(v@[i - 1]));
        assert(last_segment(v@.take(i - 1)).push(v@[i - 1]) + v@.subrange(i as int, v.len() as int)
            =~= last_segment(v@.take(i - 1)) + v@.subrange(i - 1, v.len() as int));
        i -= 1;
    }
    if i > 0 {
        assert(last_segment(v@.take(i as int)) =~= Seq::<char>::empty());
    } else {
        assert(last_segment(v@.take(0)) =~= Seq::<char>::empty());
    }
    let mut out: Vec<char> = Vec::new();
    let mut k = i;
    while k < v.len()
        invariant
            i <= k <= v.len(),
            out@ == v@.subrange(i as int, k as int),
        decreases v.len() - k,
    {
        out.push(v[k]);
        assert(v@.subrange(i as int, k + 1) =~= v@.subrange(i as int, k as int).push(v@[k as int]));
        k += 1;
    }
    assert(last_segment(v@) =~= out@);
    string_of(&out)
}

fn not_standard(key: &str) -> (r: LabError)
    ensures
        r.0@ == not_standard_text(key@),
{
    let mut m = owned("`");
    push_str(&mut m, key);
    push_str(&mut m, "` is not a standard table \u{2014} the CLI cannot edit the inline form (`");
    push_str(&mut m, last_segment_of(key).as_str());
    push_str(&mut m, " = { \u{2026} }`); rewrite it as a `[");
    push_str(&mut m, key);
    push_str(&mut m, "]` table by hand");
    LabError(m)
}

fn not_table(target: &str, kind: &str) -> (r: LabError)
    ensures
        r.0@ == not_table_text(target@, kind@),
{
    let mut m = owned("target '");
    push_str(&mut m, target);
    push_str(&mut m, "': ");
    push_str(&mut m, kind);
    push_str(&mut m, " is not a table");
    LabError(m)
}

/// What stands at `section.name`, reached through a standard `section`.
pub open spec fn entry_shape_of(m: Map<Seq<Seq<char>>, Shape>, s: Seq<char>, n: Seq<char>) -> Shape {
    if shape_at(m, seq![s]) == Shape::Standard {
        shape_at(m, seq![s, n])
    } else {
        Shape::Absent
    }
}

/// What stands at `targets.t.kind`, reached through standard tables.
pub open spec fn channel_shape_of(m: Map<Seq<Seq<char>>, Shape>, t: Seq<char>, kind: Seq<char>) -> Shape {
    if target_open(m, t) {
        shape_at(m, seq!["targets"@, t, kind])
    } else {
        Shape::Absent
    }
}

/// Why target `t` cannot be edited, going by the document `m` and the lab:
/// `targets` written inline; no such target in either; or its own table
/// written inline.
pub open spec fn target_problem(m: Map<Seq<Seq<char>>, Shape>, lab: Lab, t: Seq<char>) -> Option<Seq<char>> {
    if shape_at(m, seq!["targets"@]) == Shape::Other {
        Some(not_standard_text("targets"@))
    } else if shape_at(m, seq!["targets"@]) == Shape::Absent || shape_at(m, seq!["targets"@, t])
        == Shape::Absent || target_at(lab, t) is None {
        Some(missing_text("no target '"@, t))
    } else if shape_at(m, seq!["targets"@, t]) == Shape::Other {
        Some(not_standard_text("targets."@ + t))
    } else {
        None
    }
}

/// A string value written when given.
pub open spec fn put(t: Map<Seq<Seq<char>>, Seq<char>>, p: Seq<Seq<char>>, v: Option<Seq<char>>) -> Map<
    Seq<Seq<char>>,
    Seq<char>,
> {
    match v {
        Some(x) => t.insert(p, x),
        None => t,
    }
}

/// A string key of a serial table written when given.
pub open spec fn sput(m: Map<Seq<char>, Seq<char>>, k: Seq<char>, v: Option<Seq<char>>) -> Map<Seq<char>, Seq<char>> {
    match v {
        Some(x) => m.insert(k, x),
        None => m,
    }
}

/// The value at `targets.t.kind.key`.
pub open spec fn chan(t: Seq<char>, kind: Seq<char>, key: Seq<char>) -> Seq<Seq<char>> {
    seq!["targets"@, t, kind, key]
}

impl LabFile {
    fn target_check(&self, t: &str) -> (r: Result<usize, LabError>)
        ensures
            match target_problem(doc_shapes(self.doc), self.lab, t@) {
                Some(m) => r matches Err(e) && e.0@ == m,
                None => r matches Ok(i) && target_at(self.lab, t@) == Some(i as int) && target_open(
                    doc_shapes(self.doc),
                    t@,
                ),
            },
    {
        let s = section_shape(&self.doc, "targets");
        if s == Shape::Other {
            return Err(not_standard("targets"));
        }
        proof {
            lemma_first_index(self.lab.target_keys(), t@);
        }
        let e = entry_shape(&self.doc, "targets", t);
        let i = self.lab.find_target(t);
        if s == Shape::Absent || e == Shape::Absent || i.is_none() {
            let mut m = owned("no target '");
            push_str(&mut m, t);
            push_str(&mut m, "'");
            return Err(LabError(m));
        }
        if e == Shape::Other {
            let mut k = owned("targets.");
            push_str(&mut k, t);
            return Err(not_standard(k.as_str()));
        }
        match i {
            Some(i) => Ok(i),
            None => Err(LabError(owned(""))),
        }
    }
}

/// The position of `target`'s serial interface `name` in the lab.
pub open spec fn serial_index_in(lab: Lab, target: Seq<char>, name: Seq<char>) -> int {
    serial_at(lab.targets@[target_at(lab, target)->0].1.serial@, name)->0
}

/// The document's `j`th `[[serial]]` table of `target` is named `name`.
pub open spec fn doc_serial_named(
    q: Map<Seq<char>, Seq<Map<Seq<char>, Seq<char>>>>,
    target: Seq<char>,
    j: int,
    name: Seq<char>,
) -> bool {
    serial_has_key(q, target, j, "name"@) && serials_of(q, target)[j]["name"@] == name
}

/// The string keys of a new `[[serial]]` table.
pub open spec fn serial_strings(
    name: Seq<char>,
    device: Seq<char>,
    sense: Option<Seq<char>>,
    host: Option<Seq<char>>,
) -> Map<Seq<char>, Seq<char>> {
    sput(sput(Map::empty().insert("name"@, name).insert("device"@, device), "power_sense_signal"@, sense), "host"@, host)
}

pub open spec fn drop_if(m: Map<Seq<char>, Seq<char>>, k: Seq<char>, b: bool) -> Map<Seq<char>, Seq<char>> {
    if b {
        m.remove(k)
    } else {
        m
    }
}

/// The string keys of a `[[serial]]` table after an update: the given
/// strings written; a given baud or power-button flag is no string.
pub open spec fn serial_updated(
    m: Map<Seq<char>, Seq<char>>,
    device: Option<Seq<char>>,
    baud: bool,
    sense: Option<Seq<char>>,
    power_button: bool,
    host: Option<Seq<char>>,
) -> Map<Seq<char>, Seq<char>> {
    sput(drop_if(sput(drop_if(sput(m, "device"@, device), "baud"@, baud), "power_sense_signal"@, sense), "power_button"@, power_button), "host"@, host)
}

impl LabFile {
    /// The lab's position of `target`'s serial interface `name`, when the
    /// document's `[[serial]]` table there carries the same name.
    fn doc_serial_check(&self, ti: usize, target: &str, name: &str) -> (r: Option<usize>)
        requires
            target_at(self.lab, target@) == Some(ti as int),
        ensures
            r matches Some(j) ==> j == serial_index_in(self.lab, target@, name@) && has_serial(self.lab, target@, name@)
                && doc_serial_named(doc_serials(self.doc), target@, j as int, name@),
            r is None ==> !(has_serial(self.lab, target@, name@) && doc_serial_named(
                doc_serials(self.doc),
                target@,
                serial_index_in(self.lab, target@, name@),
                name@,
            )),
    {
        proof {
            lemma_first_index(self.lab.target_keys(), target@);
        }
        assert(ti < self.lab.targets.len());
        let j = match serial_index(&self.lab.targets[ti].1.serial, name) {
            Some(j) => j,
            None => return None,
        };
        match serial_text_at(&self.doc, "targets", target, "serial", j, "name") {
            Some(x) => if same(x.as_str(), name) {
                Some(j)
            } else {
                None
            },
            None => None,
        }
    }
}

// ── the document's writes ───────────────────────────────────────────────────

fn doc_entry_opt(doc: &mut DocumentMut, section: &str, name: &str, key: &str, v: Option<&str>)
    requires
        !(section@ == "targets"@ && is_kind(key@)),
    ensures
        doc_shapes(*final(doc)) == doc_shapes(*old(doc)),
        doc_serials(*final(doc)) == doc_serials(*old(doc)),
        doc_texts(*final(doc)) == if entry_open(doc_shapes(*old(doc)), section@, name@) {
            put(doc_texts(*old(doc)), seq![section@, name@, key@], opt_view(v))
        } else {
            doc_texts(*old(doc))
        },
{
    proof {
        lemma_key_words();
    }
    if let Some(x) = v {
        set_entry_key(doc, section, name, key, x);
    }
}

fn doc_channel_open(doc: &mut DocumentMut, target: &str, kind: &str)
    requires
        is_kind(kind@),
        kind@ != "serial"@,
        target_open(doc_shapes(*old(doc)), target@),
        shape_at(doc_shapes(*old(doc)), seq!["targets"@, target@, kind@]) != Shape::Other,
    ensures
        doc_shapes(*final(doc)) == doc_shapes(*old(doc)).insert(seq!["targets"@, target@, kind@], Shape::Standard),
        doc_texts(*final(doc)) == doc_texts(*old(doc)),
        doc_serials(*final(doc)) == doc_serials(*old(doc)),
{
    proof {
        lemma_key_words();
    }
    if channel_shape(doc, "targets", target, kind) == Shape::Absent {
        insert_channel(doc, "targets", target, kind);
    } else {
        assert(doc_shapes(*old(doc)).insert(seq!["targets"@, target@, kind@], Shape::Standard) =~= doc_shapes(*old(doc)));
    }
}

fn doc_channel_opt(doc: &mut DocumentMut, target: &str, kind: &str, key: &str, v: Option<&str>)
    requires
        is_kind(kind@),
        kind@ != "serial"@,
        target_open(doc_shapes(*old(doc)), target@),
        shape_at(doc_shapes(*old(doc)), seq!["targets"@, target@, kind@]) == Shape::Standard,
    ensures
        doc_shapes(*final(doc)) == doc_shapes(*old(doc)),
        doc_serials(*final(doc)) == doc_serials(*old(doc)),
        doc_texts(*final(doc)) == put(doc_texts(*old(doc)), chan(target@, kind@, key@), opt_view(v)),
{
    proof {
        lemma_key_words();
    }
    if let Some(x) = v {
        set_channel_key(doc, "targets", target, kind, key, x);
    }
}

fn no_serial_err(target: &str, name: &str) -> (r: Result<(), LabError>)
    ensures
        r matches Err(e) && e.0@ == no_serial_text(target@, name@),
{
    let mut m = owned("target '");
    push_str(&mut m, target);
    push_str(&mut m, "': no serial '");
    push_str(&mut m, name);
    push_str(&mut m, "'");
    Err(LabError(m))
}

fn doc_serial_opt(doc: &mut DocumentMut, target: &str, i: usize, key: &str, v: Option<&str>)
    ensures
        doc_shapes(*final(doc)) == doc_shapes(*old(doc)),
        doc_texts(*final(doc)) == doc_texts(*old(doc)),
        doc_serials(*final(doc)) == with_serial(
            doc_serials(*old(doc)),
            target@,
            i as int,
            |m: Map<Seq<char>, Seq<char>>| sput(m, key@, opt_view(v)),
        ),
{
    match v {
        Some(x) => set_serial_text(doc, "targets", target, "serial", i, key, x),
        None => {
            proof {
                let q = doc_serials(*old(doc));
                if q.contains_key(target@) && i < q[target@].len() {
                    assert(q[target@].update(i as int, q[target@][i as int]) =~= q[target@]);
                    assert(q.insert(target@, q[target@]) =~= q);
                }
                assert(with_serial(q, target@, i as int, |m: Map<Seq<char>, Seq<char>>| sput(m, key@, opt_view(v))) == q);
            }
        },
    }
}

fn opt_str(o: &Option<String>) -> (r: Option<&str>)
    ensures
        opt_view(r) == opt_string_view(*o),
{
    match o {
        Some(x) => Some(x.as_str()),
        None => None,
    }
}

/// The netboot channel's strings written into `t0`.
pub open spec fn netboot_texts(t0: Map<Seq<Seq<char>>, Seq<char>>, n: Seq<char>, o: Option<NetbootChannel>) -> Map<Seq<Seq<char>>, Seq<char>> {
    match o {
        Some(c) => put(put(put(put(put(put(put(t0, chan(n, "netboot"@, "interface"@), opt_string_view(c.interface)), chan(n, "netboot"@, "host_ip"@), opt_string_view(c.host_ip)), chan(n, "netboot"@, "tftp_root"@), opt_string_view(c.tftp_root)), chan(n, "netboot"@, "boot_file"@), opt_string_view(c.boot_file)), chan(n, "netboot"@, "http_port"@), opt_string_view(c.http_port)), chan(n, "netboot"@, "content_type"@), opt_string_view(c.content_type)), chan(n, "netboot"@, "host"@), opt_string_view(c.host)),
        None => t0,
    }
}

/// The power channel's strings written into `t0`.
pub open spec fn power_texts(t0: Map<Seq<Seq<char>>, Seq<char>>, n: Seq<char>, o: Option<PowerChannel>) -> Map<Seq<Seq<char>>, Seq<char>> {
    match o {
        Some(c) => put(put(put(put(put(put(t0, chan(n, "power"@, "cycle_cmd"@), opt_string_view(c.cycle_cmd)), chan(n, "power"@, "on_cmd"@), opt_string_view(c.on_cmd)), chan(n, "power"@, "off_cmd"@), opt_string_view(c.off_cmd)), chan(n, "power"@, "state_cmd"@), opt_string_view(c.state_cmd)), chan(n, "power"@, "serial_interface"@), opt_string_view(c.serial_interface)), chan(n, "power"@, "host"@), opt_string_view(c.host)),
        None => t0,
    }
}

/// The video channel's strings written into `t0`.
pub open spec fn video_texts(t0: Map<Seq<Seq<char>>, Seq<char>>, n: Seq<char>, o: Option<VideoChannel>) -> Map<Seq<Seq<char>>, Seq<char>> {
    match o {
        Some(c) => put(put(put(t0, chan(n, "video"@, "device"@), opt_string_view(c.device)), chan(n, "video"@, "ocr_mode"@), opt_string_view(c.ocr_mode)), chan(n, "video"@, "host"@), opt_string_view(c.host)),
        None => t0,
    }
}

/// The hid channel's strings written into `t0`.
pub open spec fn hid_texts(t0: Map<Seq<Seq<char>>, Seq<char>>, n: Seq<char>, o: Option<HidChannel>) -> Map<Seq<Seq<char>>, Seq<char>> {
    match o {
        Some(c) => put(put(t0, chan(n, "hid"@, "cmd"@), opt_string_view(c.cmd)), chan(n, "hid"@, "host"@), opt_string_view(c.host)),
        None => t0,
    }
}

/// The adb channel's strings written into `t0`.
pub open spec fn adb_texts(t0: Map<Seq<Seq<char>>, Seq<char>>, n: Seq<char>, o: Option<AdbChannel>) -> Map<Seq<Seq<char>>, Seq<char>> {
    match o {
        Some(c) => put(put(put(t0, chan(n, "adb"@, "serial"@), opt_string_view(c.serial)), chan(n, "adb"@, "adb"@), opt_string_view(c.adb)), chan(n, "adb"@, "host"@), opt_string_view(c.host)),
        None => t0,
    }
}

/// The usb channel's strings written into `t0`.
pub open spec fn usb_texts(t0: Map<Seq<Seq<char>>, Seq<char>>, n: Seq<char>, o: Option<UsbChannel>) -> Map<Seq<Seq<char>>, Seq<char>> {
    match o {
        Some(c) => put(put(t0, chan(n, "usb"@, "cmd"@), opt_string_view(c.cmd)), chan(n, "usb"@, "host"@), opt_string_view(c.host)),
        None => t0,
    }
}

/// `m` with a standard table at `p` when `b` holds.
pub open spec fn table_if(m: Map<Seq<Seq<char>>, Shape>, b: bool, p: Seq<Seq<char>>) -> Map<Seq<Seq<char>>, Shape> {
    if b {
        m.insert(p, Shape::Standard)
    } else {
        m
    }
}

/// What stands in the document of the one-target lab `n` (`tg`): the
/// `targets` section, the target's table, and a table for each channel it
/// has (an array for its serial interfaces, when it has any).
pub open spec fn target_doc_shapes(n: Seq<char>, tg: Target) -> Map<Seq<Seq<char>>, Shape> {
    let base = Map::<Seq<Seq<char>>, Shape>::empty().insert(seq!["targets"@], Shape::Standard).insert(
        seq!["targets"@, n],
        Shape::Standard,
    );
    let a = table_if(base, tg.netboot is Some, seq!["targets"@, n, "netboot"@]);
    let b = table_if(a, tg.serial@.len() > 0, seq!["targets"@, n, "serial"@]);
    let c = table_if(b, tg.power is Some, seq!["targets"@, n, "power"@]);
    let d = table_if(c, tg.video is Some, seq!["targets"@, n, "video"@]);
    let e = table_if(d, tg.hid is Some, seq!["targets"@, n, "hid"@]);
    let f = table_if(e, tg.adb is Some, seq!["targets"@, n, "adb"@]);
    table_if(f, tg.usb is Some, seq!["targets"@, n, "usb"@])
}

/// The strings of that document: the target's host and description, then
/// each channel's fields.
pub open spec fn target_doc_texts(n: Seq<char>, tg: Target) -> Map<Seq<Seq<char>>, Seq<char>> {
    usb_texts(adb_texts(hid_texts(video_texts(power_texts(netboot_texts(put(put(Map::empty(),
        seq!["targets"@, n, "host"@], opt_string_view(tg.host)), seq!["targets"@, n, "description"@], opt_string_view(tg.description)), n,
        tg.netboot), n, tg.power), n, tg.video), n, tg.hid), n, tg.adb), n, tg.usb)
}

/// The string keys of a serial interface's table.
pub open spec fn serial_doc(s: SerialChannel) -> Map<Seq<char>, Seq<char>> {
    serial_strings(s.name@, s.device@, opt_string_view(s.power_sense_signal), opt_string_view(s.host))
}

/// That document's `[[serial]]` tables.
pub open spec fn target_doc_serials(n: Seq<char>, tg: Target) -> Map<Seq<char>, Seq<Map<Seq<char>, Seq<char>>>> {
    if tg.serial@.len() > 0 {
        Map::empty().insert(n, tg.serial@.map_values(|s: SerialChannel| serial_doc(s)))
    } else {
        Map::empty()
    }
}

/// The string keys left by the writes of [`write_serial`], in its order.
proof fn lemma_serial_written(
    name: Seq<char>,
    device: Seq<char>,
    sense: Option<Seq<char>>,
    power_button: bool,
    host: Option<Seq<char>>,
)
    ensures
        sput(
            drop_if(
                sput(Map::<Seq<char>, Seq<char>>::empty().insert("name"@, name).insert("device"@, device).remove("baud"@), "power_sense_signal"@, sense),
                "power_button"@,
                power_button,
            ),
            "host"@,
            host,
        ) == serial_strings(name, device, sense, host),
{
    reveal_strlit("name");
    reveal_strlit("device");
    reveal_strlit("baud");
    reveal_strlit("power_button");
    reveal_strlit("power_sense_signal");
    let m0 = Map::<Seq<char>, Seq<char>>::empty().insert("name"@, name).insert("device"@, device);
    assert("baud"@[0] != "name"@[0] && "baud"@[0] != "device"@[0]);
    assert(m0.remove("baud"@) =~= m0);
    let m1 = sput(m0, "power_sense_signal"@, sense);
    assert("power_button"@.len() != "name"@.len() && "power_button"@.len() != "device"@.len());
    assert("power_button"@[6] != "power_sense_signal"@[6]);
    assert(m1.remove("power_button"@) =~= m1);
}

/// Push a `[[serial]]` table onto `target`'s array and write into it the
/// interface's name, device, baud, power-sense signal, power-button flag and
/// host, in that order.
fn write_serial(
    doc: &mut DocumentMut,
    target: &str,
    name: &str,
    device: &str,
    baud: i64,
    sense: Option<&str>,
    power_button: bool,
    host: Option<&str>,
)
    requires
        doc_serials(*old(doc)).contains_key(target@),
    ensures
        doc_shapes(*final(doc)) == doc_shapes(*old(doc)),
        doc_texts(*final(doc)) == doc_texts(*old(doc)),
        doc_serials(*final(doc)) == doc_serials(*old(doc)).insert(
            target@,
            doc_serials(*old(doc))[target@].push(serial_strings(name@, device@, opt_view(sense), opt_view(host))),
        ),
{
    let ghost before = doc_serials(*doc)[target@];
    let q = serial_count(doc, "targets", target, "serial");
    push_serial(doc, "targets", target, "serial");
    let ghost mut cur = Map::<Seq<char>, Seq<char>>::empty();
    assert(doc_serials(*doc)[target@] == before.push(cur));
    set_serial_text(doc, "targets", target, "serial", q, "name", name);
    proof {
        cur = cur.insert("name"@, name@);
        assert(doc_serials(*doc)[target@] =~= before.push(cur));
    }
    set_serial_text(doc, "targets", target, "serial", q, "device", device);
    proof {
        cur = cur.insert("device"@, device@);
        assert(doc_serials(*doc)[target@] =~= before.push(cur));
    }
    set_serial_int(doc, "targets", target, "serial", q, "baud", baud);
    proof {
        cur = cur.remove("baud"@);
        assert(doc_serials(*doc)[target@] =~= before.push(cur));
    }
    doc_serial_opt(doc, target, q, "power_sense_signal", sense);
    proof {
        cur = sput(cur, "power_sense_signal"@, opt_view(sense));
        assert(doc_serials(*doc)[target@] =~= before.push(cur));
    }
    if power_button {
        set_serial_true(doc, "targets", target, "serial", q, "power_button");
    }
    proof {
        cur = drop_if(cur, "power_button"@, power_button);
        assert(doc_serials(*doc)[target@] =~= before.push(cur));
    }
    doc_serial_opt(doc, target, q, "host", host);
    proof {
        cur = sput(cur, "host"@, opt_view(host));
        assert(doc_serials(*doc)[target@] =~= before.push(cur));
        lemma_serial_written(name@, device@, opt_view(sense), power_button, opt_view(host));
        assert(doc_serials(*doc) =~= doc_serials(*old(doc)).insert(target@, before.push(cur)));
    }
}

/// Write target `name` (`t`) into a document holding only an empty
/// `targets` section: its table, its host and description, then each channel
/// (netboot, serial interfaces, power, video, hid, adb, usb).
fn write_target(doc: &mut DocumentMut, name: &str, t: &Target)
    requires
        doc_shapes(*old(doc)) == Map::<Seq<Seq<char>>, Shape>::empty().insert(seq!["targets"@], Shape::Standard),
        doc_texts(*old(doc)).dom().is_empty(),
        doc_serials(*old(doc)).dom().is_empty(),
    ensures
        doc_shapes(*final(doc)) == target_doc_shapes(name@, *t),
        doc_texts(*final(doc)) == target_doc_texts(name@, *t),
        doc_serials(*final(doc)) == target_doc_serials(name@, *t),
{
    proof {
        lemma_key_words();
        reveal_strlit("targets");
        assert(seq!["targets"@, name@].len() != seq!["targets"@].len());
    }
    insert_entry(doc, "targets", name);
    doc_entry_opt(doc, "targets", name, "host", opt_str(&t.host));
    doc_entry_opt(doc, "targets", name, "description", opt_str(&t.description));
    assert(doc_texts(*old(doc)) =~= Map::empty());
    if let Some(c) = &t.netboot {
        doc_channel_open(doc, name, "netboot");
        doc_channel_opt(doc, name, "netboot", "interface", opt_str(&c.interface));
        doc_channel_opt(doc, name, "netboot", "host_ip", opt_str(&c.host_ip));
        doc_channel_opt(doc, name, "netboot", "tftp_root", opt_str(&c.tftp_root));
        doc_channel_opt(doc, name, "netboot", "boot_file", opt_str(&c.boot_file));
        doc_channel_opt(doc, name, "netboot", "http_port", opt_str(&c.http_port));
        doc_channel_opt(doc, name, "netboot", "content_type", opt_str(&c.content_type));
        doc_channel_opt(doc, name, "netboot", "host", opt_str(&c.host));
    }
    assert(doc_serials(*doc) =~= Map::empty());
    assert(t.serial@.take(0).map_values(|s: SerialChannel| serial_doc(s)) =~= Seq::empty());
    if t.serial.len() > 0 {
        assert(seq!["targets"@, name@, "serial"@][2] != seq!["targets"@, name@, "netboot"@][2]);
        insert_serial_array(doc, "targets", name, "serial");
    }
    let ghost shapes = doc_shapes(*doc);
    let ghost texts = doc_texts(*doc);
    let mut q: usize = 0;
    while q < t.serial.len()
        invariant
            q <= t.serial.len(),
            doc_shapes(*doc) == shapes,
            doc_texts(*doc) == texts,
            doc_serials(*doc) == (if t.serial@.len() > 0 {
                Map::<Seq<char>, Seq<Map<Seq<char>, Seq<char>>>>::empty().insert(
                    name@,
                    t.serial@.take(q as int).map_values(|s: SerialChannel| serial_doc(s)),
                )
            } else {
                Map::empty()
            }),
        decreases t.serial.len() - q,
    {
        let s = &t.serial[q];
        write_serial(doc, name, s.name.as_str(), s.device.as_str(), s.baud, opt_str(&s.power_sense_signal), s.power_button, opt_str(&s.host));
        proof {
            assert(t.serial@.take(q + 1).map_values(|s: SerialChannel| serial_doc(s)) =~= t.serial@.take(
                q as int,
            ).map_values(|s: SerialChannel| serial_doc(s)).push(serial_doc(t.serial@[q as int])));
            assert(doc_serials(*doc) =~= Map::<Seq<char>, Seq<Map<Seq<char>, Seq<char>>>>::empty().insert(
                name@,
                t.serial@.take(q + 1).map_values(|s: SerialChannel| serial_doc(s)),
            ));
        }
        q += 1;
    }
    assert(t.serial@.take(t.serial@.len() as int) =~= t.serial@);
    if let Some(c) = &t.power {
        doc_channel_open(doc, name, "power");
        doc_channel_opt(doc, name, "power", "cycle_cmd", opt_str(&c.cycle_cmd));
        doc_channel_opt(doc, name, "power", "on_cmd", opt_str(&c.on_cmd));
        doc_channel_opt(doc, name, "power", "off_cmd", opt_str(&c.off_cmd));
        doc_channel_opt(doc, name, "power", "state_cmd", opt_str(&c.state_cmd));
        doc_channel_opt(doc, name, "power", "serial_interface", opt_str(&c.serial_interface));
        doc_channel_opt(doc, name, "power", "host", opt_str(&c.host));
    }
    if let Some(c) = &t.video {
        doc_channel_open(doc, name, "video");
        doc_channel_opt(doc, name, "video", "device", opt_str(&c.device));
        doc_channel_opt(doc, name, "video", "ocr_mode", opt_str(&c.ocr_mode));
        doc_channel_opt(doc, name, "video", "host", opt_str(&c.host));
    }
    if let Some(c) = &t.hid {
        doc_channel_open(doc, name, "hid");
        doc_channel_opt(doc, name, "hid", "cmd", opt_str(&c.cmd));
        doc_channel_opt(doc, name, "hid", "host", opt_str(&c.host));
    }
    if let Some(c) = &t.adb {
        doc_channel_open(doc, name, "adb");
        doc_channel_opt(doc, name, "adb", "serial", opt_str(&c.serial));
        doc_channel_opt(doc, name, "adb", "adb", opt_str(&c.adb));
        doc_channel_opt(doc, name, "adb", "host", opt_str(&c.host));
    }
    if let Some(c) = &t.usb {
        doc_channel_open(doc, name, "usb");
        doc_channel_opt(doc, name, "usb", "cmd", opt_str(&c.cmd));
        doc_channel_opt(doc, name, "usb", "host", opt_str(&c.host));
    }
}

/// The header comment a freshly created lab file starts with.
pub open spec fn header_line() -> Seq<char> {
    "# paniolo lab \u{2014} managed by the `paniolo` CLI; hand-edits are preserved\n\n"@
}

/// The saved text: the rendered document, with the header comment put on
/// top when asked for and the text does not already begin (after leading
/// whitespace) with a comment.
pub open spec fn headed(header: bool, text: Seq<char>) -> Seq<char> {
    if header && !starts_with(trim_start(text), "#"@) {
        header_line() + text
    } else {
        text
    }
}

proof fn lemma_trim_start_skip(s: Seq<char>, i: int)
    requires
        0 <= i <= s.len(),
        forall|k: int| 0 <= k < i ==> is_space(#[trigger] s[k]),
    ensures
        trim_start(s) == trim_start(s.subrange(i, s.len() as int)),
    decreases i,
{
    if i > 0 {
        assert(s.drop_first().subrange(i - 1, s.drop_first().len() as int) =~= s.subrange(i, s.len() as int));
        assert forall|k: int| 0 <= k < i - 1 implies is_space(#[trigger] s.drop_first()[k]) by {
            assert(s.drop_first()[k] == s[k + 1]);
        }
        lemma_trim_start_skip(s.drop_first(), i - 1);
    } else {
        assert(s.subrange(0, s.len() as int) =~= s);
    }
}

/// [`headed`], on the rendered text.
pub fn headed_text(header: bool, rendered: &str) -> (r: String)
    ensures
        r@ == headed(header, rendered@),
{
    if !header {
        return owned(rendered);
    }
    let v = chars_of(rendered);
    let mut i: usize = 0;
    while i < v.len() && space(v[i])
        invariant
            i <= v.len(),
            v@ == rendered@,
            forall|k: int| 0 <= k < i ==> is_space(#[trigger] v@[k]),
        decreases v.len() - i,
    {
        i += 1;
    }
    let ghost rest = v@.subrange(i as int, v.len() as int);
    proof {
        lemma_trim_start_skip(v@, i as int);
        reveal_strlit("#");
        if rest.len() > 0 {
            assert(rest[0] == v@[i as int]);
            assert(!is_space(rest[0]));
        }
        assert(trim_start(rest) == rest);
    }
    if i < v.len() && v[i] == '#' {
        assert(starts_with(trim_start(rendered@), "#"@)) by {
            assert(v@.subrange(i as int, v.len() as int).take(1) =~= "#"@);
        }
        owned(rendered)
    } else {
        assert(!starts_with(trim_start(rendered@), "#"@)) by {
            reveal_strlit("#");
            if rest.len() > 0 {
                assert(rest.subrange(0, 1)[0] == rest[0]);
                assert(rest[0] == v@[i as int]);
            }
        }
        let mut out = owned("# paniolo lab \u{2014} managed by the `paniolo` CLI; hand-edits are preserved\n\n");
        push_str(&mut out, rendered);
        out
    }
}

/// `h` holds exactly these fields.
pub open spec fn host_is(
    h: Host,
    ssh: Seq<char>,
    description: Option<Seq<char>>,
    hostname: Option<Seq<char>>,
    identity: Option<Seq<char>>,
    control_path: Option<Seq<char>>,
    paniolo_cmd: Option<Seq<char>>,
) -> bool {
    &&& h.ssh@ == ssh
    &&& opt_string_view(h.description) == description
    &&& opt_string_view(h.hostname) == hostname
    &&& opt_string_view(h.identity) == identity
    &&& opt_string_view(h.control_path) == control_path
    &&& opt_string_view(h.paniolo_cmd) == paniolo_cmd
}

/// Whether target `t` uses host `h`: as its own host or a channel's.
pub open spec fn uses_host(t: Target, h: Seq<char>) -> bool {
    t.default_host_spec() == h || exists|j: int|
        0 <= j < resolved_channels(t).len() && (#[trigger] resolved_channels(t)[j]).host == h
}

/// The targets that use host `h`, in lab order.
pub open spec fn host_users(targets: Seq<(String, Target)>, h: Seq<char>) -> Seq<Seq<char>> {
    targets.filter(|e: (String, Target)| uses_host(e.1, h)).map_values(|e: (String, Target)| e.0@)
}

#[verifier::rlimit(40)]
fn target_uses(t: &Target, h: &str) -> (r: bool)
    ensures
        r == uses_host(*t, h@),
{
    let rt = crate::model::resolve("", t);
    if same(rt.default_host.as_str(), h) {
        return true;
    }
    let mut j: usize = 0;
    while j < rt.channels.len()
        invariant
            j <= rt.channels.len(),
            crate::model::channel_views(rt.channels@) == resolved_channels(*t),
            forall|k: int| 0 <= k < j ==> (#[trigger] resolved_channels(*t)[k]).host != h@,
        decreases rt.channels.len() - j,
    {
        assert(resolved_channels(*t)[j as int] == rt.channels@[j as int].view());
        if same(rt.channels[j].host.as_str(), h) {
            return true;
        }
        j += 1;
    }
    false
}

/// A target with only its own host and description.
pub open spec fn bare_target(t: Target, host: Option<Seq<char>>, description: Option<Seq<char>>) -> bool {
    &&& opt_string_view(t.host) == host
    &&& opt_string_view(t.description) == description
    &&& t.netboot is None
    &&& t.serial@.len() == 0
    &&& t.power is None
    &&& t.video is None
    &&& t.hid is None
    &&& t.usb is None
    &&& t.adb is None
}

/// `new` is `old` with target `i` replaced by `t`, its name and the hosts
/// unchanged.
pub open spec fn target_replaced(old: Lab, new: Lab, i: int, t: Target) -> bool {
    &&& new.hosts == old.hosts
    &&& 0 <= i < old.targets@.len()
    &&& new.targets@ == old.targets@.update(i, (old.targets@[i].0, t))
}

/// Where the target named `name` is, when the lab has one.
pub open spec fn target_at(lab: Lab, name: Seq<char>) -> Option<int> {
    first_index(lab.target_keys(), name)
}

/// Serial interface `s` holds exactly these fields.
pub open spec fn serial_is(
    s: SerialChannel,
    name: Seq<char>,
    device: Seq<char>,
    baud: i64,
    sense: Option<Seq<char>>,
    power_button: bool,
    host: Option<Seq<char>>,
) -> bool {
    &&& s.name@ == name
    &&& s.device@ == device
    &&& s.baud == baud
    &&& opt_string_view(s.power_sense_signal) == sense
    &&& s.power_button == power_button
    &&& opt_string_view(s.host) == host
}

/// The first of `serials` named `n`.
pub open spec fn serial_at(serials: Seq<SerialChannel>, n: Seq<char>) -> Option<int> {
    first_index(serials.map_values(|s: SerialChannel| s.name@), n)
}

/// `target` exists and has serial interface `name`.
pub open spec fn has_serial(lab: Lab, target: Seq<char>, name: Seq<char>) -> bool {
    match target_at(lab, target) {
        Some(i) => serial_at(lab.targets@[i].1.serial@, name) is Some,
        None => false,
    }
}

pub open spec fn serial_exists_text(target: Seq<char>, name: Seq<char>) -> Seq<char> {
    "target '"@ + target + "': serial '"@ + name + "' already exists"@
}

pub open spec fn no_serial_text(target: Seq<char>, name: Seq<char>) -> Seq<char> {
    "target '"@ + target + "': no serial '"@ + name + "'"@
}

pub open spec fn no_channel_text(target: Seq<char>, kind: Seq<char>) -> Seq<char> {
    "target '"@ + target + "': no "@ + kind + " channel"@
}

/// A channel's fields before an edit: the channel's, or none at all.
pub open spec fn netboot_or_empty(o: Option<NetbootChannel>) -> NetbootChannel {
    match o {
        Some(c) => c,
        None => NetbootChannel {
            interface: None,
            host_ip: None,
            tftp_root: None,
            boot_file: None,
            http_port: None,
            content_type: None,
            host: None,
        },
    }
}

pub open spec fn power_or_empty(o: Option<PowerChannel>) -> PowerChannel {
    match o {
        Some(c) => c,
        None => PowerChannel {
            cycle_cmd: None,
            on_cmd: None,
            off_cmd: None,
            state_cmd: None,
            serial_interface: None,
            host: None,
        },
    }
}

pub open spec fn video_or_empty(o: Option<VideoChannel>) -> VideoChannel {
    match o {
        Some(c) => c,
        None => VideoChannel { device: None, host: None, ocr_mode: None },
    }
}

pub open spec fn hid_or_empty(o: Option<HidChannel>) -> HidChannel {
    match o {
        Some(c) => c,
        None => HidChannel { cmd: None, host: None },
    }
}

pub open spec fn usb_or_empty(o: Option<UsbChannel>) -> UsbChannel {
    match o {
        Some(c) => c,
        None => UsbChannel { cmd: None, host: None },
    }
}

pub open spec fn adb_or_empty(o: Option<AdbChannel>) -> AdbChannel {
    match o {
        Some(c) => c,
        None => AdbChannel { serial: None, adb: None, host: None },
    }
}

fn serial_index(serials: &Vec<SerialChannel>, name: &str) -> (r: Option<usize>)
    ensures
        r matches Some(x) ==> serial_at(serials@, name@) == Some(x as int) && x < serials@.len(),
        r is None ==> serial_at(serials@, name@) is None,
{
    let ghost names = serials@.map_values(|s: SerialChannel| s.name@);
    proof {
        lemma_first_index(names, name@);
    }
    let mut j: usize = 0;
    while j < serials.len()
        invariant
            j <= serials.len(),
            names == serials@.map_values(|s: SerialChannel| s.name@),
            forall|k: int| 0 <= k < j ==> names[k] != name@,
        decreases serials.len() - j,
    {
        if same(serials[j].name.as_str(), name) {
            proof {
                crate::model::lemma_first_index_at(names, name@, j as int);
            }
            return Some(j);
        }
        j += 1;
    }
    None
}

// ── the document and the lab agree ─────────────────────────────────────────

/// The entries of section `s` that are standard tables are exactly `keys`.
pub open spec fn names_held(m: Map<Seq<Seq<char>>, Shape>, s: Seq<char>, keys: Seq<Seq<char>>) -> bool {
    forall|k: Seq<char>|
        #![trigger entry_shape_of(m, s, k)]
        #![trigger keys.contains(k)]
        entry_shape_of(m, s, k) == Shape::Standard <==> keys.contains(k)
}

/// The `[[serial]]` tables `ds` name, one for one and in order, the serial
/// interfaces `ls`.
pub open spec fn serials_named(ds: Seq<Map<Seq<char>, Seq<char>>>, ls: Seq<SerialChannel>) -> bool {
    &&& ds.len() == ls.len()
    &&& forall|j: int|
        #![trigger ds[j]]
        #![trigger ls[j]]
        0 <= j < ls.len() ==> ds[j].contains_key("name"@) && ds[j]["name"@] == ls[j].name@
}

/// The document holds exactly the lab's hosts and targets, each as a
/// standard table, and for each target a table for exactly the channels it
/// has and its serial interfaces, by name and in order.
pub open spec fn doc_agrees(lab: Lab, doc: DocumentMut) -> bool {
    &&& names_held(doc_shapes(doc), "hosts"@, lab.host_keys())
    &&& names_held(doc_shapes(doc), "targets"@, lab.target_keys())
    &&& forall|i: int|
        #![trigger lab.targets@[i]]
        0 <= i < lab.targets@.len() ==> target_held(doc, lab.targets@[i].0@, lab.targets@[i].1)
}

/// Where target `n`'s channel table of `kind` stands.
pub open spec fn table_path(n: Seq<char>, kind: Seq<char>) -> Seq<Seq<char>> {
    seq!["targets"@, n, kind]
}

/// Whether target `t` has a channel of `kind` (for `serial`: any serial
/// interface).
pub open spec fn has_kind(t: Target, kind: Seq<char>) -> bool {
    if kind == "netboot"@ {
        t.netboot is Some
    } else if kind == "serial"@ {
        t.serial@.len() > 0
    } else if kind == "power"@ {
        t.power is Some
    } else if kind == "video"@ {
        t.video is Some
    } else if kind == "hid"@ {
        t.hid is Some
    } else if kind == "usb"@ {
        t.usb is Some
    } else {
        t.adb is Some
    }
}

/// The channel tables of target `n` standing in `m` are exactly those of
/// the channels `t` has.
pub open spec fn tables_held(m: Map<Seq<Seq<char>>, Shape>, n: Seq<char>, t: Target) -> bool {
    forall|kind: Seq<char>|
        #![trigger shape_at(m, table_path(n, kind))]
        #![trigger has_kind(t, kind)]
        is_kind(kind) ==> (shape_at(m, table_path(n, kind)) == Shape::Standard <==> has_kind(t, kind))
}

/// The document holds target `n` (`t`): its channel tables and its serial
/// interfaces by name.
pub open spec fn target_held(doc: DocumentMut, n: Seq<char>, t: Target) -> bool {
    &&& tables_held(doc_shapes(doc), n, t)
    &&& serials_named(serials_of(doc_serials(doc), n), t.serial@)
}

/// The channel kinds are distinct words.
proof fn lemma_kinds_distinct()
    ensures
        "netboot"@ != "serial"@ && "netboot"@ != "power"@ && "netboot"@ != "video"@ && "netboot"@ != "hid"@
            && "netboot"@ != "usb"@ && "netboot"@ != "adb"@,
        "serial"@ != "power"@ && "serial"@ != "video"@ && "serial"@ != "hid"@ && "serial"@ != "usb"@
            && "serial"@ != "adb"@,
        "power"@ != "video"@ && "power"@ != "hid"@ && "power"@ != "usb"@ && "power"@ != "adb"@,
        "video"@ != "hid"@ && "video"@ != "usb"@ && "video"@ != "adb"@,
        "hid"@ != "usb"@ && "hid"@ != "adb"@ && "usb"@ != "adb"@,
{
    reveal_strlit("netboot");
    reveal_strlit("serial");
    reveal_strlit("power");
    reveal_strlit("video");
    reveal_strlit("hid");
    reveal_strlit("usb");
    reveal_strlit("adb");
    assert("netboot"@.len() == 7 && "serial"@.len() == 6 && "power"@.len() == 5 && "video"@.len() == 5);
    assert("hid"@.len() == 3 && "usb"@.len() == 3 && "adb"@.len() == 3);
    assert("power"@[0] != "video"@[0]);
    assert("hid"@[0] != "usb"@[0] && "hid"@[0] != "adb"@[0] && "usb"@[0] != "adb"@[0]);
}

/// A target keeps its channel tables held when it keeps which channels it has.
proof fn lemma_tables_same(m: Map<Seq<Seq<char>>, Shape>, n: Seq<char>, t0: Target, t1: Target)
    requires
        tables_held(m, n, t0),
        forall|y: Seq<char>| is_kind(y) ==> #[trigger] has_kind(t1, y) == has_kind(t0, y),
    ensures
        tables_held(m, n, t1),
{
}

/// A channel table of `kind` made for target `n`, which now has that channel.
proof fn lemma_tables_set(m0: Map<Seq<Seq<char>>, Shape>, n: Seq<char>, t0: Target, t1: Target, kind: Seq<char>)
    requires
        tables_held(m0, n, t0),
        has_kind(t1, kind),
        forall|y: Seq<char>| is_kind(y) && y != kind ==> #[trigger] has_kind(t1, y) == has_kind(t0, y),
    ensures
        tables_held(m0.insert(table_path(n, kind), Shape::Standard), n, t1),
        forall|n2: Seq<char>, y: Seq<char>| n2 != n ==> #[trigger] shape_at(m0.insert(table_path(n, kind), Shape::Standard), table_path(n2, y))
            == shape_at(m0, table_path(n2, y)),
{
    let m1 = m0.insert(table_path(n, kind), Shape::Standard);
    assert forall|y: Seq<char>| is_kind(y) implies (#[trigger] shape_at(m1, table_path(n, y)) == Shape::Standard <==> has_kind(t1, y)) by {
        if y != kind {
            assert(table_path(n, y)[2] != table_path(n, kind)[2]);
            assert(shape_at(m0, table_path(n, y)) == Shape::Standard <==> has_kind(t0, y));
        }
    }
    assert forall|n2: Seq<char>, y: Seq<char>| n2 != n implies #[trigger] shape_at(m1, table_path(n2, y)) == shape_at(m0, table_path(n2, y)) by {
        assert(table_path(n2, y)[1] != table_path(n, kind)[1]);
    }
}

/// Target `n`'s channel table of `kind` taken out, the target no longer
/// having that channel.
proof fn lemma_tables_drop(m0: Map<Seq<Seq<char>>, Shape>, n: Seq<char>, t0: Target, t1: Target, kind: Seq<char>)
    requires
        tables_held(m0, n, t0),
        !has_kind(t1, kind),
        forall|y: Seq<char>| is_kind(y) && y != kind ==> #[trigger] has_kind(t1, y) == has_kind(t0, y),
    ensures
        tables_held(drop_under(m0, table_path(n, kind)), n, t1),
        forall|n2: Seq<char>, y: Seq<char>| n2 != n ==> #[trigger] shape_at(drop_under(m0, table_path(n, kind)), table_path(n2, y))
            == shape_at(m0, table_path(n2, y)),
{
    let q = table_path(n, kind);
    let m1 = drop_under(m0, q);
    assert forall|y: Seq<char>| is_kind(y) implies (#[trigger] shape_at(m1, table_path(n, y)) == Shape::Standard <==> has_kind(t1, y)) by {
        assert(table_path(n, y).take(3) =~= table_path(n, y));
        if y != kind {
            assert(table_path(n, y)[2] != q[2]);
            assert(shape_at(m0, table_path(n, y)) == Shape::Standard <==> has_kind(t0, y));
        }
    }
    assert forall|n2: Seq<char>, y: Seq<char>| n2 != n implies #[trigger] shape_at(m1, table_path(n2, y)) == shape_at(m0, table_path(n2, y)) by {
        assert(table_path(n2, y).take(3) =~= table_path(n2, y));
        assert(table_path(n2, y)[1] != q[1]);
    }
}

proof fn lemma_deep_insert(m: Map<Seq<Seq<char>>, Shape>, q: Seq<Seq<char>>, v: Shape)
    requires
        q.len() == 3,
    ensures
        forall|p: Seq<Seq<char>>| p.len() < 3 ==> #[trigger] shape_at(m.insert(q, v), p) == shape_at(m, p),
{
}

proof fn lemma_deep_drop(m: Map<Seq<Seq<char>>, Shape>, q: Seq<Seq<char>>)
    requires
        q.len() == 3,
    ensures
        forall|p: Seq<Seq<char>>| p.len() < 3 ==> #[trigger] shape_at(drop_under(m, q), p) == shape_at(m, p),
{
}

/// Agreement survives a change that leaves the document's sections and
/// entries and the lab's names as they were, and keeps each target's serial
/// interfaces named by the document.
proof fn lemma_agrees_kept(lab0: Lab, lab1: Lab, d0: DocumentMut, d1: DocumentMut)
    requires
        doc_agrees(lab0, d0),
        forall|p: Seq<Seq<char>>| p.len() < 3 ==> #[trigger] shape_at(doc_shapes(d1), p) == shape_at(doc_shapes(d0), p),
        lab1.host_keys() == lab0.host_keys(),
        lab1.target_keys() == lab0.target_keys(),
        forall|i: int|
            #![trigger lab1.targets@[i]]
            0 <= i < lab1.targets@.len() ==> target_held(d1, lab1.targets@[i].0@, lab1.targets@[i].1),
    ensures
        doc_agrees(lab1, d1),
{
    assert forall|s: Seq<char>, k: Seq<char>| #[trigger] entry_shape_of(doc_shapes(d1), s, k) == entry_shape_of(doc_shapes(d0), s, k) by {
        assert(shape_at(doc_shapes(d1), seq![s]) == shape_at(doc_shapes(d0), seq![s]));
        assert(shape_at(doc_shapes(d1), seq![s, k]) == shape_at(doc_shapes(d0), seq![s, k]));
    }
}

/// Agreement survives a change of one target that keeps its serial
/// interfaces, its name and the document's sections, entries and serial
/// tables.
proof fn lemma_agrees_channel(lab0: Lab, lab1: Lab, d0: DocumentMut, d1: DocumentMut, i: int, t: Target)
    requires
        lab0.well_keyed(),
        doc_agrees(lab0, d0),
        target_replaced(lab0, lab1, i, t),
        t.serial == lab0.targets@[i].1.serial,
        doc_serials(d1) == doc_serials(d0),
        forall|p: Seq<Seq<char>>| p.len() < 3 ==> #[trigger] shape_at(doc_shapes(d1), p) == shape_at(doc_shapes(d0), p),
        forall|n2: Seq<char>, y: Seq<char>| n2 != lab0.targets@[i].0@ ==> #[trigger] shape_at(doc_shapes(d1), table_path(n2, y))
            == shape_at(doc_shapes(d0), table_path(n2, y)),
        tables_held(doc_shapes(d1), lab0.targets@[i].0@, t),
    ensures
        doc_agrees(lab1, d1),
{
    lemma_replaced_keys(lab0, lab1, i, t);
    assert forall|j: int| 0 <= j < lab1.targets@.len() implies target_held(
        d1,
        #[trigger] lab1.targets@[j].0@,
        lab1.targets@[j].1,
    ) by {
        assert(lab0.targets@[j].0 == lab1.targets@[j].0);
        if j != i {
            assert(lab1.targets@[j] == lab0.targets@[j]);
            assert(lab0.target_keys()[j] == lab0.targets@[j].0@);
            assert(lab0.target_keys()[i] == lab0.targets@[i].0@);
            lemma_sorted_distinct(lab0.target_keys(), j, i);
            assert(target_held(d0, lab0.targets@[j].0@, lab0.targets@[j].1));
        }
    }
    lemma_agrees_kept(lab0, lab1, d0, d1);
}

proof fn lemma_sorted_distinct(keys: Seq<Seq<char>>, a: int, b: int)
    requires
        sorted(keys),
        0 <= a < keys.len(),
        0 <= b < keys.len(),
        a != b,
    ensures
        keys[a] != keys[b],
{
    crate::text::lemma_lt_irreflexive(keys[a]);
}

proof fn lemma_keys_inserted<A>(old: Seq<(String, A)>, new: Seq<(String, A)>, p: int, name: Seq<char>)
    requires
        inserted_at(old, new, p),
        new[p].0@ == name,
    ensures
        forall|k: Seq<char>| #[trigger] entry_keys(new).contains(k) <==> entry_keys(old).contains(k) || k == name,
{
    assert forall|k: Seq<char>| #[trigger] entry_keys(new).contains(k) <==> entry_keys(old).contains(k) || k == name by {
        if entry_keys(new).contains(k) {
            let j = choose|j: int| 0 <= j < entry_keys(new).len() && entry_keys(new)[j] == k;
            if j < p {
                assert(entry_keys(old)[j] == k);
            } else if j > p {
                assert(entry_keys(old)[j - 1] == k);
            }
        }
        if entry_keys(old).contains(k) {
            let j = choose|j: int| 0 <= j < entry_keys(old).len() && entry_keys(old)[j] == k;
            if j < p {
                assert(entry_keys(new)[j] == k);
            } else {
                assert(entry_keys(new)[j + 1] == k);
            }
        }
        if k == name {
            assert(entry_keys(new)[p] == k);
        }
    }
}

proof fn lemma_keys_removed<A>(old: Seq<(String, A)>, i: int)
    requires
        sorted(entry_keys(old)),
        0 <= i < old.len(),
    ensures
        forall|k: Seq<char>| #[trigger] entry_keys(old.remove(i)).contains(k) <==> entry_keys(old).contains(k) && k != old[i].0@,
{
    let new = old.remove(i);
    assert forall|k: Seq<char>| #[trigger] entry_keys(new).contains(k) <==> entry_keys(old).contains(k) && k != old[i].0@ by {
        if entry_keys(new).contains(k) {
            let j = choose|j: int| 0 <= j < entry_keys(new).len() && entry_keys(new)[j] == k;
            let j0 = if j < i { j } else { j + 1 };
            assert(entry_keys(old)[j0] == k);
            lemma_sorted_distinct(entry_keys(old), j0, i);
        }
        if entry_keys(old).contains(k) && k != old[i].0@ {
            let j = choose|j: int| 0 <= j < entry_keys(old).len() && entry_keys(old)[j] == k;
            if j < i {
                assert(entry_keys(new)[j] == k);
            } else {
                assert(j != i);
                assert(entry_keys(new)[j - 1] == k);
            }
        }
    }
}

/// A section `s` with entry `name` added as a standard table (the section
/// itself made one where nothing stood).
proof fn lemma_names_add(
    m0: Map<Seq<Seq<char>>, Shape>,
    m1: Map<Seq<Seq<char>>, Shape>,
    s: Seq<char>,
    keys0: Seq<Seq<char>>,
    keys1: Seq<Seq<char>>,
    name: Seq<char>,
)
    requires
        names_held(m0, s, keys0),
        shape_at(m0, seq![s]) != Shape::Other,
        shape_at(m0, seq![s]) == Shape::Absent ==> forall|p: Seq<Seq<char>>| #[trigger] m0.contains_key(p) ==> !has_prefix(p, seq![s]),
        m1 == m0.insert(seq![s], Shape::Standard).insert(seq![s, name], Shape::Standard),
        forall|k: Seq<char>| #[trigger] keys1.contains(k) <==> keys0.contains(k) || k == name,
    ensures
        names_held(m1, s, keys1),
        forall|s2: Seq<char>, k: Seq<char>| s2 != s ==> #[trigger] entry_shape_of(m1, s2, k) == entry_shape_of(m0, s2, k),
{
    assert forall|k: Seq<char>| #[trigger] entry_shape_of(m1, s, k) == Shape::Standard <==> keys1.contains(k) by {
        assert(seq![s, k].take(1) =~= seq![s]);
        assert(keys0.contains(k) <==> entry_shape_of(m0, s, k) == Shape::Standard);
    }
    assert forall|s2: Seq<char>, k: Seq<char>| s2 != s implies #[trigger] entry_shape_of(m1, s2, k) == entry_shape_of(m0, s2, k) by {
        assert(seq![s2][0] != seq![s][0]);
        assert(seq![s2, k][0] != seq![s, name][0]);
    }
}

/// A section `s` with entry `name` taken out, with all it held.
proof fn lemma_names_drop(
    m0: Map<Seq<Seq<char>>, Shape>,
    m1: Map<Seq<Seq<char>>, Shape>,
    s: Seq<char>,
    keys0: Seq<Seq<char>>,
    keys1: Seq<Seq<char>>,
    name: Seq<char>,
)
    requires
        names_held(m0, s, keys0),
        m1 == drop_under(m0, seq![s, name]),
        forall|k: Seq<char>| #[trigger] keys1.contains(k) <==> keys0.contains(k) && k != name,
    ensures
        names_held(m1, s, keys1),
        forall|s2: Seq<char>, k: Seq<char>| s2 != s ==> #[trigger] entry_shape_of(m1, s2, k) == entry_shape_of(m0, s2, k),
{
    assert forall|k: Seq<char>| #[trigger] entry_shape_of(m1, s, k) == Shape::Standard <==> keys1.contains(k) by {
        assert(seq![s, k].take(2) =~= seq![s, k]);
        assert(keys0.contains(k) <==> entry_shape_of(m0, s, k) == Shape::Standard);
        assert(!has_prefix(seq![s], seq![s, name]));
    }
    assert forall|s2: Seq<char>, k: Seq<char>| s2 != s implies #[trigger] entry_shape_of(m1, s2, k) == entry_shape_of(m0, s2, k) by {
        assert(!has_prefix(seq![s2], seq![s, name]));
        assert(seq![s2, k].take(2) =~= seq![s2, k]);
        assert(seq![s2, k][0] != seq![s, name][0]);
    }
}

/// A section `s` with entry `a` moved, with all it held, to `b`.
proof fn lemma_names_move(
    m0: Map<Seq<Seq<char>>, Shape>,
    m1: Map<Seq<Seq<char>>, Shape>,
    s: Seq<char>,
    keys0: Seq<Seq<char>>,
    keys1: Seq<Seq<char>>,
    a: Seq<char>,
    b: Seq<char>,
)
    requires
        names_held(m0, s, keys0),
        keys0.contains(a),
        shape_at(m0, seq![s, b]) == Shape::Absent,
        a != b,
        m1 == move_under(m0, seq![s, a], seq![s, b]),
        forall|k: Seq<char>| #[trigger] keys1.contains(k) <==> (keys0.contains(k) && k != a) || k == b,
    ensures
        names_held(m1, s, keys1),
        forall|s2: Seq<char>, k: Seq<char>| s2 != s ==> #[trigger] entry_shape_of(m1, s2, k) == entry_shape_of(m0, s2, k),
{
    assert(entry_shape_of(m0, s, a) == Shape::Standard);
    assert(!has_prefix(seq![s], seq![s, a]) && !has_prefix(seq![s], seq![s, b]));
    assert(shape_at(m1, seq![s]) == shape_at(m0, seq![s]));
    assert forall|k: Seq<char>| #[trigger] entry_shape_of(m1, s, k) == Shape::Standard <==> keys1.contains(k) by {
        assert(seq![s, k].take(2) =~= seq![s, k]);
        assert(seq![s, a] + seq![s, k].skip(2) =~= seq![s, a]);
        assert(keys0.contains(k) <==> entry_shape_of(m0, s, k) == Shape::Standard);
    }
    assert forall|s2: Seq<char>, k: Seq<char>| s2 != s implies #[trigger] entry_shape_of(m1, s2, k) == entry_shape_of(m0, s2, k) by {
        assert(!has_prefix(seq![s2], seq![s, a]) && !has_prefix(seq![s2], seq![s, b]));
        assert(seq![s2, k].take(2) =~= seq![s2, k]);
        assert(seq![s2, k][0] != seq![s, a][0]);
    }
}

/// Agreement survives a change of one target's serial interfaces that the
/// document's serial tables follow, leaving its sections and entries and
/// every other target's serial tables as they were.
proof fn lemma_agrees_serials(lab0: Lab, lab1: Lab, d0: DocumentMut, d1: DocumentMut, i: int, t: Target)
    requires
        lab0.well_keyed(),
        doc_agrees(lab0, d0),
        target_replaced(lab0, lab1, i, t),
        forall|p: Seq<Seq<char>>| p.len() < 3 ==> #[trigger] shape_at(doc_shapes(d1), p) == shape_at(doc_shapes(d0), p),
        forall|n2: Seq<char>, y: Seq<char>| n2 != lab0.targets@[i].0@ ==> #[trigger] shape_at(doc_shapes(d1), table_path(n2, y))
            == shape_at(doc_shapes(d0), table_path(n2, y)),
        forall|k: Seq<char>| k != lab0.targets@[i].0@ ==> #[trigger] serials_of(doc_serials(d1), k) == serials_of(doc_serials(d0), k),
        target_held(d1, lab0.targets@[i].0@, t),
    ensures
        doc_agrees(lab1, d1),
{
    lemma_replaced_keys(lab0, lab1, i, t);
    assert forall|j: int| 0 <= j < lab1.targets@.len() implies target_held(
        d1,
        #[trigger] lab1.targets@[j].0@,
        lab1.targets@[j].1,
    ) by {
        assert(lab0.targets@[j].0 == lab1.targets@[j].0);
        if j != i {
            assert(lab1.targets@[j] == lab0.targets@[j]);
            assert(lab0.target_keys()[j] == lab0.targets@[j].0@);
            assert(lab0.target_keys()[i] == lab0.targets@[i].0@);
            lemma_sorted_distinct(lab0.target_keys(), j, i);
            assert(target_held(d0, lab0.targets@[j].0@, lab0.targets@[j].1));
        }
    }
    lemma_agrees_kept(lab0, lab1, d0, d1);
}

proof fn lemma_serial_strings_name(name: Seq<char>, device: Seq<char>, sense: Option<Seq<char>>, host: Option<Seq<char>>)
    ensures
        serial_strings(name, device, sense, host).contains_key("name"@),
        serial_strings(name, device, sense, host)["name"@] == name,
{
    reveal_strlit("name");
    reveal_strlit("device");
    reveal_strlit("power_sense_signal");
    reveal_strlit("host");
    assert("name"@.len() != "device"@.len() && "name"@.len() != "power_sense_signal"@.len());
    assert("name"@[0] != "host"@[0]);
}

proof fn lemma_serial_updated_name(
    m: Map<Seq<char>, Seq<char>>,
    device: Option<Seq<char>>,
    baud: bool,
    sense: Option<Seq<char>>,
    power_button: bool,
    host: Option<Seq<char>>,
)
    requires
        m.contains_key("name"@),
    ensures
        serial_updated(m, device, baud, sense, power_button, host).contains_key("name"@),
        serial_updated(m, device, baud, sense, power_button, host)["name"@] == m["name"@],
{
    reveal_strlit("name");
    reveal_strlit("device");
    reveal_strlit("baud");
    reveal_strlit("power_sense_signal");
    reveal_strlit("power_button");
    reveal_strlit("host");
    assert("name"@.len() != "device"@.len() && "name"@.len() != "power_sense_signal"@.len());
    assert("name"@.len() != "power_button"@.len());
    assert("name"@[0] != "host"@[0] && "name"@[0] != "baud"@[0]);
}

impl LabFile {
    /// A new, empty lab, saved with the header comment on top.
    pub fn create() -> (r: Self)
        ensures
            r.lab.hosts@.len() == 0,
            r.lab.targets@.len() == 0,
            r.header,
            r.lab.well_keyed(),
            doc_agrees(r.lab, r.doc),
            doc_shapes(r.doc) == Map::<Seq<Seq<char>>, Shape>::empty(),
            doc_texts(r.doc) == Map::<Seq<Seq<char>>, Seq<char>>::empty(),
            doc_serials(r.doc).dom().is_empty(),
    {
        let r = LabFile { lab: Lab { hosts: Vec::new(), targets: Vec::new() }, doc: new_document(), header: true };
        proof {
            assert(doc_texts(r.doc) =~= Map::empty());
            assert(doc_shapes(r.doc) =~= Map::empty());
            assert(r.lab.host_keys() =~= Seq::empty());
            assert(r.lab.target_keys() =~= Seq::empty());
        }
        r
    }

    /// Open the lab file whose text is `text` and whose typed reading is
    /// `lab`: refused when `toml_edit` does not accept the text (its
    /// message), then when the lab is not valid (the first problem).
    pub fn open(text: &str, lab: Lab) -> (r: Result<LabFile, LabError>)
        ensures
            match toml_parse(text@) {
                Err(m) => r matches Err(e) && e.0@ == m,
                Ok(c) => match lab_problem(lab) {
                    Some(m) => r matches Err(e) && e.0@ == m,
                    None => r matches Ok(f) && f.lab == lab && !f.header && (doc_shapes(f.doc), doc_texts(f.doc),
                        doc_serials(f.doc)) == c,
                },
            },
    {
        let doc = match parse_document(text) {
            Ok(d) => d,
            Err(m) => return Err(LabError(m)),
        };
        match validate(&lab) {
            Err(e) => Err(e),
            Ok(()) => Ok(LabFile { lab, doc, header: false }),
        }
    }

    /// A lab file holding only target `name` (`t`), as a slice is shipped:
    /// its document written afresh — the `targets` section, the target's
    /// table with its host and description, then each channel (netboot,
    /// serial interfaces, power, video, hid, adb, usb) — and saved without a
    /// header.
    pub fn for_target(name: &str, t: Target) -> (r: LabFile)
        ensures
            r.lab.hosts@.len() == 0,
            r.lab.targets@.len() == 1,
            r.lab.targets@[0].0@ == name@,
            r.lab.targets@[0].1 == t,
            !r.header,
            doc_shapes(r.doc) == target_doc_shapes(name@, t),
            doc_texts(r.doc) == target_doc_texts(name@, t),
            doc_serials(r.doc) == target_doc_serials(name@, t),
            r.lab.well_keyed(),
            doc_agrees(r.lab, r.doc),
    {
        let mut doc = new_document();
        assert(doc_shapes(doc) =~= Map::empty());
        insert_section(&mut doc, "targets");
        write_target(&mut doc, name, &t);
        let mut targets: Vec<(String, Target)> = Vec::new();
        targets.push((owned(name), t));
        let r = LabFile { lab: Lab { hosts: Vec::new(), targets }, doc, header: false };
        proof {
            let n = name@;
            let tg = r.lab.targets@[0].1;
            let m = doc_shapes(r.doc);
            assert(r.lab.host_keys() =~= Seq::empty());
            assert(r.lab.target_keys() =~= seq![n]);
            assert(shape_at(m, seq!["targets"@]) == Shape::Standard);
            assert forall|k: Seq<char>| #[trigger] entry_shape_of(m, "targets"@, k) == Shape::Standard <==> r.lab.target_keys().contains(k) by {
                assert(seq![n][0] == n);
                if entry_shape_of(m, "targets"@, k) == Shape::Standard {
                    assert(seq!["targets"@, k] == seq!["targets"@, n]);
                    assert(seq!["targets"@, k][1] == k);
                }
            }
            assert forall|k: Seq<char>| #[trigger] entry_shape_of(m, "hosts"@, k) != Shape::Standard by {
                lemma_key_words();
                assert(seq!["hosts"@][0] == "hosts"@ && seq!["targets"@][0] == "targets"@);
                assert(seq!["hosts"@] != seq!["targets"@]);
            }
            lemma_kinds_distinct();
            assert forall|y: Seq<char>| is_kind(y) implies (#[trigger] shape_at(m, table_path(n, y)) == Shape::Standard <==> has_kind(tg, y)) by {
                assert(table_path(n, y).len() == 3);
            }
            if tg.serial@.len() > 0 {
                assert forall|j: int| 0 <= j < tg.serial@.len() implies #[trigger] serials_of(doc_serials(r.doc), n)[j].contains_key("name"@) && serials_of(doc_serials(r.doc), n)[j]["name"@] == tg.serial@[j].name@ by {
                    let sj = tg.serial@[j];
                    lemma_serial_strings_name(sj.name@, sj.device@, opt_string_view(sj.power_sense_signal), opt_string_view(sj.host));
                }
            }
        }
        r
    }

    /// The document as it stands, rendered (no header, no checks).
    pub fn rendered(&self) -> (r: String)
        ensures
            r@ == doc_text(self.doc),
    {
        render_document(&self.doc)
    }

    /// The text to write: refused, with the first problem, for a lab that
    /// fails the save-time rules; otherwise the document rendered, under the
    /// header comment for a freshly created lab ([`headed_text`] on the
    /// rendering).
    pub fn save_text(&self) -> (r: Result<String, LabError>)
        ensures
            r is Ok <==> lab_ok(self.lab) && power_refs_ok(self.lab),
            match save_problem(self.lab) {
                Some(m) => r matches Err(e) && e.0@ == m,
                None => r matches Ok(t) && t@ == headed(self.header, doc_text(self.doc)),
            },
    {
        match validate_for_save(&self.lab) {
            Err(e) => Err(e),
            Ok(()) => {
                let out = render_document(&self.doc);
                Ok(headed_text(self.header, out.as_str()))
            },
        }
    }

    // ── hosts ───────────────────────────────────────────────────────────────

    /// Add host `name`; refused for an invalid name or one already declared.
    pub fn add_host(
        &mut self,
        name: &str,
        ssh: &str,
        description: Option<&str>,
        hostname: Option<&str>,
        identity: Option<&str>,
        control_path: Option<&str>,
        paniolo_cmd: Option<&str>,
    ) -> (r: Result<(), LabError>)
        ensures
            old(self).lab.well_keyed() ==> final(self).lab.well_keyed(),
            final(self).header == old(self).header,
            old(self).lab.well_keyed() && doc_agrees(old(self).lab, old(self).doc) ==> doc_agrees(final(self).lab, final(self).doc),
            match (if !valid_name(name@) {
                    Some(invalid_name_text("host"@, name@))
                } else if shape_at(doc_shapes(old(self).doc), seq!["hosts"@]) == Shape::Other {
                    Some(not_standard_text("hosts"@))
                } else if entry_shape_of(doc_shapes(old(self).doc), "hosts"@, name@) != Shape::Absent || old(self).lab.host_keys().contains(name@) {
                    Some(exists_text("host '"@, name@))
                } else {
                    None
                }) {
                Some(m) => r matches Err(e) && e.0@ == m && final(self).lab == old(self).lab && final(self).doc
                    == old(self).doc,
                None => r is Ok,
            },
            r is Ok ==> ({
                let p = insert_pos(old(self).lab.host_keys(), name@);
                &&& final(self).lab.targets == old(self).lab.targets
                &&& inserted_at(old(self).lab.hosts@, final(self).lab.hosts@, p)
                &&& final(self).lab.hosts@[p].0@ == name@
                &&& host_is(
                    final(self).lab.hosts@[p].1,
                    ssh@,
                    opt_view(description),
                    opt_view(hostname),
                    opt_view(identity),
                    opt_view(control_path),
                    opt_view(paniolo_cmd),
                )
            }),
            r is Ok ==> (doc_shapes(final(self).doc) == doc_shapes(old(self).doc).insert(seq!["hosts"@], Shape::Standard).insert(seq!["hosts"@, name@], Shape::Standard)
                && doc_serials(final(self).doc) == doc_serials(old(self).doc) && doc_texts(final(self).doc) == put(put(put(put(put(doc_texts(old(self).doc).insert(seq!["hosts"@, name@, "ssh"@], ssh@),
                seq!["hosts"@, name@, "description"@], opt_view(description)), seq!["hosts"@, name@, "hostname"@], opt_view(hostname)),
                seq!["hosts"@, name@, "identity"@], opt_view(identity)), seq!["hosts"@, name@, "control_path"@], opt_view(control_path)),
                seq!["hosts"@, name@, "paniolo_cmd"@], opt_view(paniolo_cmd))),
    {
        proof {
            lemma_key_words();
        }
        match validate_name("host", name) {
            Err(e) => return Err(e),
            Ok(()) => {},
        }
        if section_shape(&self.doc, "hosts") == Shape::Other {
            return Err(not_standard("hosts"));
        }
        if entry_shape(&self.doc, "hosts", name) != Shape::Absent {
            return err_named("host '", name, "' already exists");
        }
        proof {
            lemma_first_index(self.lab.host_keys(), name@);
        }
        if self.lab.find_host(name).is_some() {
            return err_named("host '", name, "' already exists");
        }
        let h = Host {
            ssh: owned(ssh),
            description: opt_owned(description),
            hostname: opt_owned(hostname),
            identity: opt_owned(identity),
            control_path: opt_owned(control_path),
            paniolo_cmd: opt_owned(paniolo_cmd),
        };
        let p = host_pos(&self.lab, name);
        proof {
            lemma_insert_pos_bounds(self.lab.host_keys(), name@);
        }
        self.lab.hosts.insert(p, (owned(name), h));
        if section_shape(&self.doc, "hosts") == Shape::Absent {
            proof {
                assert(seq!["hosts"@, name@].take(1) =~= seq!["hosts"@]);
                assert(!doc_shapes(self.doc).contains_key(seq!["hosts"@, name@]));
            }
            insert_section(&mut self.doc, "hosts");
        }
        insert_entry(&mut self.doc, "hosts", name);
        set_entry_key(&mut self.doc, "hosts", name, "ssh", ssh);
        doc_entry_opt(&mut self.doc, "hosts", name, "description", description);
        doc_entry_opt(&mut self.doc, "hosts", name, "hostname", hostname);
        doc_entry_opt(&mut self.doc, "hosts", name, "identity", identity);
        doc_entry_opt(&mut self.doc, "hosts", name, "control_path", control_path);
        doc_entry_opt(&mut self.doc, "hosts", name, "paniolo_cmd", paniolo_cmd);
        proof {
            if old(self).lab.well_keyed() {
                lemma_keys_after_insert(old(self).lab.hosts@, self.lab.hosts@, p as int, name@);
                assert(self.lab.host_keys() == self.lab.hosts@.map_values(|e: (String, Host)| e.0@));
            }
        }
        proof {
            if old(self).lab.well_keyed() && doc_agrees(old(self).lab, old(self).doc) {
                lemma_keys_inserted(old(self).lab.hosts@, self.lab.hosts@, p as int, name@);
                assert(self.lab.host_keys() =~= entry_keys(self.lab.hosts@));
                assert(old(self).lab.host_keys() =~= entry_keys(old(self).lab.hosts@));
                assert(doc_shapes(self.doc) =~= doc_shapes(old(self).doc).insert(seq!["hosts"@], Shape::Standard).insert(seq!["hosts"@, name@], Shape::Standard));
                lemma_names_add(doc_shapes(old(self).doc), doc_shapes(self.doc), "hosts"@, old(self).lab.host_keys(), self.lab.host_keys(), name@);
                assert(names_held(doc_shapes(self.doc), "targets"@, self.lab.target_keys()));
                assert forall|n2: Seq<char>, y: Seq<char>| #[trigger] shape_at(doc_shapes(self.doc), table_path(n2, y))
                    == shape_at(doc_shapes(old(self).doc), table_path(n2, y)) by {
                    assert(table_path(n2, y).len() == 3);
                }
                assert forall|j: int| 0 <= j < self.lab.targets@.len() implies target_held(
                    self.doc,
                    #[trigger] self.lab.targets@[j].0@,
                    self.lab.targets@[j].1,
                ) by {
                    assert(target_held(old(self).doc, old(self).lab.targets@[j].0@, old(self).lab.targets@[j].1));
                }
            }
        }
        Ok(())
    }

    /// Change the given fields of host `name`, leaving the others.
    pub fn update_host(
        &mut self,
        name: &str,
        ssh: Option<&str>,
        description: Option<&str>,
        hostname: Option<&str>,
        identity: Option<&str>,
        control_path: Option<&str>,
        paniolo_cmd: Option<&str>,
    ) -> (r: Result<(), LabError>)
        ensures
            old(self).lab.well_keyed() ==> final(self).lab.well_keyed(),
            final(self).header == old(self).header,
            old(self).lab.well_keyed() && doc_agrees(old(self).lab, old(self).doc) ==> doc_agrees(final(self).lab, final(self).doc),
            match (if !valid_name(name@) {
                    Some(invalid_name_text("host"@, name@))
                } else if !entry_open(doc_shapes(old(self).doc), "hosts"@, name@) || !old(self).lab.host_keys().contains(name@) {
                    Some(missing_text("no host '"@, name@))
                } else {
                    None
                }) {
                Some(m) => r matches Err(e) && e.0@ == m && final(self).lab == old(self).lab && final(self).doc
                    == old(self).doc,
                None => r is Ok,
            },
            r is Ok ==> ({
                let i = first_index(old(self).lab.host_keys(), name@)->0;
                let h0 = old(self).lab.hosts@[i].1;
                &&& final(self).lab.targets == old(self).lab.targets
                &&& final(self).lab.hosts@.len() == old(self).lab.hosts@.len()
                &&& forall|k: int| 0 <= k < old(self).lab.hosts@.len() && k != i ==> final(self).lab.hosts@[k]
                    == old(self).lab.hosts@[k]
                &&& final(self).lab.hosts@[i].0 == old(self).lab.hosts@[i].0
                &&& host_is(
                    final(self).lab.hosts@[i].1,
                    match ssh {
                        Some(x) => x@,
                        None => h0.ssh@,
                    },
                    set_v(h0.description, description),
                    set_v(h0.hostname, hostname),
                    set_v(h0.identity, identity),
                    set_v(h0.control_path, control_path),
                    set_v(h0.paniolo_cmd, paniolo_cmd),
                )
            }),
            r is Ok ==> (doc_shapes(final(self).doc) == doc_shapes(old(self).doc) && doc_serials(final(self).doc) == doc_serials(old(self).doc) && doc_texts(final(self).doc) == put(put(put(put(put(put(doc_texts(old(self).doc),
                seq!["hosts"@, name@, "ssh"@], opt_view(ssh)), seq!["hosts"@, name@, "description"@], opt_view(description)),
                seq!["hosts"@, name@, "hostname"@], opt_view(hostname)), seq!["hosts"@, name@, "identity"@], opt_view(identity)),
                seq!["hosts"@, name@, "control_path"@], opt_view(control_path)), seq!["hosts"@, name@, "paniolo_cmd"@], opt_view(paniolo_cmd))),
    {
        proof {
            lemma_key_words();
        }
        match validate_name("host", name) {
            Err(e) => return Err(e),
            Ok(()) => {},
        }
        if section_shape(&self.doc, "hosts") != Shape::Standard || entry_shape(&self.doc, "hosts", name)
            != Shape::Standard {
            return err_named("no host '", name, "'");
        }
        proof {
            lemma_first_index(self.lab.host_keys(), name@);
        }
        let i = match self.lab.find_host(name) {
            Some(i) => i,
            None => return err_named("no host '", name, "'"),
        };
        let ghost before = self.lab.hosts@;
        let (k, mut h) = self.lab.hosts.remove(i);
        if let Some(x) = ssh {
            h.ssh = owned(x);
        }
        set_opt(&mut h.description, description);
        set_opt(&mut h.hostname, hostname);
        set_opt(&mut h.identity, identity);
        set_opt(&mut h.control_path, control_path);
        set_opt(&mut h.paniolo_cmd, paniolo_cmd);
        self.lab.hosts.insert(i, (k, h));
        proof {
            assert forall|j: int| 0 <= j < before.len() && j != i implies self.lab.hosts@[j] == before[j] by {
                if j < i {
                } else {
                    assert(before.remove(i as int)[j - 1] == before[j]);
                }
            }
        }
        doc_entry_opt(&mut self.doc, "hosts", name, "ssh", ssh);
        doc_entry_opt(&mut self.doc, "hosts", name, "description", description);
        doc_entry_opt(&mut self.doc, "hosts", name, "hostname", hostname);
        doc_entry_opt(&mut self.doc, "hosts", name, "identity", identity);
        doc_entry_opt(&mut self.doc, "hosts", name, "control_path", control_path);
        doc_entry_opt(&mut self.doc, "hosts", name, "paniolo_cmd", paniolo_cmd);
        proof {
            assert(self.lab.host_keys() =~= old(self).lab.host_keys());
        }
        proof {
            if old(self).lab.well_keyed() && doc_agrees(old(self).lab, old(self).doc) {
                lemma_agrees_kept(old(self).lab, self.lab, old(self).doc, self.doc);
            }
        }
        Ok(())
    }

    /// Remove host `name`, unless a target still uses it.
    pub fn remove_host(&mut self, name: &str) -> (r: Result<(), LabError>)
        ensures
            old(self).lab.well_keyed() ==> final(self).lab.well_keyed(),
            final(self).header == old(self).header,
            old(self).lab.well_keyed() && doc_agrees(old(self).lab, old(self).doc) ==> doc_agrees(final(self).lab, final(self).doc),
            match (if shape_at(doc_shapes(old(self).doc), seq!["hosts"@]) != Shape::Standard || entry_shape_of(doc_shapes(old(self).doc), "hosts"@, name@) == Shape::Absent
                    || !old(self).lab.host_keys().contains(name@) {
                    Some(missing_text("no host '"@, name@))
                } else if host_users(old(self).lab.targets@, name@).len() > 0 {
                    Some("host '"@ + name@ + "' is still used by: "@ + join(host_users(old(self).lab.targets@, name@), ", "@))
                } else {
                    None
                }) {
                Some(m) => r matches Err(e) && e.0@ == m && final(self).lab == old(self).lab && final(self).doc
                    == old(self).doc,
                None => r is Ok,
            },
            r is Ok ==> final(self).lab.targets == old(self).lab.targets && final(self).lab.hosts@
                == old(self).lab.hosts@.remove(first_index(old(self).lab.host_keys(), name@)->0),
            r is Ok ==> (doc_shapes(final(self).doc) == drop_under(doc_shapes(old(self).doc), seq!["hosts"@, name@]) && doc_texts(final(self).doc) == drop_under(doc_texts(old(self).doc), seq!["hosts"@, name@]) && doc_serials(final(self).doc) == doc_serials(old(self).doc)),
    {
        proof {
            lemma_key_words();
        }
        if section_shape(&self.doc, "hosts") != Shape::Standard || entry_shape(&self.doc, "hosts", name)
            == Shape::Absent {
            return err_named("no host '", name, "'");
        }
        proof {
            lemma_first_index(self.lab.host_keys(), name@);
        }
        let i = match self.lab.find_host(name) {
            Some(i) => i,
            None => return err_named("no host '", name, "'"),
        };
        let mut users: Vec<String> = Vec::new();
        let mut k: usize = 0;
        proof {
            reveal(Seq::filter);
        }
        while k < self.lab.targets.len()
            invariant
                k <= self.lab.targets.len(),
                views(users@) == host_users(self.lab.targets@.take(k as int), name@),
            decreases self.lab.targets.len() - k,
        {
            proof {
                reveal(Seq::filter);
                assert(self.lab.targets@.take(k + 1).drop_last() =~= self.lab.targets@.take(k as int));
            }
            if target_uses(&self.lab.targets[k].1, name) {
                push_line(&mut users, self.lab.targets[k].0.clone());
                proof {
                    let f = |e: (String, Target)| uses_host(e.1, name@);
                    let g = |e: (String, Target)| e.0@;
                    assert(self.lab.targets@.take(k + 1).filter(f) == self.lab.targets@.take(k as int).filter(f).push(
                        self.lab.targets@[k as int],
                    ));
                    assert(self.lab.targets@.take(k as int).filter(f).push(self.lab.targets@[k as int]).map_values(g)
                        =~= self.lab.targets@.take(k as int).filter(f).map_values(g).push(self.lab.targets@[k as int].0@));
                }
            }
            k += 1;
        }
        assert(self.lab.targets@.take(self.lab.targets.len() as int) =~= self.lab.targets@);
        if users.len() > 0 {
            let mut m = owned("host '");
            push_str(&mut m, name);
            push_str(&mut m, "' is still used by: ");
            push_str(&mut m, join_strings(&users, ", ").as_str());
            return Err(LabError(m));
        }
        self.lab.hosts.remove(i);
        remove_entry(&mut self.doc, "hosts", name);
        proof {
            if old(self).lab.well_keyed() {
                lemma_keys_after_remove(old(self).lab.hosts@, i as int);
            }
        }
        proof {
            if old(self).lab.well_keyed() && doc_agrees(old(self).lab, old(self).doc) {
                assert(old(self).lab.host_keys() =~= entry_keys(old(self).lab.hosts@));
                lemma_keys_removed(old(self).lab.hosts@, i as int);
                assert(self.lab.host_keys() =~= entry_keys(old(self).lab.hosts@.remove(i as int)));
                lemma_names_drop(doc_shapes(old(self).doc), doc_shapes(self.doc), "hosts"@, old(self).lab.host_keys(), self.lab.host_keys(), name@);
                assert(names_held(doc_shapes(self.doc), "targets"@, self.lab.target_keys()));
                assert forall|n2: Seq<char>, y: Seq<char>| #[trigger] shape_at(doc_shapes(self.doc), table_path(n2, y))
                    == shape_at(doc_shapes(old(self).doc), table_path(n2, y)) by {
                    assert(table_path(n2, y).take(2) =~= seq!["targets"@, n2]);
                    assert(seq!["targets"@, n2][0] != seq!["hosts"@, name@][0]);
                }
                assert forall|j: int| 0 <= j < self.lab.targets@.len() implies target_held(
                    self.doc,
                    #[trigger] self.lab.targets@[j].0@,
                    self.lab.targets@[j].1,
                ) by {
                    assert(target_held(old(self).doc, old(self).lab.targets@[j].0@, old(self).lab.targets@[j].1));
                }
            }
        }
        Ok(())
    }

    // ── targets ─────────────────────────────────────────────────────────────

    /// Take target `name` out of the lab for an edit; the error when the lab
    /// has none.
    fn take_target(&mut self, name: &str) -> (r: Result<(usize, String, Target), LabError>)
        ensures
            target_at(old(self).lab, name@) is None ==> (r matches Err(e) && e.0@ == missing_text(
                "no target '"@,
                name@,
            )) && final(self).lab == old(self).lab,
            final(self).doc == old(self).doc && final(self).header == old(self).header,
            target_at(old(self).lab, name@) matches Some(i) ==> (r matches Ok((j, k, t)) && j == i && k
                == old(self).lab.targets@[i].0 && t == old(self).lab.targets@[i].1 && final(self).lab.hosts
                == old(self).lab.hosts && final(self).lab.targets@ == old(self).lab.targets@.remove(i)),
    {
        proof {
            lemma_first_index(self.lab.target_keys(), name@);
        }
        let i = match self.lab.find_target(name) {
            Some(i) => i,
            None => {
                let mut m = owned("no target '");
                push_str(&mut m, name);
                push_str(&mut m, "'");
                return Err(LabError(m));
            },
        };
        let (k, t) = self.lab.targets.remove(i);
        Ok((i, k, t))
    }

    /// Put an edited target back where it was.
    fn put_target(&mut self, i: usize, k: String, t: Target)
        requires
            i <= old(self).lab.targets@.len(),
        ensures
            final(self).doc == old(self).doc && final(self).header == old(self).header,
            final(self).lab.hosts == old(self).lab.hosts,
            final(self).lab.targets@ == old(self).lab.targets@.insert(i as int, (k, t)),
    {
        self.lab.targets.insert(i, (k, t));
    }

    /// Add target `name` with its own host and description; refused for an
    /// invalid name or one the lab already has.
    pub fn add_target(&mut self, name: &str, host: Option<&str>, description: Option<&str>) -> (r:
        Result<(), LabError>)
        ensures
            old(self).lab.well_keyed() ==> final(self).lab.well_keyed(),
            final(self).header == old(self).header,
            old(self).lab.well_keyed() && doc_agrees(old(self).lab, old(self).doc) ==> doc_agrees(final(self).lab, final(self).doc),
            match (if !valid_name(name@) {
                    Some(invalid_name_text("target"@, name@))
                } else if shape_at(doc_shapes(old(self).doc), seq!["targets"@]) == Shape::Other {
                    Some(not_standard_text("targets"@))
                } else if entry_shape_of(doc_shapes(old(self).doc), "targets"@, name@) != Shape::Absent || old(self).lab.target_keys().contains(name@) {
                    Some(exists_text("target '"@, name@))
                } else {
                    None
                }) {
                Some(m) => r matches Err(e) && e.0@ == m && final(self).lab == old(self).lab && final(self).doc
                    == old(self).doc,
                None => r is Ok,
            },
            r is Ok ==> ({
                let p = insert_pos(old(self).lab.target_keys(), name@);
                &&& final(self).lab.hosts == old(self).lab.hosts
                &&& inserted_at(old(self).lab.targets@, final(self).lab.targets@, p)
                &&& final(self).lab.targets@[p].0@ == name@
                &&& bare_target(final(self).lab.targets@[p].1, opt_view(host), opt_view(description))
            }),
            r is Ok ==> (doc_shapes(final(self).doc) == doc_shapes(old(self).doc).insert(seq!["targets"@], Shape::Standard).insert(seq!["targets"@, name@], Shape::Standard)
                && doc_serials(final(self).doc) == doc_serials(old(self).doc) && doc_texts(final(self).doc) == put(put(doc_texts(old(self).doc), seq!["targets"@, name@, "host"@], opt_view(host)),
                seq!["targets"@, name@, "description"@], opt_view(description))),
    {
        proof {
            lemma_key_words();
        }
        match validate_name("target", name) {
            Err(e) => return Err(e),
            Ok(()) => {},
        }
        if section_shape(&self.doc, "targets") == Shape::Other {
            return Err(not_standard("targets"));
        }
        if entry_shape(&self.doc, "targets", name) != Shape::Absent {
            return err_named("target '", name, "' already exists");
        }
        proof {
            lemma_first_index(self.lab.target_keys(), name@);
        }
        if self.lab.find_target(name).is_some() {
            return err_named("target '", name, "' already exists");
        }
        let t = Target {
            host: opt_owned(host),
            description: opt_owned(description),
            netboot: None,
            serial: Vec::new(),
            power: None,
            video: None,
            hid: None,
            usb: None,
            adb: None,
        };
        let p = target_pos(&self.lab.targets, name);
        proof {
            lemma_insert_pos_bounds(self.lab.target_keys(), name@);
        }
        self.lab.targets.insert(p, (owned(name), t));
        if section_shape(&self.doc, "targets") == Shape::Absent {
            proof {
                assert(seq!["targets"@, name@].take(1) =~= seq!["targets"@]);
                assert(!doc_shapes(self.doc).contains_key(seq!["targets"@, name@]));
            }
            insert_section(&mut self.doc, "targets");
        }
        insert_entry(&mut self.doc, "targets", name);
        doc_entry_opt(&mut self.doc, "targets", name, "host", host);
        doc_entry_opt(&mut self.doc, "targets", name, "description", description);
        proof {
            if old(self).lab.well_keyed() {
                lemma_keys_after_insert(old(self).lab.targets@, self.lab.targets@, p as int, name@);
            }
        }
        proof {
            if old(self).lab.well_keyed() && doc_agrees(old(self).lab, old(self).doc) {
                lemma_keys_inserted(old(self).lab.targets@, self.lab.targets@, p as int, name@);
                assert(self.lab.target_keys() =~= entry_keys(self.lab.targets@));
                assert(old(self).lab.target_keys() =~= entry_keys(old(self).lab.targets@));
                assert(doc_shapes(self.doc) =~= doc_shapes(old(self).doc).insert(seq!["targets"@], Shape::Standard).insert(seq!["targets"@, name@], Shape::Standard));
                lemma_names_add(doc_shapes(old(self).doc), doc_shapes(self.doc), "targets"@, old(self).lab.target_keys(), self.lab.target_keys(), name@);
                assert(names_held(doc_shapes(self.doc), "hosts"@, self.lab.host_keys()));
                assert(!doc_serials(old(self).doc).contains_key(name@));
                assert forall|n2: Seq<char>, y: Seq<char>| #[trigger] shape_at(doc_shapes(self.doc), table_path(n2, y))
                    == shape_at(doc_shapes(old(self).doc), table_path(n2, y)) by {
                    assert(table_path(n2, y).len() == 3);
                }
                assert forall|y: Seq<char>| #[trigger] shape_at(doc_shapes(old(self).doc), table_path(name@, y)) == Shape::Absent by {
                    assert(table_path(name@, y).take(2) =~= seq!["targets"@, name@]);
                    assert(table_path(name@, y).take(1) =~= seq!["targets"@]);
                }
                assert forall|j: int| 0 <= j < self.lab.targets@.len() implies target_held(
                    self.doc,
                    #[trigger] self.lab.targets@[j].0@,
                    self.lab.targets@[j].1,
                ) by {
                    if j < p {
                        assert(self.lab.targets@[j] == old(self).lab.targets@[j]);
                        assert(target_held(old(self).doc, old(self).lab.targets@[j].0@, old(self).lab.targets@[j].1));
                    } else if j > p {
                        assert(self.lab.targets@[j] == old(self).lab.targets@[j - 1]);
                        assert(target_held(old(self).doc, old(self).lab.targets@[j - 1].0@, old(self).lab.targets@[j - 1].1));
                    }
                }
            }
        }
        Ok(())
    }

    /// Change target `name`'s own host and description where given.
    pub fn update_target(&mut self, name: &str, host: Option<&str>, description: Option<&str>) -> (r:
        Result<(), LabError>)
        ensures
            old(self).lab.well_keyed() ==> final(self).lab.well_keyed(),
            final(self).header == old(self).header,
            old(self).lab.well_keyed() && doc_agrees(old(self).lab, old(self).doc) ==> doc_agrees(final(self).lab, final(self).doc),
            match (if !valid_name(name@) {
                    Some(invalid_name_text("target"@, name@))
                } else {
                    target_problem(doc_shapes(old(self).doc), old(self).lab, name@)
                }) {
                Some(m) => r matches Err(e) && e.0@ == m && final(self).lab == old(self).lab && final(self).doc
                    == old(self).doc,
                None => r is Ok,
            },
            r is Ok ==> ({
                let i = target_at(old(self).lab, name@)->0;
                let t0 = old(self).lab.targets@[i].1;
                let t = final(self).lab.targets@[i].1;
                &&& target_replaced(old(self).lab, final(self).lab, i, t)
                &&& opt_string_view(t.host) == set_v(t0.host, host)
                &&& opt_string_view(t.description) == set_v(t0.description, description)
                &&& t == (Target { host: t.host, description: t.description, ..t0 })
            }),
            r is Ok ==> (doc_shapes(final(self).doc) == doc_shapes(old(self).doc) && doc_serials(final(self).doc) == doc_serials(old(self).doc) && doc_texts(final(self).doc) == put(if description is Some {
                    put(doc_texts(old(self).doc), seq!["targets"@, name@, "host"@], opt_view(host)).remove(seq!["targets"@, name@, "note"@])
                } else {
                    put(doc_texts(old(self).doc), seq!["targets"@, name@, "host"@], opt_view(host))
                }, seq!["targets"@, name@, "description"@], opt_view(description))),
    {
        proof {
            lemma_key_words();
        }
        match validate_name("target", name) {
            Err(e) => return Err(e),
            Ok(()) => {},
        }
        match self.target_check(name) {
            Err(e) => return Err(e),
            Ok(_) => {},
        }
        proof {
            lemma_first_index(self.lab.target_keys(), name@);
        }
        let (i, k, mut t) = match self.take_target(name) {
            Ok(x) => x,
            Err(e) => return Err(e),
        };
        let ghost before = self.lab;
        set_opt(&mut t.host, host);
        set_opt(&mut t.description, description);
        self.put_target(i, k, t);
        proof {
            let o = old(self).lab.targets@;
            assert(self.lab.targets@ =~= o.update(i as int, (o[i as int].0, self.lab.targets@[i as int].1)));
        }
        doc_entry_opt(&mut self.doc, "targets", name, "host", host);
        if description.is_some() {
            remove_entry_key(&mut self.doc, "targets", name, "note");
        }
        doc_entry_opt(&mut self.doc, "targets", name, "description", description);
        proof {
            lemma_replaced_keys(old(self).lab, self.lab, i as int, self.lab.targets@[i as int].1);
        }
        proof {
            if old(self).lab.well_keyed() && doc_agrees(old(self).lab, old(self).doc) {
                lemma_agrees_channel(old(self).lab, self.lab, old(self).doc, self.doc, i as int, self.lab.targets@[i as int].1);
            }
        }
        Ok(())
    }

    /// Remove target `name`.
    pub fn remove_target(&mut self, name: &str) -> (r: Result<(), LabError>)
        ensures
            old(self).lab.well_keyed() ==> final(self).lab.well_keyed(),
            final(self).header == old(self).header,
            old(self).lab.well_keyed() && doc_agrees(old(self).lab, old(self).doc) ==> doc_agrees(final(self).lab, final(self).doc),
            match (if shape_at(doc_shapes(old(self).doc), seq!["targets"@]) != Shape::Standard || entry_shape_of(doc_shapes(old(self).doc), "targets"@, name@)
                    == Shape::Absent || target_at(old(self).lab, name@) is None {
                    Some(missing_text("no target '"@, name@))
                } else {
                    None
                }) {
                Some(m) => r matches Err(e) && e.0@ == m && final(self).lab == old(self).lab && final(self).doc
                    == old(self).doc,
                None => r is Ok,
            },
            r is Ok ==> final(self).lab.hosts == old(self).lab.hosts && final(self).lab.targets@ == old(self).lab.targets@.remove(target_at(old(self).lab, name@)->0),
            r is Ok ==> (doc_shapes(final(self).doc) == drop_under(doc_shapes(old(self).doc), seq!["targets"@, name@]) && doc_texts(final(self).doc) == drop_under(doc_texts(old(self).doc), seq!["targets"@, name@])
                && doc_serials(final(self).doc) == doc_serials(old(self).doc).remove(name@)),
    {
        proof {
            lemma_key_words();
        }
        if section_shape(&self.doc, "targets") != Shape::Standard || entry_shape(&self.doc, "targets", name)
            == Shape::Absent {
            return err_named("no target '", name, "'");
        }
        proof {
            lemma_first_index(self.lab.target_keys(), name@);
        }
        match self.take_target(name) {
            Ok((i, _, _)) => {
                proof {
                    if old(self).lab.well_keyed() {
                        lemma_keys_after_remove(old(self).lab.targets@, i as int);
                    }
                }
                remove_entry(&mut self.doc, "targets", name);
                proof {
                    if old(self).lab.well_keyed() && doc_agrees(old(self).lab, old(self).doc) {
                        let o = old(self).lab.targets@;
                        assert(old(self).lab.target_keys() =~= entry_keys(o));
                        lemma_keys_removed(o, i as int);
                        assert(self.lab.target_keys() =~= entry_keys(o.remove(i as int)));
                        lemma_names_drop(doc_shapes(old(self).doc), doc_shapes(self.doc), "targets"@, old(self).lab.target_keys(), self.lab.target_keys(), name@);
                        assert(names_held(doc_shapes(self.doc), "hosts"@, self.lab.host_keys()));
                        assert forall|n2: Seq<char>, y: Seq<char>| n2 != name@ implies #[trigger] shape_at(doc_shapes(self.doc), table_path(n2, y))
                            == shape_at(doc_shapes(old(self).doc), table_path(n2, y)) by {
                            assert(table_path(n2, y).take(2) =~= seq!["targets"@, n2]);
                            assert(seq!["targets"@, n2][1] != seq!["targets"@, name@][1]);
                        }
                        assert forall|j: int| 0 <= j < self.lab.targets@.len() implies target_held(
                            self.doc,
                            #[trigger] self.lab.targets@[j].0@,
                            self.lab.targets@[j].1,
                        ) by {
                            let j0 = if j < i { j } else { j + 1 };
                            assert(self.lab.targets@[j] == o[j0]);
                            assert(old(self).lab.target_keys()[j0] == o[j0].0@);
                            assert(old(self).lab.target_keys()[i as int] == o[i as int].0@);
                            lemma_sorted_distinct(old(self).lab.target_keys(), j0, i as int);
                            assert(target_held(old(self).doc, o[j0].0@, o[j0].1));
                        }
                    }
                }
                Ok(())
            },
            Err(e) => Err(e),
        }
    }

    /// Rename target `old_name` to `new_name`, carrying every channel with
    /// it; refused for an invalid new name, a missing target, or a new name
    /// already taken.
    pub fn rename_target(&mut self, old_name: &str, new_name: &str) -> (r: Result<(), LabError>)
        ensures
            old(self).lab.well_keyed() ==> final(self).lab.well_keyed(),
            final(self).header == old(self).header,
            old(self).lab.well_keyed() && doc_agrees(old(self).lab, old(self).doc) ==> doc_agrees(final(self).lab, final(self).doc),
            match (if !valid_name(new_name@) {
                    Some(invalid_name_text("target"@, new_name@))
                } else if shape_at(doc_shapes(old(self).doc), seq!["targets"@]) != Shape::Standard || entry_shape_of(doc_shapes(old(self).doc), "targets"@, old_name@)
                    == Shape::Absent || target_at(old(self).lab, old_name@) is None {
                    Some(missing_text("no target '"@, old_name@))
                } else if entry_shape_of(doc_shapes(old(self).doc), "targets"@, new_name@) != Shape::Absent || old(self).lab.target_keys().contains(new_name@) {
                    Some(exists_text("target '"@, new_name@))
                } else {
                    None
                }) {
                Some(m) => r matches Err(e) && e.0@ == m && final(self).lab == old(self).lab && final(self).doc
                    == old(self).doc,
                None => r is Ok,
            },
            r is Ok ==> ({
                let i = target_at(old(self).lab, old_name@)->0;
                let rest = old(self).lab.targets@.remove(i);
                let p = insert_pos(rest.map_values(|e: (String, Target)| e.0@), new_name@);
                &&& final(self).lab.hosts == old(self).lab.hosts
                &&& inserted_at(rest, final(self).lab.targets@, p)
                &&& final(self).lab.targets@[p].0@ == new_name@
                &&& final(self).lab.targets@[p].1 == old(self).lab.targets@[i].1
            }),
            r is Ok ==> (doc_shapes(final(self).doc) == move_under(doc_shapes(old(self).doc), seq!["targets"@, old_name@], seq!["targets"@, new_name@])
                && doc_texts(final(self).doc) == move_under(doc_texts(old(self).doc), seq!["targets"@, old_name@], seq!["targets"@, new_name@])
                && doc_serials(final(self).doc) == if doc_serials(old(self).doc).contains_key(old_name@) {
                    doc_serials(old(self).doc).remove(old_name@).insert(new_name@, doc_serials(old(self).doc)[old_name@])
                } else {
                    doc_serials(old(self).doc)
                }),
    {
        proof {
            lemma_key_words();
        }
        match validate_name("target", new_name) {
            Err(e) => return Err(e),
            Ok(()) => {},
        }
        proof {
            lemma_first_index(self.lab.target_keys(), old_name@);
            lemma_first_index(self.lab.target_keys(), new_name@);
        }
        if section_shape(&self.doc, "targets") != Shape::Standard || entry_shape(&self.doc, "targets", old_name)
            == Shape::Absent || self.lab.find_target(old_name).is_none() {
            return err_named("no target '", old_name, "'");
        }
        if entry_shape(&self.doc, "targets", new_name) != Shape::Absent || self.lab.find_target(new_name).is_some() {
            return err_named("target '", new_name, "' already exists");
        }
        let (_i, _k, t) = match self.take_target(old_name) {
            Ok(x) => x,
            Err(e) => return Err(e),
        };
        let p = target_pos(&self.lab.targets, new_name);
        proof {
            lemma_insert_pos_bounds(self.lab.targets@.map_values(|e: (String, Target)| e.0@), new_name@);
        }
        self.lab.targets.insert(p, (owned(new_name), t));
        move_entry(&mut self.doc, "targets", old_name, new_name);
        proof {
            if old(self).lab.well_keyed() {
                let i0 = target_at(old(self).lab, old_name@)->0;
                lemma_keys_after_remove(old(self).lab.targets@, i0);
                let rest = old(self).lab.targets@.remove(i0);
                let rk = rest.map_values(|e: (String, Target)| e.0@);
                assert(!rk.contains(new_name@)) by {
                    if rk.contains(new_name@) {
                        let k = choose|k: int| 0 <= k < rk.len() && #[trigger] rk[k] == new_name@;
                        let k0 = if k < i0 { k } else { k + 1 };
                        assert(old(self).lab.target_keys()[k0] == new_name@);
                    }
                }
                lemma_keys_after_insert(rest, self.lab.targets@, p as int, new_name@);
            }
        }
        proof {
            if old(self).lab.well_keyed() && doc_agrees(old(self).lab, old(self).doc) {
                let o = old(self).lab.targets@;
                let i0 = target_at(old(self).lab, old_name@)->0;
                let rest = o.remove(i0);
                let q0 = doc_serials(old(self).doc);
                let q1 = doc_serials(self.doc);
                assert(old(self).lab.target_keys() =~= entry_keys(o));
                assert(o[i0].0@ == old_name@);
                lemma_keys_removed(o, i0);
                lemma_keys_inserted(rest, self.lab.targets@, p as int, new_name@);
                assert(self.lab.target_keys() =~= entry_keys(self.lab.targets@));
                assert(old(self).lab.target_keys()[i0] == old_name@);
                assert(old(self).lab.target_keys().contains(old_name@));
                lemma_names_move(
                    doc_shapes(old(self).doc),
                    doc_shapes(self.doc),
                    "targets"@,
                    old(self).lab.target_keys(),
                    self.lab.target_keys(),
                    old_name@,
                    new_name@,
                );
                assert(names_held(doc_shapes(self.doc), "hosts"@, self.lab.host_keys()));
                assert(!q0.contains_key(new_name@));
                assert(target_held(old(self).doc, o[i0].0@, o[i0].1));
                let m0 = doc_shapes(old(self).doc);
                let m1 = doc_shapes(self.doc);
                assert forall|n2: Seq<char>, y: Seq<char>| n2 != old_name@ && n2 != new_name@ implies #[trigger] shape_at(m1, table_path(n2, y))
                    == shape_at(m0, table_path(n2, y)) by {
                    assert(table_path(n2, y).take(2) =~= seq!["targets"@, n2]);
                    assert(seq!["targets"@, n2][1] != seq!["targets"@, old_name@][1]);
                    assert(seq!["targets"@, n2][1] != seq!["targets"@, new_name@][1]);
                }
                assert forall|y: Seq<char>| #[trigger] shape_at(m1, table_path(new_name@, y)) == shape_at(m0, table_path(old_name@, y)) by {
                    assert(table_path(new_name@, y).take(2) =~= seq!["targets"@, new_name@]);
                    assert(seq!["targets"@, old_name@] + table_path(new_name@, y).skip(2) =~= table_path(old_name@, y));
                }
                assert forall|j: int| 0 <= j < self.lab.targets@.len() implies target_held(
                    self.doc,
                    #[trigger] self.lab.targets@[j].0@,
                    self.lab.targets@[j].1,
                ) by {
                    if j == p {
                        assert(self.lab.targets@[j].1 == o[i0].1);
                    } else {
                        let jr = if j < p { j } else { j - 1 };
                        assert(self.lab.targets@[j] == rest[jr]);
                        let j0 = if jr < i0 { jr } else { jr + 1 };
                        assert(rest[jr] == o[j0]);
                        assert(old(self).lab.target_keys()[j0] == o[j0].0@);
                        lemma_sorted_distinct(old(self).lab.target_keys(), j0, i0);
                        assert(o[j0].0@ != new_name@);
                        assert(target_held(old(self).doc, o[j0].0@, o[j0].1));
                    }
                }
            }
        }
        Ok(())
    }

    // ── serial interfaces ───────────────────────────────────────────────────

    /// Add serial interface `name` to `target`; refused for an invalid name,
    /// a missing target, or a name the target already has.
    pub fn add_serial(
        &mut self,
        target: &str,
        name: &str,
        device: &str,
        baud: i64,
        sense: Option<&str>,
        power_button: bool,
        host: Option<&str>,
    ) -> (r: Result<(), LabError>)
        ensures
            old(self).lab.well_keyed() ==> final(self).lab.well_keyed(),
            final(self).header == old(self).header,
            old(self).lab.well_keyed() && doc_agrees(old(self).lab, old(self).doc) ==> doc_agrees(final(self).lab, final(self).doc),
            match (if !valid_name(name@) {
                    Some(invalid_name_text("serial interface"@, name@))
                } else if target_problem(doc_shapes(old(self).doc), old(self).lab, target@) is Some {
                    target_problem(doc_shapes(old(self).doc), old(self).lab, target@)
                } else if channel_shape_of(doc_shapes(old(self).doc), target@, "serial"@) == Shape::Other {
                    Some(not_serial_array_text(target@))
                } else if has_serial(old(self).lab, target@, name@) {
                    Some(serial_exists_text(target@, name@))
                } else {
                    None
                }) {
                Some(m) => r matches Err(e) && e.0@ == m && final(self).lab == old(self).lab && final(self).doc
                    == old(self).doc,
                None => r is Ok,
            },
            r is Ok ==> ({
                let i = target_at(old(self).lab, target@)->0;
                let t0 = old(self).lab.targets@[i].1;
                let t = final(self).lab.targets@[i].1;
                &&& target_replaced(old(self).lab, final(self).lab, i, t)
                &&& t == (Target { serial: t.serial, ..t0 })
                &&& t.serial@.len() == t0.serial@.len() + 1
                &&& t.serial@.take(t0.serial@.len() as int) == t0.serial@
                &&& serial_is(t.serial@.last(), name@, device@, baud, opt_view(sense), power_button, opt_view(host))
            }),
            r is Ok ==> (doc_shapes(final(self).doc) == doc_shapes(old(self).doc).insert(seq!["targets"@, target@, "serial"@], Shape::Standard) && doc_texts(final(self).doc) == doc_texts(old(self).doc)
                && doc_serials(final(self).doc) == doc_serials(old(self).doc).insert(target@, serials_of(doc_serials(old(self).doc), target@).push(serial_strings(name@, device@, opt_view(sense), opt_view(host))))),
    {
        proof {
            lemma_key_words();
        }
        match validate_name("serial interface", name) {
            Err(e) => return Err(e),
            Ok(()) => {},
        }
        match self.target_check(target) {
            Err(e) => return Err(e),
            Ok(_) => {},
        }
        if serial_shape(&self.doc, "targets", target, "serial") == Shape::Other {
            return err_named("target '", target, "': serial is not [[serial]]");
        }
        proof {
            lemma_first_index(self.lab.target_keys(), target@);
        }
        match self.lab.find_target(target) {
            Some(i0) => {
                if serial_index(&self.lab.targets[i0].1.serial, name).is_some() {
                    let mut m = owned("target '");
                    push_str(&mut m, target);
                    push_str(&mut m, "': serial '");
                    push_str(&mut m, name);
                    push_str(&mut m, "' already exists");
                    return Err(LabError(m));
                }
            },
            None => {},
        }
        let (i, k, mut t) = match self.take_target(target) {
            Ok(x) => x,
            Err(e) => return Err(e),
        };
        let ghost s0 = t.serial@;
        t.serial.push(SerialChannel {
            name: owned(name),
            device: owned(device),
            baud,
            power_sense_signal: opt_owned(sense),
            power_button,
            host: opt_owned(host),
        });
        assert(t.serial@.take(s0.len() as int) =~= s0);
        self.put_target(i, k, t);
        proof {
            let o = old(self).lab.targets@;
            assert(self.lab.targets@ =~= o.update(i as int, (o[i as int].0, self.lab.targets@[i as int].1)));
        }
        if serial_shape(&self.doc, "targets", target, "serial") == Shape::Absent {
            insert_serial_array(&mut self.doc, "targets", target, "serial");
        }
        write_serial(&mut self.doc, target, name, device, baud, sense, power_button, host);
        proof {
            lemma_replaced_keys(old(self).lab, self.lab, i as int, self.lab.targets@[i as int].1);
        }
        proof {
            if old(self).lab.well_keyed() && doc_agrees(old(self).lab, old(self).doc) {
                let o = old(self).lab.targets@;
                let t0 = o[i as int].1;
                let t1 = self.lab.targets@[i as int].1;
                let q0 = doc_serials(old(self).doc);
                let q1 = doc_serials(self.doc);
                assert(o[i as int].0@ == target@);
                lemma_deep_insert(doc_shapes(old(self).doc), seq!["targets"@, target@, "serial"@], Shape::Standard);
                assert(doc_shapes(self.doc) =~= doc_shapes(old(self).doc).insert(seq!["targets"@, target@, "serial"@], Shape::Standard));
                lemma_serial_strings_name(name@, device@, opt_view(sense), opt_view(host));
                assert(target_held(old(self).doc, o[i as int].0@, t0));
                lemma_kinds_distinct();
                assert(doc_shapes(self.doc) == doc_shapes(old(self).doc).insert(table_path(target@, "serial"@), Shape::Standard));
                lemma_tables_set(doc_shapes(old(self).doc), target@, t0, t1, "serial"@);
                assert(serials_named(serials_of(q0, target@), t0.serial@));
                assert(q1 =~= q0.insert(target@, serials_of(q0, target@).push(serial_strings(name@, device@, opt_view(sense), opt_view(host)))));
                assert forall|jj: int| 0 <= jj < t0.serial@.len() implies #[trigger] t1.serial@[jj] == t0.serial@[jj] by {
                    assert(t1.serial@.take(t0.serial@.len() as int)[jj] == t1.serial@[jj]);
                }
                assert(serials_named(serials_of(q1, target@), t1.serial@));
                assert forall|k: Seq<char>| k != o[i as int].0@ implies #[trigger] serials_of(q1, k) == serials_of(q0, k) by {}
                lemma_agrees_serials(old(self).lab, self.lab, old(self).doc, self.doc, i as int, t1);
            }
        }
        Ok(())
    }

    /// Change the given fields of `target`'s serial interface `name`;
    /// `power_button` is set when given and left otherwise.
    pub fn update_serial(
        &mut self,
        target: &str,
        name: &str,
        device: Option<&str>,
        baud: Option<i64>,
        sense: Option<&str>,
        power_button: Option<bool>,
        host: Option<&str>,
    ) -> (r: Result<(), LabError>)
        ensures
            old(self).lab.well_keyed() ==> final(self).lab.well_keyed(),
            final(self).header == old(self).header,
            old(self).lab.well_keyed() && doc_agrees(old(self).lab, old(self).doc) ==> doc_agrees(final(self).lab, final(self).doc),
            match (if !valid_name(name@) {
                    Some(invalid_name_text("serial interface"@, name@))
                } else if target_problem(doc_shapes(old(self).doc), old(self).lab, target@) is Some {
                    target_problem(doc_shapes(old(self).doc), old(self).lab, target@)
                } else if channel_shape_of(doc_shapes(old(self).doc), target@, "serial"@) != Shape::Standard || !has_serial(old(self).lab, target@, name@)
                    || !doc_serial_named(doc_serials(old(self).doc), target@, serial_index_in(old(self).lab, target@, name@), name@) {
                    Some(no_serial_text(target@, name@))
                } else {
                    None
                }) {
                Some(m) => r matches Err(e) && e.0@ == m && final(self).lab == old(self).lab && final(self).doc
                    == old(self).doc,
                None => r is Ok,
            },
            r is Ok ==> ({
                let i = target_at(old(self).lab, target@)->0;
                let t0 = old(self).lab.targets@[i].1;
                let j = serial_at(t0.serial@, name@)->0;
                let s0 = t0.serial@[j];
                let t = final(self).lab.targets@[i].1;
                &&& target_replaced(old(self).lab, final(self).lab, i, t)
                &&& t == (Target { serial: t.serial, ..t0 })
                &&& t.serial@.len() == t0.serial@.len()
                &&& forall|k: int| 0 <= k < t0.serial@.len() && k != j ==> t.serial@[k] == t0.serial@[k]
                &&& t.serial@[j].name == s0.name
                &&& serial_is(
                    t.serial@[j],
                    s0.name@,
                    match device {
                        Some(d) => d@,
                        None => s0.device@,
                    },
                    match baud {
                        Some(b) => b,
                        None => s0.baud,
                    },
                    set_v(s0.power_sense_signal, sense),
                    match power_button {
                        Some(b) => b,
                        None => s0.power_button,
                    },
                    set_v(s0.host, host),
                )
            }),
            r is Ok ==> (doc_shapes(final(self).doc) == doc_shapes(old(self).doc) && doc_texts(final(self).doc) == doc_texts(old(self).doc) && doc_serials(final(self).doc) == with_serial(doc_serials(old(self).doc), target@, serial_index_in(old(self).lab, target@, name@),
                |m: Map<Seq<char>, Seq<char>>| serial_updated(m, opt_view(device), baud is Some, opt_view(sense), power_button is Some, opt_view(host)))),
    {
        proof {
            lemma_key_words();
        }
        match validate_name("serial interface", name) {
            Err(e) => return Err(e),
            Ok(()) => {},
        }
        let ti = match self.target_check(target) {
            Err(e) => return Err(e),
            Ok(i) => i,
        };
        if serial_shape(&self.doc, "targets", target, "serial") != Shape::Standard {
            return no_serial_err(target, name);
        }
        let dj = match self.doc_serial_check(ti, target, name) {
            Some(j) => j,
            None => return no_serial_err(target, name),
        };
        proof {
            lemma_first_index(self.lab.target_keys(), target@);
        }
        let i0 = match self.lab.find_target(target) {
            Some(i0) => i0,
            None => return err_named("no target '", target, "'"),
        };
        let j = match serial_index(&self.lab.targets[i0].1.serial, name) {
            Some(j) => j,
            None => {
                let mut m = owned("target '");
                push_str(&mut m, target);
                push_str(&mut m, "': no serial '");
                push_str(&mut m, name);
                push_str(&mut m, "'");
                return Err(LabError(m));
            },
        };
        let (i, k, mut t) = match self.take_target(target) {
            Ok(x) => x,
            Err(e) => return Err(e),
        };
        let ghost s_all = t.serial@;
        let mut s = t.serial.remove(j);
        if let Some(d) = device {
            s.device = owned(d);
        }
        if let Some(b) = baud {
            s.baud = b;
        }
        set_opt(&mut s.power_sense_signal, sense);
        if let Some(b) = power_button {
            s.power_button = b;
        }
        set_opt(&mut s.host, host);
        let ghost s0 = s_all[j as int];
        assert(s.name == s0.name);
        assert(s.device@ == match device {
            Some(d) => d@,
            None => s0.device@,
        });
        assert(s.power_button == match power_button {
            Some(b) => b,
            None => s0.power_button,
        });
        t.serial.insert(j, s);
        proof {
            assert forall|q: int| 0 <= q < s_all.len() && q != j implies t.serial@[q] == s_all[q] by {
                if q > j {
                    assert(s_all.remove(j as int)[q - 1] == s_all[q]);
                }
            }
        }
        self.put_target(i, k, t);
        proof {
            let o = old(self).lab.targets@;
            assert(self.lab.targets@ =~= o.update(i as int, (o[i as int].0, self.lab.targets@[i as int].1)));
        }
        {
            let q = dj;
            let ghost d0 = doc_serials(self.doc);
            let ghost before = d0[target@];
            let ghost mut cur = before[q as int];
            assert(d0.contains_key(target@) && q < before.len());
            assert(before.update(q as int, cur) =~= before);
            assert(d0.insert(target@, before.update(q as int, cur)) =~= d0);
            doc_serial_opt(&mut self.doc, target, q, "device", device);
            proof {
                cur = sput(cur, "device"@, opt_view(device));
                assert(doc_serials(self.doc) =~~= d0.insert(target@, before.update(q as int, cur)));
            }
            match baud {
                Some(b) => {
                    set_serial_int(&mut self.doc, "targets", target, "serial", q, "baud", b);
                    proof {
                        assert(doc_serials(self.doc) =~~= d0.insert(target@, before.update(q as int, cur.remove("baud"@))));
                    }
                },
                None => {},
            }
            proof {
                cur = drop_if(cur, "baud"@, baud is Some);
                assert(doc_serials(self.doc) =~~= d0.insert(target@, before.update(q as int, cur)));
            }
            doc_serial_opt(&mut self.doc, target, q, "power_sense_signal", sense);
            proof {
                cur = sput(cur, "power_sense_signal"@, opt_view(sense));
                assert(doc_serials(self.doc) =~~= d0.insert(target@, before.update(q as int, cur)));
            }
            match power_button {
                Some(true) => set_serial_true(&mut self.doc, "targets", target, "serial", q, "power_button"),
                Some(false) => remove_serial_key(&mut self.doc, "targets", target, "serial", q, "power_button"),
                None => {},
            }
            proof {
                cur = drop_if(cur, "power_button"@, power_button is Some);
                assert(doc_serials(self.doc) =~~= d0.insert(target@, before.update(q as int, cur)));
            }
            doc_serial_opt(&mut self.doc, target, q, "host", host);
            proof {
                cur = sput(cur, "host"@, opt_view(host));
                assert(doc_serials(self.doc) =~~= d0.insert(target@, before.update(q as int, cur)));
            }
        }
        proof {
            lemma_replaced_keys(old(self).lab, self.lab, i as int, self.lab.targets@[i as int].1);
        }
        proof {
            if old(self).lab.well_keyed() && doc_agrees(old(self).lab, old(self).doc) {
                let o = old(self).lab.targets@;
                let t0 = o[i as int].1;
                let t1 = self.lab.targets@[i as int].1;
                let q0 = doc_serials(old(self).doc);
                let q1 = doc_serials(self.doc);
                let idx = serial_index_in(old(self).lab, target@, name@);
                assert(o[i as int].0@ == target@);
                assert(idx == j);
                assert(serials_named(serials_of(q0, target@), t0.serial@));
                lemma_serial_updated_name(q0[target@][idx], opt_view(device), baud is Some, opt_view(sense), power_button is Some, opt_view(host));
                assert(serials_named(serials_of(q1, target@), t1.serial@));
                assert forall|k: Seq<char>| k != o[i as int].0@ implies #[trigger] serials_of(q1, k) == serials_of(q0, k) by {}
                lemma_agrees_serials(old(self).lab, self.lab, old(self).doc, self.doc, i as int, t1);
            }
        }
        Ok(())
    }

    /// Remove `target`'s serial interface `name`.
    pub fn remove_serial(&mut self, target: &str, name: &str) -> (r: Result<(), LabError>)
        ensures
            old(self).lab.well_keyed() ==> final(self).lab.well_keyed(),
            final(self).header == old(self).header,
            old(self).lab.well_keyed() && doc_agrees(old(self).lab, old(self).doc) ==> doc_agrees(final(self).lab, final(self).doc),
            match (if target_problem(doc_shapes(old(self).doc), old(self).lab, target@) is Some {
                    target_problem(doc_shapes(old(self).doc), old(self).lab, target@)
                } else if channel_shape_of(doc_shapes(old(self).doc), target@, "serial"@) != Shape::Standard || !has_serial(old(self).lab, target@, name@)
                    || !doc_serial_named(doc_serials(old(self).doc), target@, serial_index_in(old(self).lab, target@, name@), name@) {
                    Some(no_serial_text(target@, name@))
                } else {
                    None
                }) {
                Some(m) => r matches Err(e) && e.0@ == m && final(self).lab == old(self).lab && final(self).doc
                    == old(self).doc,
                None => r is Ok,
            },
            r is Ok ==> ({
                let i = target_at(old(self).lab, target@)->0;
                let t0 = old(self).lab.targets@[i].1;
                let t = final(self).lab.targets@[i].1;
                &&& target_replaced(old(self).lab, final(self).lab, i, t)
                &&& t == (Target { serial: t.serial, ..t0 })
                &&& t.serial@ == t0.serial@.remove(serial_at(t0.serial@, name@)->0)
            }),
            r is Ok ==> (if serials_of(doc_serials(old(self).doc), target@).len() == 1 {
                    doc_shapes(final(self).doc) == drop_under(doc_shapes(old(self).doc), seq!["targets"@, target@, "serial"@])
                        && doc_texts(final(self).doc) == drop_under(doc_texts(old(self).doc), seq!["targets"@, target@, "serial"@]) && doc_serials(final(self).doc) == doc_serials(old(self).doc).remove(target@)
                } else {
                    doc_shapes(final(self).doc) == doc_shapes(old(self).doc) && doc_texts(final(self).doc) == doc_texts(old(self).doc) && doc_serials(final(self).doc) == doc_serials(old(self).doc).insert(target@,
                        doc_serials(old(self).doc)[target@].remove(serial_index_in(old(self).lab, target@, name@)))
                }),
    {
        proof {
            lemma_key_words();
        }
        let ti = match self.target_check(target) {
            Err(e) => return Err(e),
            Ok(i) => i,
        };
        if serial_shape(&self.doc, "targets", target, "serial") != Shape::Standard {
            return no_serial_err(target, name);
        }
        let dj = match self.doc_serial_check(ti, target, name) {
            Some(j) => j,
            None => return no_serial_err(target, name),
        };
        proof {
            lemma_first_index(self.lab.target_keys(), target@);
        }
        let i0 = match self.lab.find_target(target) {
            Some(i0) => i0,
            None => return err_named("no target '", target, "'"),
        };
        let j = match serial_index(&self.lab.targets[i0].1.serial, name) {
            Some(j) => j,
            None => {
                let mut m = owned("target '");
                push_str(&mut m, target);
                push_str(&mut m, "': no serial '");
                push_str(&mut m, name);
                push_str(&mut m, "'");
                return Err(LabError(m));
            },
        };
        let (i, k, mut t) = match self.take_target(target) {
            Ok(x) => x,
            Err(e) => return Err(e),
        };
        let ghost ser0 = t.serial@;
        assert(i == i0);
        assert(ser0 == old(self).lab.targets@[i as int].1.serial@);
        assert(serial_at(ser0, name@) == Some(j as int));
        t.serial.remove(j);
        assert(t.serial@ == ser0.remove(j as int));
        self.put_target(i, k, t);
        proof {
            let o = old(self).lab.targets@;
            assert(self.lab.targets@ =~= o.update(i as int, (o[i as int].0, self.lab.targets@[i as int].1)));
        }
        {
            let q = dj;
            remove_serial_at(&mut self.doc, "targets", target, "serial", q);
            if serial_count(&self.doc, "targets", target, "serial") == 0 {
                remove_channel(&mut self.doc, "targets", target, "serial");
            }
        }
        proof {
            lemma_replaced_keys(old(self).lab, self.lab, i as int, self.lab.targets@[i as int].1);
        }
        proof {
            if old(self).lab.well_keyed() && doc_agrees(old(self).lab, old(self).doc) {
                let o = old(self).lab.targets@;
                let t0 = o[i as int].1;
                let t1 = self.lab.targets@[i as int].1;
                let q0 = doc_serials(old(self).doc);
                let q1 = doc_serials(self.doc);
                let ds0 = serials_of(q0, target@);
                assert(o[i as int].0@ == target@);
                assert(serials_named(ds0, t0.serial@));
                assert(target_held(old(self).doc, o[i as int].0@, t0));
                lemma_kinds_distinct();
                if ds0.len() == 1 {
                    lemma_deep_drop(doc_shapes(old(self).doc), seq!["targets"@, target@, "serial"@]);
                    assert(doc_shapes(self.doc) == drop_under(doc_shapes(old(self).doc), table_path(target@, "serial"@)));
                    lemma_tables_drop(doc_shapes(old(self).doc), target@, t0, t1, "serial"@);
                    assert(t1.serial@.len() == 0);
                    assert(serials_of(q1, target@) =~= Seq::empty());
                } else {
                    assert(t1.serial@.len() > 0);
                    lemma_tables_same(doc_shapes(old(self).doc), target@, t0, t1);
                    assert(serials_of(q1, target@) == ds0.remove(j as int));
                    assert forall|jj: int| 0 <= jj < t1.serial@.len() implies #[trigger] serials_of(q1, target@)[jj]["name"@]
                        == t1.serial@[jj].name@ && serials_of(q1, target@)[jj].contains_key("name"@) by {
                        if jj < j {
                            assert(t1.serial@[jj] == t0.serial@[jj]);
                        } else {
                            assert(t1.serial@[jj] == t0.serial@[jj + 1]);
                            assert(serials_of(q1, target@)[jj] == ds0[jj + 1]);
                        }
                    }
                }
                assert(serials_named(serials_of(q1, target@), t1.serial@));
                assert forall|k: Seq<char>| k != o[i as int].0@ implies #[trigger] serials_of(q1, k) == serials_of(q0, k) by {}
                lemma_agrees_serials(old(self).lab, self.lab, old(self).doc, self.doc, i as int, t1);
            }
        }
        Ok(())
    }

    /// Set the given fields of `target`'s netboot channel, creating it when absent.
    pub fn set_netboot(
        &mut self,
        target: &str,
        interface: Option<&str>,
        host_ip: Option<&str>,
        tftp_root: Option<&str>,
        boot_file: Option<&str>,
        http_port: Option<&str>,
        content_type: Option<&str>,
        host: Option<&str>,
    ) -> (r: Result<(), LabError>)
        ensures
            old(self).lab.well_keyed() ==> final(self).lab.well_keyed(),
            final(self).header == old(self).header,
            old(self).lab.well_keyed() && doc_agrees(old(self).lab, old(self).doc) ==> doc_agrees(final(self).lab, final(self).doc),
            match (if target_problem(doc_shapes(old(self).doc), old(self).lab, target@) is Some {
                    target_problem(doc_shapes(old(self).doc), old(self).lab, target@)
                } else if channel_shape_of(doc_shapes(old(self).doc), target@, "netboot"@) == Shape::Other {
                    Some(not_table_text(target@, "netboot"@))
                } else {
                    None
                }) {
                Some(m) => r matches Err(e) && e.0@ == m && final(self).lab == old(self).lab && final(self).doc
                    == old(self).doc,
                None => r is Ok,
            },
            r is Ok ==> ({
                let i = target_at(old(self).lab, target@)->0;
                let t0 = old(self).lab.targets@[i].1;
                let t = final(self).lab.targets@[i].1;
                let c0 = netboot_or_empty(t0.netboot);
                &&& target_replaced(old(self).lab, final(self).lab, i, t)
                &&& t == (Target { netboot: t.netboot, ..t0 })
                &&& t.netboot matches Some(c) && {
                &&& opt_string_view(c.interface) == set_v(c0.interface, interface)
                &&& opt_string_view(c.host_ip) == set_v(c0.host_ip, host_ip)
                &&& opt_string_view(c.tftp_root) == set_v(c0.tftp_root, tftp_root)
                &&& opt_string_view(c.boot_file) == set_v(c0.boot_file, boot_file)
                &&& opt_string_view(c.http_port) == set_v(c0.http_port, http_port)
                &&& opt_string_view(c.content_type) == set_v(c0.content_type, content_type)
                &&& opt_string_view(c.host) == set_v(c0.host, host)
                }
            }),
            r is Ok ==> (doc_shapes(final(self).doc) == doc_shapes(old(self).doc).insert(seq!["targets"@, target@, "netboot"@], Shape::Standard) && doc_serials(final(self).doc) == doc_serials(old(self).doc)
                && doc_texts(final(self).doc) == put(put(put(put(put(put(put(doc_texts(old(self).doc), chan(target@, "netboot"@, "interface"@), opt_view(interface)), chan(target@, "netboot"@, "host_ip"@), opt_view(host_ip)), chan(target@, "netboot"@, "tftp_root"@), opt_view(tftp_root)), chan(target@, "netboot"@, "boot_file"@), opt_view(boot_file)), chan(target@, "netboot"@, "http_port"@), opt_view(http_port)), chan(target@, "netboot"@, "content_type"@), opt_view(content_type)), chan(target@, "netboot"@, "host"@), opt_view(host))),
    {
        proof {
            lemma_key_words();
        }
        match self.target_check(target) {
            Err(e) => return Err(e),
            Ok(_) => {},
        }
        if channel_shape(&self.doc, "targets", target, "netboot") == Shape::Other {
            return Err(not_table(target, "netboot"));
        }
        proof {
            lemma_first_index(self.lab.target_keys(), target@);
        }
        let (i, k, mut t) = match self.take_target(target) {
            Ok(x) => x,
            Err(e) => return Err(e),
        };
        let mut c = match t.netboot.take() {
            Some(c) => c,
            None => NetbootChannel { interface: None, host_ip: None, tftp_root: None, boot_file: None, http_port: None, content_type: None, host: None },
        };
        set_opt(&mut c.interface, interface);
        set_opt(&mut c.host_ip, host_ip);
        set_opt(&mut c.tftp_root, tftp_root);
        set_opt(&mut c.boot_file, boot_file);
        set_opt(&mut c.http_port, http_port);
        set_opt(&mut c.content_type, content_type);
        set_opt(&mut c.host, host);
        t.netboot = Some(c);
        self.put_target(i, k, t);
        proof {
            let o = old(self).lab.targets@;
            assert(self.lab.targets@ =~= o.update(i as int, (o[i as int].0, self.lab.targets@[i as int].1)));
        }
        doc_channel_open(&mut self.doc, target, "netboot");
        doc_channel_opt(&mut self.doc, target, "netboot", "interface", interface);
        doc_channel_opt(&mut self.doc, target, "netboot", "host_ip", host_ip);
        doc_channel_opt(&mut self.doc, target, "netboot", "tftp_root", tftp_root);
        doc_channel_opt(&mut self.doc, target, "netboot", "boot_file", boot_file);
        doc_channel_opt(&mut self.doc, target, "netboot", "http_port", http_port);
        doc_channel_opt(&mut self.doc, target, "netboot", "content_type", content_type);
        doc_channel_opt(&mut self.doc, target, "netboot", "host", host);
        proof {
            lemma_replaced_keys(old(self).lab, self.lab, i as int, self.lab.targets@[i as int].1);
        }
        proof {
            if old(self).lab.well_keyed() && doc_agrees(old(self).lab, old(self).doc) {
                lemma_deep_insert(doc_shapes(old(self).doc), seq!["targets"@, target@, "netboot"@], Shape::Standard);
                assert(target_held(old(self).doc, old(self).lab.targets@[i as int].0@, old(self).lab.targets@[i as int].1));
                lemma_kinds_distinct();
                assert(doc_shapes(self.doc) == doc_shapes(old(self).doc).insert(table_path(target@, "netboot"@), Shape::Standard));
                lemma_tables_set(doc_shapes(old(self).doc), target@, old(self).lab.targets@[i as int].1, self.lab.targets@[i as int].1, "netboot"@);
                lemma_agrees_channel(old(self).lab, self.lab, old(self).doc, self.doc, i as int, self.lab.targets@[i as int].1);
            }
        }
        Ok(())
    }

    /// Remove `target`'s netboot channel.
    pub fn remove_netboot(&mut self, target: &str) -> (r: Result<(), LabError>)
        ensures
            old(self).lab.well_keyed() ==> final(self).lab.well_keyed(),
            final(self).header == old(self).header,
            old(self).lab.well_keyed() && doc_agrees(old(self).lab, old(self).doc) ==> doc_agrees(final(self).lab, final(self).doc),
            match (if target_problem(doc_shapes(old(self).doc), old(self).lab, target@) is Some {
                    target_problem(doc_shapes(old(self).doc), old(self).lab, target@)
                } else if old(self).lab.targets@[target_at(old(self).lab, target@)->0].1.netboot is None {
                    Some(no_channel_text(target@, "netboot"@))
                } else {
                    None
                }) {
                Some(m) => r matches Err(e) && e.0@ == m && final(self).lab == old(self).lab && final(self).doc
                    == old(self).doc,
                None => r is Ok,
            },
            r is Ok ==> ({
                let i = target_at(old(self).lab, target@)->0;
                let t0 = old(self).lab.targets@[i].1;
                let t = final(self).lab.targets@[i].1;
                &&& target_replaced(old(self).lab, final(self).lab, i, t)
                &&& t == (Target { netboot: None, ..t0 })
            }),
            r is Ok ==> (doc_shapes(final(self).doc) == drop_under(doc_shapes(old(self).doc), seq!["targets"@, target@, "netboot"@]) && doc_texts(final(self).doc) == drop_under(doc_texts(old(self).doc), seq!["targets"@, target@, "netboot"@])
                && doc_serials(final(self).doc) == doc_serials(old(self).doc)),
    {
        proof {
            lemma_key_words();
        }
        match self.target_check(target) {
            Err(e) => return Err(e),
            Ok(_) => {},
        }
        proof {
            lemma_first_index(self.lab.target_keys(), target@);
        }
        let i0 = match self.lab.find_target(target) {
            Some(i0) => i0,
            None => return err_named("no target '", target, "'"),
        };
        if self.lab.targets[i0].1.netboot.is_none() {
            let mut m = owned("target '");
            push_str(&mut m, target);
            push_str(&mut m, "\': no ");
            push_str(&mut m, "netboot");
            push_str(&mut m, " channel");
            return Err(LabError(m));
        }
        let (i, k, mut t) = match self.take_target(target) {
            Ok(x) => x,
            Err(e) => return Err(e),
        };
        t.netboot = None;
        self.put_target(i, k, t);
        proof {
            let o = old(self).lab.targets@;
            assert(self.lab.targets@ =~= o.update(i as int, (o[i as int].0, self.lab.targets@[i as int].1)));
        }
        remove_channel(&mut self.doc, "targets", target, "netboot");
        proof {
            lemma_replaced_keys(old(self).lab, self.lab, i as int, self.lab.targets@[i as int].1);
        }
        proof {
            if old(self).lab.well_keyed() && doc_agrees(old(self).lab, old(self).doc) {
                lemma_deep_drop(doc_shapes(old(self).doc), seq!["targets"@, target@, "netboot"@]);
                assert(target_held(old(self).doc, old(self).lab.targets@[i as int].0@, old(self).lab.targets@[i as int].1));
                lemma_kinds_distinct();
                assert(doc_shapes(self.doc) == drop_under(doc_shapes(old(self).doc), table_path(target@, "netboot"@)));
                lemma_tables_drop(doc_shapes(old(self).doc), target@, old(self).lab.targets@[i as int].1, self.lab.targets@[i as int].1, "netboot"@);
                lemma_agrees_channel(old(self).lab, self.lab, old(self).doc, self.doc, i as int, self.lab.targets@[i as int].1);
            }
        }
        Ok(())
    }

    /// Set the given fields of `target`'s power channel, creating it when absent.
    pub fn set_power(
        &mut self,
        target: &str,
        cycle_cmd: Option<&str>,
        on_cmd: Option<&str>,
        off_cmd: Option<&str>,
        state_cmd: Option<&str>,
        serial_interface: Option<&str>,
        host: Option<&str>,
    ) -> (r: Result<(), LabError>)
        ensures
            old(self).lab.well_keyed() ==> final(self).lab.well_keyed(),
            final(self).header == old(self).header,
            old(self).lab.well_keyed() && doc_agrees(old(self).lab, old(self).doc) ==> doc_agrees(final(self).lab, final(self).doc),
            match (if target_problem(doc_shapes(old(self).doc), old(self).lab, target@) is Some {
                    target_problem(doc_shapes(old(self).doc), old(self).lab, target@)
                } else if channel_shape_of(doc_shapes(old(self).doc), target@, "power"@) == Shape::Other {
                    Some(not_table_text(target@, "power"@))
                } else {
                    None
                }) {
                Some(m) => r matches Err(e) && e.0@ == m && final(self).lab == old(self).lab && final(self).doc
                    == old(self).doc,
                None => r is Ok,
            },
            r is Ok ==> ({
                let i = target_at(old(self).lab, target@)->0;
                let t0 = old(self).lab.targets@[i].1;
                let t = final(self).lab.targets@[i].1;
                let c0 = power_or_empty(t0.power);
                &&& target_replaced(old(self).lab, final(self).lab, i, t)
                &&& t == (Target { power: t.power, ..t0 })
                &&& t.power matches Some(c) && {
                &&& opt_string_view(c.cycle_cmd) == set_v(c0.cycle_cmd, cycle_cmd)
                &&& opt_string_view(c.on_cmd) == set_v(c0.on_cmd, on_cmd)
                &&& opt_string_view(c.off_cmd) == set_v(c0.off_cmd, off_cmd)
                &&& opt_string_view(c.state_cmd) == set_v(c0.state_cmd, state_cmd)
                &&& opt_string_view(c.serial_interface) == set_v(c0.serial_interface, serial_interface)
                &&& opt_string_view(c.host) == set_v(c0.host, host)
                }
            }),
            r is Ok ==> (doc_shapes(final(self).doc) == doc_shapes(old(self).doc).insert(seq!["targets"@, target@, "power"@], Shape::Standard) && doc_serials(final(self).doc) == doc_serials(old(self).doc)
                && doc_texts(final(self).doc) == put(put(put(put(put(put(doc_texts(old(self).doc), chan(target@, "power"@, "cycle_cmd"@), opt_view(cycle_cmd)), chan(target@, "power"@, "on_cmd"@), opt_view(on_cmd)), chan(target@, "power"@, "off_cmd"@), opt_view(off_cmd)), chan(target@, "power"@, "state_cmd"@), opt_view(state_cmd)), chan(target@, "power"@, "serial_interface"@), opt_view(serial_interface)), chan(target@, "power"@, "host"@), opt_view(host))),
    {
        proof {
            lemma_key_words();
        }
        match self.target_check(target) {
            Err(e) => return Err(e),
            Ok(_) => {},
        }
        if channel_shape(&self.doc, "targets", target, "power") == Shape::Other {
            return Err(not_table(target, "power"));
        }
        proof {
            lemma_first_index(self.lab.target_keys(), target@);
        }
        let (i, k, mut t) = match self.take_target(target) {
            Ok(x) => x,
            Err(e) => return Err(e),
        };
        let mut c = match t.power.take() {
            Some(c) => c,
            None => PowerChannel { cycle_cmd: None, on_cmd: None, off_cmd: None, state_cmd: None, serial_interface: None, host: None },
        };
        set_opt(&mut c.cycle_cmd, cycle_cmd);
        set_opt(&mut c.on_cmd, on_cmd);
        set_opt(&mut c.off_cmd, off_cmd);
        set_opt(&mut c.state_cmd, state_cmd);
        set_opt(&mut c.serial_interface, serial_interface);
        set_opt(&mut c.host, host);
        t.power = Some(c);
        self.put_target(i, k, t);
        proof {
            let o = old(self).lab.targets@;
            assert(self.lab.targets@ =~= o.update(i as int, (o[i as int].0, self.lab.targets@[i as int].1)));
        }
        doc_channel_open(&mut self.doc, target, "power");
        doc_channel_opt(&mut self.doc, target, "power", "cycle_cmd", cycle_cmd);
        doc_channel_opt(&mut self.doc, target, "power", "on_cmd", on_cmd);
        doc_channel_opt(&mut self.doc, target, "power", "off_cmd", off_cmd);
        doc_channel_opt(&mut self.doc, target, "power", "state_cmd", state_cmd);
        doc_channel_opt(&mut self.doc, target, "power", "serial_interface", serial_interface);
        doc_channel_opt(&mut self.doc, target, "power", "host", host);
        proof {
            lemma_replaced_keys(old(self).lab, self.lab, i as int, self.lab.targets@[i as int].1);
        }
        proof {
            if old(self).lab.well_keyed() && doc_agrees(old(self).lab, old(self).doc) {
                lemma_deep_insert(doc_shapes(old(self).doc), seq!["targets"@, target@, "power"@], Shape::Standard);
                assert(target_held(old(self).doc, old(self).lab.targets@[i as int].0@, old(self).lab.targets@[i as int].1));
                lemma_kinds_distinct();
                assert(doc_shapes(self.doc) == doc_shapes(old(self).doc).insert(table_path(target@, "power"@), Shape::Standard));
                lemma_tables_set(doc_shapes(old(self).doc), target@, old(self).lab.targets@[i as int].1, self.lab.targets@[i as int].1, "power"@);
                lemma_agrees_channel(old(self).lab, self.lab, old(self).doc, self.doc, i as int, self.lab.targets@[i as int].1);
            }
        }
        Ok(())
    }

    /// Remove `target`'s power channel.
    pub fn remove_power(&mut self, target: &str) -> (r: Result<(), LabError>)
        ensures
            old(self).lab.well_keyed() ==> final(self).lab.well_keyed(),
            final(self).header == old(self).header,
            old(self).lab.well_keyed() && doc_agrees(old(self).lab, old(self).doc) ==> doc_agrees(final(self).lab, final(self).doc),
            match (if target_problem(doc_shapes(old(self).doc), old(self).lab, target@) is Some {
                    target_problem(doc_shapes(old(self).doc), old(self).lab, target@)
                } else if old(self).lab.targets@[target_at(old(self).lab, target@)->0].1.power is None {
                    Some(no_channel_text(target@, "power"@))
                } else {
                    None
                }) {
                Some(m) => r matches Err(e) && e.0@ == m && final(self).lab == old(self).lab && final(self).doc
                    == old(self).doc,
                None => r is Ok,
            },
            r is Ok ==> ({
                let i = target_at(old(self).lab, target@)->0;
                let t0 = old(self).lab.targets@[i].1;
                let t = final(self).lab.targets@[i].1;
                &&& target_replaced(old(self).lab, final(self).lab, i, t)
                &&& t == (Target { power: None, ..t0 })
            }),
            r is Ok ==> (doc_shapes(final(self).doc) == drop_under(doc_shapes(old(self).doc), seq!["targets"@, target@, "power"@]) && doc_texts(final(self).doc) == drop_under(doc_texts(old(self).doc), seq!["targets"@, target@, "power"@])
                && doc_serials(final(self).doc) == doc_serials(old(self).doc)),
    {
        proof {
            lemma_key_words();
        }
        match self.target_check(target) {
            Err(e) => return Err(e),
            Ok(_) => {},
        }
        proof {
            lemma_first_index(self.lab.target_keys(), target@);
        }
        let i0 = match self.lab.find_target(target) {
            Some(i0) => i0,
            None => return err_named("no target '", target, "'"),
        };
        if self.lab.targets[i0].1.power.is_none() {
            let mut m = owned("target '");
            push_str(&mut m, target);
            push_str(&mut m, "\': no ");
            push_str(&mut m, "power");
            push_str(&mut m, " channel");
            return Err(LabError(m));
        }
        let (i, k, mut t) = match self.take_target(target) {
            Ok(x) => x,
            Err(e) => return Err(e),
        };
        t.power = None;
        self.put_target(i, k, t);
        proof {
            let o = old(self).lab.targets@;
            assert(self.lab.targets@ =~= o.update(i as int, (o[i as int].0, self.lab.targets@[i as int].1)));
        }
        remove_channel(&mut self.doc, "targets", target, "power");
        proof {
            lemma_replaced_keys(old(self).lab, self.lab, i as int, self.lab.targets@[i as int].1);
        }
        proof {
            if old(self).lab.well_keyed() && doc_agrees(old(self).lab, old(self).doc) {
                lemma_deep_drop(doc_shapes(old(self).doc), seq!["targets"@, target@, "power"@]);
                assert(target_held(old(self).doc, old(self).lab.targets@[i as int].0@, old(self).lab.targets@[i as int].1));
                lemma_kinds_distinct();
                assert(doc_shapes(self.doc) == drop_under(doc_shapes(old(self).doc), table_path(target@, "power"@)));
                lemma_tables_drop(doc_shapes(old(self).doc), target@, old(self).lab.targets@[i as int].1, self.lab.targets@[i as int].1, "power"@);
                lemma_agrees_channel(old(self).lab, self.lab, old(self).doc, self.doc, i as int, self.lab.targets@[i as int].1);
            }
        }
        Ok(())
    }

    /// Set the given fields of `target`'s video channel, creating it when absent.
    pub fn set_video(
        &mut self,
        target: &str,
        device: Option<&str>,
        ocr_mode: Option<&str>,
        host: Option<&str>,
    ) -> (r: Result<(), LabError>)
        ensures
            old(self).lab.well_keyed() ==> final(self).lab.well_keyed(),
            final(self).header == old(self).header,
            old(self).lab.well_keyed() && doc_agrees(old(self).lab, old(self).doc) ==> doc_agrees(final(self).lab, final(self).doc),
            match (if target_problem(doc_shapes(old(self).doc), old(self).lab, target@) is Some {
                    target_problem(doc_shapes(old(self).doc), old(self).lab, target@)
                } else if channel_shape_of(doc_shapes(old(self).doc), target@, "video"@) == Shape::Other {
                    Some(not_table_text(target@, "video"@))
                } else {
                    None
                }) {
                Some(m) => r matches Err(e) && e.0@ == m && final(self).lab == old(self).lab && final(self).doc
                    == old(self).doc,
                None => r is Ok,
            },
            r is Ok ==> ({
                let i = target_at(old(self).lab, target@)->0;
                let t0 = old(self).lab.targets@[i].1;
                let t = final(self).lab.targets@[i].1;
                let c0 = video_or_empty(t0.video);
                &&& target_replaced(old(self).lab, final(self).lab, i, t)
                &&& t == (Target { video: t.video, ..t0 })
                &&& t.video matches Some(c) && {
                &&& opt_string_view(c.device) == set_v(c0.device, device)
                &&& opt_string_view(c.ocr_mode) == set_v(c0.ocr_mode, ocr_mode)
                &&& opt_string_view(c.host) == set_v(c0.host, host)
                }
            }),
            r is Ok ==> (doc_shapes(final(self).doc) == doc_shapes(old(self).doc).insert(seq!["targets"@, target@, "video"@], Shape::Standard) && doc_serials(final(self).doc) == doc_serials(old(self).doc)
                && doc_texts(final(self).doc) == put(put(put(doc_texts(old(self).doc), chan(target@, "video"@, "device"@), opt_view(device)), chan(target@, "video"@, "ocr_mode"@), opt_view(ocr_mode)), chan(target@, "video"@, "host"@), opt_view(host))),
    {
        proof {
            lemma_key_words();
        }
        match self.target_check(target) {
            Err(e) => return Err(e),
            Ok(_) => {},
        }
        if channel_shape(&self.doc, "targets", target, "video") == Shape::Other {
            return Err(not_table(target, "video"));
        }
        proof {
            lemma_first_index(self.lab.target_keys(), target@);
        }
        let (i, k, mut t) = match self.take_target(target) {
            Ok(x) => x,
            Err(e) => return Err(e),
        };
        let mut c = match t.video.take() {
            Some(c) => c,
            None => VideoChannel { device: None, host: None, ocr_mode: None },
        };
        set_opt(&mut c.device, device);
        set_opt(&mut c.ocr_mode, ocr_mode);
        set_opt(&mut c.host, host);
        t.video = Some(c);
        self.put_target(i, k, t);
        proof {
            let o = old(self).lab.targets@;
            assert(self.lab.targets@ =~= o.update(i as int, (o[i as int].0, self.lab.targets@[i as int].1)));
        }
        doc_channel_open(&mut self.doc, target, "video");
        doc_channel_opt(&mut self.doc, target, "video", "device", device);
        doc_channel_opt(&mut self.doc, target, "video", "ocr_mode", ocr_mode);
        doc_channel_opt(&mut self.doc, target, "video", "host", host);
        proof {
            lemma_replaced_keys(old(self).lab, self.lab, i as int, self.lab.targets@[i as int].1);
        }
        proof {
            if old(self).lab.well_keyed() && doc_agrees(old(self).lab, old(self).doc) {
                lemma_deep_insert(doc_shapes(old(self).doc), seq!["targets"@, target@, "video"@], Shape::Standard);
                assert(target_held(old(self).doc, old(self).lab.targets@[i as int].0@, old(self).lab.targets@[i as int].1));
                lemma_kinds_distinct();
                assert(doc_shapes(self.doc) == doc_shapes(old(self).doc).insert(table_path(target@, "video"@), Shape::Standard));
                lemma_tables_set(doc_shapes(old(self).doc), target@, old(self).lab.targets@[i as int].1, self.lab.targets@[i as int].1, "video"@);
                lemma_agrees_channel(old(self).lab, self.lab, old(self).doc, self.doc, i as int, self.lab.targets@[i as int].1);
            }
        }
        Ok(())
    }

    /// Remove `target`'s video channel.
    pub fn remove_video(&mut self, target: &str) -> (r: Result<(), LabError>)
        ensures
            old(self).lab.well_keyed() ==> final(self).lab.well_keyed(),
            final(self).header == old(self).header,
            old(self).lab.well_keyed() && doc_agrees(old(self).lab, old(self).doc) ==> doc_agrees(final(self).lab, final(self).doc),
            match (if target_problem(doc_shapes(old(self).doc), old(self).lab, target@) is Some {
                    target_problem(doc_shapes(old(self).doc), old(self).lab, target@)
                } else if old(self).lab.targets@[target_at(old(self).lab, target@)->0].1.video is None {
                    Some(no_channel_text(target@, "video"@))
                } else {
                    None
                }) {
                Some(m) => r matches Err(e) && e.0@ == m && final(self).lab == old(self).lab && final(self).doc
                    == old(self).doc,
                None => r is Ok,
            },
            r is Ok ==> ({
                let i = target_at(old(self).lab, target@)->0;
                let t0 = old(self).lab.targets@[i].1;
                let t = final(self).lab.targets@[i].1;
                &&& target_replaced(old(self).lab, final(self).lab, i, t)
                &&& t == (Target { video: None, ..t0 })
            }),
            r is Ok ==> (doc_shapes(final(self).doc) == drop_under(doc_shapes(old(self).doc), seq!["targets"@, target@, "video"@]) && doc_texts(final(self).doc) == drop_under(doc_texts(old(self).doc), seq!["targets"@, target@, "video"@])
                && doc_serials(final(self).doc) == doc_serials(old(self).doc)),
    {
        proof {
            lemma_key_words();
        }
        match self.target_check(target) {
            Err(e) => return Err(e),
            Ok(_) => {},
        }
        proof {
            lemma_first_index(self.lab.target_keys(), target@);
        }
        let i0 = match self.lab.find_target(target) {
            Some(i0) => i0,
            None => return err_named("no target '", target, "'"),
        };
        if self.lab.targets[i0].1.video.is_none() {
            let mut m = owned("target '");
            push_str(&mut m, target);
            push_str(&mut m, "\': no ");
            push_str(&mut m, "video");
            push_str(&mut m, " channel");
            return Err(LabError(m));
        }
        let (i, k, mut t) = match self.take_target(target) {
            Ok(x) => x,
            Err(e) => return Err(e),
        };
        t.video = None;
        self.put_target(i, k, t);
        proof {
            let o = old(self).lab.targets@;
            assert(self.lab.targets@ =~= o.update(i as int, (o[i as int].0, self.lab.targets@[i as int].1)));
        }
        remove_channel(&mut self.doc, "targets", target, "video");
        proof {
            lemma_replaced_keys(old(self).lab, self.lab, i as int, self.lab.targets@[i as int].1);
        }
        proof {
            if old(self).lab.well_keyed() && doc_agrees(old(self).lab, old(self).doc) {
                lemma_deep_drop(doc_shapes(old(self).doc), seq!["targets"@, target@, "video"@]);
                assert(target_held(old(self).doc, old(self).lab.targets@[i as int].0@, old(self).lab.targets@[i as int].1));
                lemma_kinds_distinct();
                assert(doc_shapes(self.doc) == drop_under(doc_shapes(old(self).doc), table_path(target@, "video"@)));
                lemma_tables_drop(doc_shapes(old(self).doc), target@, old(self).lab.targets@[i as int].1, self.lab.targets@[i as int].1, "video"@);
                lemma_agrees_channel(old(self).lab, self.lab, old(self).doc, self.doc, i as int, self.lab.targets@[i as int].1);
            }
        }
        Ok(())
    }

    /// Set the given fields of `target`'s HID channel, creating it when absent.
    pub fn set_hid(
        &mut self,
        target: &str,
        cmd: Option<&str>,
        host: Option<&str>,
    ) -> (r: Result<(), LabError>)
        ensures
            old(self).lab.well_keyed() ==> final(self).lab.well_keyed(),
            final(self).header == old(self).header,
            old(self).lab.well_keyed() && doc_agrees(old(self).lab, old(self).doc) ==> doc_agrees(final(self).lab, final(self).doc),
            match (if target_problem(doc_shapes(old(self).doc), old(self).lab, target@) is Some {
                    target_problem(doc_shapes(old(self).doc), old(self).lab, target@)
                } else if channel_shape_of(doc_shapes(old(self).doc), target@, "hid"@) == Shape::Other {
                    Some(not_table_text(target@, "hid"@))
                } else {
                    None
                }) {
                Some(m) => r matches Err(e) && e.0@ == m && final(self).lab == old(self).lab && final(self).doc
                    == old(self).doc,
                None => r is Ok,
            },
            r is Ok ==> ({
                let i = target_at(old(self).lab, target@)->0;
                let t0 = old(self).lab.targets@[i].1;
                let t = final(self).lab.targets@[i].1;
                let c0 = hid_or_empty(t0.hid);
                &&& target_replaced(old(self).lab, final(self).lab, i, t)
                &&& t == (Target { hid: t.hid, ..t0 })
                &&& t.hid matches Some(c) && {
                &&& opt_string_view(c.cmd) == set_v(c0.cmd, cmd)
                &&& opt_string_view(c.host) == set_v(c0.host, host)
                }
            }),
            r is Ok ==> (doc_shapes(final(self).doc) == doc_shapes(old(self).doc).insert(seq!["targets"@, target@, "hid"@], Shape::Standard) && doc_serials(final(self).doc) == doc_serials(old(self).doc)
                && doc_texts(final(self).doc) == put(put(doc_texts(old(self).doc), chan(target@, "hid"@, "cmd"@), opt_view(cmd)), chan(target@, "hid"@, "host"@), opt_view(host))),
    {
        proof {
            lemma_key_words();
        }
        match self.target_check(target) {
            Err(e) => return Err(e),
            Ok(_) => {},
        }
        if channel_shape(&self.doc, "targets", target, "hid") == Shape::Other {
            return Err(not_table(target, "hid"));
        }
        proof {
            lemma_first_index(self.lab.target_keys(), target@);
        }
        let (i, k, mut t) = match self.take_target(target) {
            Ok(x) => x,
            Err(e) => return Err(e),
        };
        let mut c = match t.hid.take() {
            Some(c) => c,
            None => HidChannel { cmd: None, host: None },
        };
        set_opt(&mut c.cmd, cmd);
        set_opt(&mut c.host, host);
        t.hid = Some(c);
        self.put_target(i, k, t);
        proof {
            let o = old(self).lab.targets@;
            assert(self.lab.targets@ =~= o.update(i as int, (o[i as int].0, self.lab.targets@[i as int].1)));
        }
        doc_channel_open(&mut self.doc, target, "hid");
        doc_channel_opt(&mut self.doc, target, "hid", "cmd", cmd);
        doc_channel_opt(&mut self.doc, target, "hid", "host", host);
        proof {
            lemma_replaced_keys(old(self).lab, self.lab, i as int, self.lab.targets@[i as int].1);
        }
        proof {
            if old(self).lab.well_keyed() && doc_agrees(old(self).lab, old(self).doc) {
                lemma_deep_insert(doc_shapes(old(self).doc), seq!["targets"@, target@, "hid"@], Shape::Standard);
                assert(target_held(old(self).doc, old(self).lab.targets@[i as int].0@, old(self).lab.targets@[i as int].1));
                lemma_kinds_distinct();
                assert(doc_shapes(self.doc) == doc_shapes(old(self).doc).insert(table_path(target@, "hid"@), Shape::Standard));
                lemma_tables_set(doc_shapes(old(self).doc), target@, old(self).lab.targets@[i as int].1, self.lab.targets@[i as int].1, "hid"@);
                lemma_agrees_channel(old(self).lab, self.lab, old(self).doc, self.doc, i as int, self.lab.targets@[i as int].1);
            }
        }
        Ok(())
    }

    /// Remove `target`'s hid channel.
    pub fn remove_hid(&mut self, target: &str) -> (r: Result<(), LabError>)
        ensures
            old(self).lab.well_keyed() ==> final(self).lab.well_keyed(),
            final(self).header == old(self).header,
            old(self).lab.well_keyed() && doc_agrees(old(self).lab, old(self).doc) ==> doc_agrees(final(self).lab, final(self).doc),
            match (if target_problem(doc_shapes(old(self).doc), old(self).lab, target@) is Some {
                    target_problem(doc_shapes(old(self).doc), old(self).lab, target@)
                } else if old(self).lab.targets@[target_at(old(self).lab, target@)->0].1.hid is None {
                    Some(no_channel_text(target@, "hid"@))
                } else {
                    None
                }) {
                Some(m) => r matches Err(e) && e.0@ == m && final(self).lab == old(self).lab && final(self).doc
                    == old(self).doc,
                None => r is Ok,
            },
            r is Ok ==> ({
                let i = target_at(old(self).lab, target@)->0;
                let t0 = old(self).lab.targets@[i].1;
                let t = final(self).lab.targets@[i].1;
                &&& target_replaced(old(self).lab, final(self).lab, i, t)
                &&& t == (Target { hid: None, ..t0 })
            }),
            r is Ok ==> (doc_shapes(final(self).doc) == drop_under(doc_shapes(old(self).doc), seq!["targets"@, target@, "hid"@]) && doc_texts(final(self).doc) == drop_under(doc_texts(old(self).doc), seq!["targets"@, target@, "hid"@])
                && doc_serials(final(self).doc) == doc_serials(old(self).doc)),
    {
        proof {
            lemma_key_words();
        }
        match self.target_check(target) {
            Err(e) => return Err(e),
            Ok(_) => {},
        }
        proof {
            lemma_first_index(self.lab.target_keys(), target@);
        }
        let i0 = match self.lab.find_target(target) {
            Some(i0) => i0,
            None => return err_named("no target '", target, "'"),
        };
        if self.lab.targets[i0].1.hid.is_none() {
            let mut m = owned("target '");
            push_str(&mut m, target);
            push_str(&mut m, "\': no ");
            push_str(&mut m, "hid");
            push_str(&mut m, " channel");
            return Err(LabError(m));
        }
        let (i, k, mut t) = match self.take_target(target) {
            Ok(x) => x,
            Err(e) => return Err(e),
        };
        t.hid = None;
        self.put_target(i, k, t);
        proof {
            let o = old(self).lab.targets@;
            assert(self.lab.targets@ =~= o.update(i as int, (o[i as int].0, self.lab.targets@[i as int].1)));
        }
        remove_channel(&mut self.doc, "targets", target, "hid");
        proof {
            lemma_replaced_keys(old(self).lab, self.lab, i as int, self.lab.targets@[i as int].1);
        }
        proof {
            if old(self).lab.well_keyed() && doc_agrees(old(self).lab, old(self).doc) {
                lemma_deep_drop(doc_shapes(old(self).doc), seq!["targets"@, target@, "hid"@]);
                assert(target_held(old(self).doc, old(self).lab.targets@[i as int].0@, old(self).lab.targets@[i as int].1));
                lemma_kinds_distinct();
                assert(doc_shapes(self.doc) == drop_under(doc_shapes(old(self).doc), table_path(target@, "hid"@)));
                lemma_tables_drop(doc_shapes(old(self).doc), target@, old(self).lab.targets@[i as int].1, self.lab.targets@[i as int].1, "hid"@);
                lemma_agrees_channel(old(self).lab, self.lab, old(self).doc, self.doc, i as int, self.lab.targets@[i as int].1);
            }
        }
        Ok(())
    }

    /// Set the given fields of `target`'s USB channel, creating it when absent.
    pub fn set_usb(
        &mut self,
        target: &str,
        cmd: Option<&str>,
        host: Option<&str>,
    ) -> (r: Result<(), LabError>)
        ensures
            old(self).lab.well_keyed() ==> final(self).lab.well_keyed(),
            final(self).header == old(self).header,
            old(self).lab.well_keyed() && doc_agrees(old(self).lab, old(self).doc) ==> doc_agrees(final(self).lab, final(self).doc),
            match (if target_problem(doc_shapes(old(self).doc), old(self).lab, target@) is Some {
                    target_problem(doc_shapes(old(self).doc), old(self).lab, target@)
                } else if channel_shape_of(doc_shapes(old(self).doc), target@, "usb"@) == Shape::Other {
                    Some(not_table_text(target@, "usb"@))
                } else {
                    None
                }) {
                Some(m) => r matches Err(e) && e.0@ == m && final(self).lab == old(self).lab && final(self).doc
                    == old(self).doc,
                None => r is Ok,
            },
            r is Ok ==> ({
                let i = target_at(old(self).lab, target@)->0;
                let t0 = old(self).lab.targets@[i].1;
                let t = final(self).lab.targets@[i].1;
                let c0 = usb_or_empty(t0.usb);
                &&& target_replaced(old(self).lab, final(self).lab, i, t)
                &&& t == (Target { usb: t.usb, ..t0 })
                &&& t.usb matches Some(c) && {
                &&& opt_string_view(c.cmd) == set_v(c0.cmd, cmd)
                &&& opt_string_view(c.host) == set_v(c0.host, host)
                }
            }),
            r is Ok ==> (doc_shapes(final(self).doc) == doc_shapes(old(self).doc).insert(seq!["targets"@, target@, "usb"@], Shape::Standard) && doc_serials(final(self).doc) == doc_serials(old(self).doc)
                && doc_texts(final(self).doc) == put(put(doc_texts(old(self).doc), chan(target@, "usb"@, "cmd"@), opt_view(cmd)), chan(target@, "usb"@, "host"@), opt_view(host))),
    {
        proof {
            lemma_key_words();
        }
        match self.target_check(target) {
            Err(e) => return Err(e),
            Ok(_) => {},
        }
        if channel_shape(&self.doc, "targets", target, "usb") == Shape::Other {
            return Err(not_table(target, "usb"));
        }
        proof {
            lemma_first_index(self.lab.target_keys(), target@);
        }
        let (i, k, mut t) = match self.take_target(target) {
            Ok(x) => x,
            Err(e) => return Err(e),
        };
        let mut c = match t.usb.take() {
            Some(c) => c,
            None => UsbChannel { cmd: None, host: None },
        };
        set_opt(&mut c.cmd, cmd);
        set_opt(&mut c.host, host);
        t.usb = Some(c);
        self.put_target(i, k, t);
        proof {
            let o = old(self).lab.targets@;
            assert(self.lab.targets@ =~= o.update(i as int, (o[i as int].0, self.lab.targets@[i as int].1)));
        }
        doc_channel_open(&mut self.doc, target, "usb");
        doc_channel_opt(&mut self.doc, target, "usb", "cmd", cmd);
        doc_channel_opt(&mut self.doc, target, "usb", "host", host);
        proof {
            lemma_replaced_keys(old(self).lab, self.lab, i as int, self.lab.targets@[i as int].1);
        }
        proof {
            if old(self).lab.well_keyed() && doc_agrees(old(self).lab, old(self).doc) {
                lemma_deep_insert(doc_shapes(old(self).doc), seq!["targets"@, target@, "usb"@], Shape::Standard);
                assert(target_held(old(self).doc, old(self).lab.targets@[i as int].0@, old(self).lab.targets@[i as int].1));
                lemma_kinds_distinct();
                assert(doc_shapes(self.doc) == doc_shapes(old(self).doc).insert(table_path(target@, "usb"@), Shape::Standard));
                lemma_tables_set(doc_shapes(old(self).doc), target@, old(self).lab.targets@[i as int].1, self.lab.targets@[i as int].1, "usb"@);
                lemma_agrees_channel(old(self).lab, self.lab, old(self).doc, self.doc, i as int, self.lab.targets@[i as int].1);
            }
        }
        Ok(())
    }

    /// Remove `target`'s usb channel.
    pub fn remove_usb(&mut self, target: &str) -> (r: Result<(), LabError>)
        ensures
            old(self).lab.well_keyed() ==> final(self).lab.well_keyed(),
            final(self).header == old(self).header,
            old(self).lab.well_keyed() && doc_agrees(old(self).lab, old(self).doc) ==> doc_agrees(final(self).lab, final(self).doc),
            match (if target_problem(doc_shapes(old(self).doc), old(self).lab, target@) is Some {
                    target_problem(doc_shapes(old(self).doc), old(self).lab, target@)
                } else if old(self).lab.targets@[target_at(old(self).lab, target@)->0].1.usb is None {
                    Some(no_channel_text(target@, "usb"@))
                } else {
                    None
                }) {
                Some(m) => r matches Err(e) && e.0@ == m && final(self).lab == old(self).lab && final(self).doc
                    == old(self).doc,
                None => r is Ok,
            },
            r is Ok ==> ({
                let i = target_at(old(self).lab, target@)->0;
                let t0 = old(self).lab.targets@[i].1;
                let t = final(self).lab.targets@[i].1;
                &&& target_replaced(old(self).lab, final(self).lab, i, t)
                &&& t == (Target { usb: None, ..t0 })
            }),
            r is Ok ==> (doc_shapes(final(self).doc) == drop_under(doc_shapes(old(self).doc), seq!["targets"@, target@, "usb"@]) && doc_texts(final(self).doc) == drop_under(doc_texts(old(self).doc), seq!["targets"@, target@, "usb"@])
                && doc_serials(final(self).doc) == doc_serials(old(self).doc)),
    {
        proof {
            lemma_key_words();
        }
        match self.target_check(target) {
            Err(e) => return Err(e),
            Ok(_) => {},
        }
        proof {
            lemma_first_index(self.lab.target_keys(), target@);
        }
        let i0 = match self.lab.find_target(target) {
            Some(i0) => i0,
            None => return err_named("no target '", target, "'"),
        };
        if self.lab.targets[i0].1.usb.is_none() {
            let mut m = owned("target '");
            push_str(&mut m, target);
            push_str(&mut m, "\': no ");
            push_str(&mut m, "usb");
            push_str(&mut m, " channel");
            return Err(LabError(m));
        }
        let (i, k, mut t) = match self.take_target(target) {
            Ok(x) => x,
            Err(e) => return Err(e),
        };
        t.usb = None;
        self.put_target(i, k, t);
        proof {
            let o = old(self).lab.targets@;
            assert(self.lab.targets@ =~= o.update(i as int, (o[i as int].0, self.lab.targets@[i as int].1)));
        }
        remove_channel(&mut self.doc, "targets", target, "usb");
        proof {
            lemma_replaced_keys(old(self).lab, self.lab, i as int, self.lab.targets@[i as int].1);
        }
        proof {
            if old(self).lab.well_keyed() && doc_agrees(old(self).lab, old(self).doc) {
                lemma_deep_drop(doc_shapes(old(self).doc), seq!["targets"@, target@, "usb"@]);
                assert(target_held(old(self).doc, old(self).lab.targets@[i as int].0@, old(self).lab.targets@[i as int].1));
                lemma_kinds_distinct();
                assert(doc_shapes(self.doc) == drop_under(doc_shapes(old(self).doc), table_path(target@, "usb"@)));
                lemma_tables_drop(doc_shapes(old(self).doc), target@, old(self).lab.targets@[i as int].1, self.lab.targets@[i as int].1, "usb"@);
                lemma_agrees_channel(old(self).lab, self.lab, old(self).doc, self.doc, i as int, self.lab.targets@[i as int].1);
            }
        }
        Ok(())
    }

    /// Set the given fields of `target`'s adb channel, creating it when absent.
    pub fn set_adb(
        &mut self,
        target: &str,
        serial: Option<&str>,
        adb: Option<&str>,
        host: Option<&str>,
    ) -> (r: Result<(), LabError>)
        ensures
            old(self).lab.well_keyed() ==> final(self).lab.well_keyed(),
            final(self).header == old(self).header,
            old(self).lab.well_keyed() && doc_agrees(old(self).lab, old(self).doc) ==> doc_agrees(final(self).lab, final(self).doc),
            match (if target_problem(doc_shapes(old(self).doc), old(self).lab, target@) is Some {
                    target_problem(doc_shapes(old(self).doc), old(self).lab, target@)
                } else if channel_shape_of(doc_shapes(old(self).doc), target@, "adb"@) == Shape::Other {
                    Some(not_table_text(target@, "adb"@))
                } else {
                    None
                }) {
                Some(m) => r matches Err(e) && e.0@ == m && final(self).lab == old(self).lab && final(self).doc
                    == old(self).doc,
                None => r is Ok,
            },
            r is Ok ==> ({
                let i = target_at(old(self).lab, target@)->0;
                let t0 = old(self).lab.targets@[i].1;
                let t = final(self).lab.targets@[i].1;
                let c0 = adb_or_empty(t0.adb);
                &&& target_replaced(old(self).lab, final(self).lab, i, t)
                &&& t == (Target { adb: t.adb, ..t0 })
                &&& t.adb matches Some(c) && {
                &&& opt_string_view(c.serial) == set_v(c0.serial, serial)
                &&& opt_string_view(c.adb) == set_v(c0.adb, adb)
                &&& opt_string_view(c.host) == set_v(c0.host, host)
                }
            }),
            r is Ok ==> (doc_shapes(final(self).doc) == doc_shapes(old(self).doc).insert(seq!["targets"@, target@, "adb"@], Shape::Standard) && doc_serials(final(self).doc) == doc_serials(old(self).doc)
                && doc_texts(final(self).doc) == put(put(put(doc_texts(old(self).doc), chan(target@, "adb"@, "serial"@), opt_view(serial)), chan(target@, "adb"@, "adb"@), opt_view(adb)), chan(target@, "adb"@, "host"@), opt_view(host))),
    {
        proof {
            lemma_key_words();
        }
        match self.target_check(target) {
            Err(e) => return Err(e),
            Ok(_) => {},
        }
        if channel_shape(&self.doc, "targets", target, "adb") == Shape::Other {
            return Err(not_table(target, "adb"));
        }
        proof {
            lemma_first_index(self.lab.target_keys(), target@);
        }
        let (i, k, mut t) = match self.take_target(target) {
            Ok(x) => x,
            Err(e) => return Err(e),
        };
        let mut c = match t.adb.take() {
            Some(c) => c,
            None => AdbChannel { serial: None, adb: None, host: None },
        };
        set_opt(&mut c.serial, serial);
        set_opt(&mut c.adb, adb);
        set_opt(&mut c.host, host);
        t.adb = Some(c);
        self.put_target(i, k, t);
        proof {
            let o = old(self).lab.targets@;
            assert(self.lab.targets@ =~= o.update(i as int, (o[i as int].0, self.lab.targets@[i as int].1)));
        }
        doc_channel_open(&mut self.doc, target, "adb");
        doc_channel_opt(&mut self.doc, target, "adb", "serial", serial);
        doc_channel_opt(&mut self.doc, target, "adb", "adb", adb);
        doc_channel_opt(&mut self.doc, target, "adb", "host", host);
        proof {
            lemma_replaced_keys(old(self).lab, self.lab, i as int, self.lab.targets@[i as int].1);
        }
        proof {
            if old(self).lab.well_keyed() && doc_agrees(old(self).lab, old(self).doc) {
                lemma_deep_insert(doc_shapes(old(self).doc), seq!["targets"@, target@, "adb"@], Shape::Standard);
                assert(target_held(old(self).doc, old(self).lab.targets@[i as int].0@, old(self).lab.targets@[i as int].1));
                lemma_kinds_distinct();
                assert(doc_shapes(self.doc) == doc_shapes(old(self).doc).insert(table_path(target@, "adb"@), Shape::Standard));
                lemma_tables_set(doc_shapes(old(self).doc), target@, old(self).lab.targets@[i as int].1, self.lab.targets@[i as int].1, "adb"@);
                lemma_agrees_channel(old(self).lab, self.lab, old(self).doc, self.doc, i as int, self.lab.targets@[i as int].1);
            }
        }
        Ok(())
    }

    /// Remove `target`'s adb channel.
    pub fn remove_adb(&mut self, target: &str) -> (r: Result<(), LabError>)
        ensures
            old(self).lab.well_keyed() ==> final(self).lab.well_keyed(),
            final(self).header == old(self).header,
            old(self).lab.well_keyed() && doc_agrees(old(self).lab, old(self).doc) ==> doc_agrees(final(self).lab, final(self).doc),
            match (if target_problem(doc_shapes(old(self).doc), old(self).lab, target@) is Some {
                    target_problem(doc_shapes(old(self).doc), old(self).lab, target@)
                } else if old(self).lab.targets@[target_at(old(self).lab, target@)->0].1.adb is None {
                    Some(no_channel_text(target@, "adb"@))
                } else {
                    None
                }) {
                Some(m) => r matches Err(e) && e.0@ == m && final(self).lab == old(self).lab && final(self).doc
                    == old(self).doc,
                None => r is Ok,
            },
            r is Ok ==> ({
                let i = target_at(old(self).lab, target@)->0;
                let t0 = old(self).lab.targets@[i].1;
                let t = final(self).lab.targets@[i].1;
                &&& target_replaced(old(self).lab, final(self).lab, i, t)
                &&& t == (Target { adb: None, ..t0 })
            }),
            r is Ok ==> (doc_shapes(final(self).doc) == drop_under(doc_shapes(old(self).doc), seq!["targets"@, target@, "adb"@]) && doc_texts(final(self).doc) == drop_under(doc_texts(old(self).doc), seq!["targets"@, target@, "adb"@])
                && doc_serials(final(self).doc) == doc_serials(old(self).doc)),
    {
        proof {
            lemma_key_words();
        }
        match self.target_check(target) {
            Err(e) => return Err(e),
            Ok(_) => {},
        }
        proof {
            lemma_first_index(self.lab.target_keys(), target@);
        }
        let i0 = match self.lab.find_target(target) {
            Some(i0) => i0,
            None => return err_named("no target '", target, "'"),
        };
        if self.lab.targets[i0].1.adb.is_none() {
            let mut m = owned("target '");
            push_str(&mut m, target);
            push_str(&mut m, "\': no ");
            push_str(&mut m, "adb");
            push_str(&mut m, " channel");
            return Err(LabError(m));
        }
        let (i, k, mut t) = match self.take_target(target) {
            Ok(x) => x,
            Err(e) => return Err(e),
        };
        t.adb = None;
        self.put_target(i, k, t);
        proof {
            let o = old(self).lab.targets@;
            assert(self.lab.targets@ =~= o.update(i as int, (o[i as int].0, self.lab.targets@[i as int].1)));
        }
        remove_channel(&mut self.doc, "targets", target, "adb");
        proof {
            lemma_replaced_keys(old(self).lab, self.lab, i as int, self.lab.targets@[i as int].1);
        }
        proof {
            if old(self).lab.well_keyed() && doc_agrees(old(self).lab, old(self).doc) {
                lemma_deep_drop(doc_shapes(old(self).doc), seq!["targets"@, target@, "adb"@]);
                assert(target_held(old(self).doc, old(self).lab.targets@[i as int].0@, old(self).lab.targets@[i as int].1));
                lemma_kinds_distinct();
                assert(doc_shapes(self.doc) == drop_under(doc_shapes(old(self).doc), table_path(target@, "adb"@)));
                lemma_tables_drop(doc_shapes(old(self).doc), target@, old(self).lab.targets@[i as int].1, self.lab.targets@[i as int].1, "adb"@);
                lemma_agrees_channel(old(self).lab, self.lab, old(self).doc, self.doc, i as int, self.lab.targets@[i as int].1);
            }
        }
        Ok(())
    }
}

} // verus!
