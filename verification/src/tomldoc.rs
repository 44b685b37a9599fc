//! The lab file as a live `toml_edit` document: the operations the lab
//! editor makes on it, each reaching a fixed place — a top-level section, an
//! entry of it, a channel table of a target, or one `[[serial]]` table — and
//! leaving everything else, comments and layout included, as it was.
//!
//! What the document holds is modelled by three maps. [`doc_shapes`] gives
//! what stands at each top-level section, each entry of a section, and each
//! channel table of a target reached through standard tables.
//! [`doc_texts`] gives the string values of the keys of those entries and
//! channel tables. [`doc_serials`] gives, for each target whose `serial` is
//! an array of tables, the string-valued keys of each `[[serial]]` table in
//! order. Each operation states its effect on the three maps.
use vstd::prelude::*;
use toml_edit::{value, ArrayOfTables, DocumentMut, Item, Table};

verus! {

#[verifier::external_type_specification]
#[verifier::external_body]
pub struct ExDocumentMut(toml_edit::DocumentMut);

/// What stands at a place in the document.
#[derive(Clone, Copy, Debug, PartialEq, Eq, Structural)]
pub enum Shape {
    /// Nothing.
    Absent,
    /// A standard table (for `serial`: an array of `[[serial]]` tables).
    Standard,
    /// Something else: an inline table, a plain value.
    Other,
}

/// What stands at the sections, entries and channel tables of a document.
pub uninterp spec fn doc_shapes(d: DocumentMut) -> Map<Seq<Seq<char>>, Shape>;

/// The string values of the keys of a document's entries and channel tables.
pub uninterp spec fn doc_texts(d: DocumentMut) -> Map<Seq<Seq<char>>, Seq<char>>;

/// For each target, the string-valued keys of its `[[serial]]` tables.
pub uninterp spec fn doc_serials(d: DocumentMut) -> Map<Seq<char>, Seq<Map<Seq<char>, Seq<char>>>>;

/// A document rendered as text (`DocumentMut`'s `Display`).
pub uninterp spec fn doc_text(d: DocumentMut) -> Seq<char>;

/// What `toml_edit`'s parser makes of a text: its error message, or the
/// three maps of the document it reads.
pub uninterp spec fn toml_parse(text: Seq<char>) -> Result<
    (Map<Seq<Seq<char>>, Shape>, Map<Seq<Seq<char>>, Seq<char>>, Map<Seq<char>, Seq<Map<Seq<char>, Seq<char>>>>),
    Seq<char>,
>;

pub open spec fn shape_at(m: Map<Seq<Seq<char>>, Shape>, p: Seq<Seq<char>>) -> Shape {
    if m.contains_key(p) {
        m[p]
    } else {
        Shape::Absent
    }
}

/// A target's channel kind: the keys whose tables the model follows.
pub open spec fn is_kind(k: Seq<char>) -> bool {
    k == "netboot"@ || k == "serial"@ || k == "power"@ || k == "video"@ || k == "hid"@ || k == "usb"@
        || k == "adb"@
}

/// The target table `targets.t` is reached through standard tables.
pub open spec fn target_open(m: Map<Seq<Seq<char>>, Shape>, t: Seq<char>) -> bool {
    shape_at(m, seq!["targets"@]) == Shape::Standard && shape_at(m, seq!["targets"@, t]) == Shape::Standard
}

/// The entry `s.n` is reached through standard tables.
pub open spec fn entry_open(m: Map<Seq<Seq<char>>, Shape>, s: Seq<char>, n: Seq<char>) -> bool {
    shape_at(m, seq![s]) == Shape::Standard && shape_at(m, seq![s, n]) == Shape::Standard
}

/// Nothing of the document is modelled at or under `q`.
pub open spec fn nothing_under(d: DocumentMut, q: Seq<Seq<char>>) -> bool {
    &&& forall|p: Seq<Seq<char>>| #[trigger] doc_shapes(d).contains_key(p) ==> !has_prefix(p, q)
    &&& forall|p: Seq<Seq<char>>| #[trigger] doc_texts(d).contains_key(p) ==> !has_prefix(p, q)
}

/// Facts about the keys the editor writes: the channel kinds are the only
/// keys the model follows as tables.
pub proof fn lemma_key_words()
    ensures
        is_kind("netboot"@) && is_kind("serial"@) && is_kind("power"@) && is_kind("video"@) && is_kind("hid"@)
            && is_kind("usb"@) && is_kind("adb"@),
        !is_kind("host"@) && !is_kind("description"@) && !is_kind("note"@),
        "hosts"@ != "targets"@,
        "serial"@ != "netboot"@ && "serial"@ != "power"@ && "serial"@ != "video"@ && "serial"@ != "hid"@
            && "serial"@ != "usb"@ && "serial"@ != "adb"@,
{
    reveal_strlit("netboot");
    reveal_strlit("serial");
    reveal_strlit("power");
    reveal_strlit("video");
    reveal_strlit("hid");
    reveal_strlit("usb");
    reveal_strlit("adb");
    reveal_strlit("host");
    reveal_strlit("description");
    reveal_strlit("note");
    reveal_strlit("hosts");
    reveal_strlit("targets");
    assert("host"@.len() == 4 && "note"@.len() == 4 && "description"@.len() == 11);
    assert("hosts"@.len() != "targets"@.len());
    assert("serial"@.len() == 6 && "netboot"@.len() == 7 && "power"@.len() == 5 && "video"@.len() == 5);
    assert("hid"@.len() == 3 && "usb"@.len() == 3 && "adb"@.len() == 3);
    assert("serial"@ != "netboot"@ && "serial"@ != "power"@ && "serial"@ != "video"@);
    assert("serial"@ != "hid"@ && "serial"@ != "usb"@ && "serial"@ != "adb"@);
    assert(!is_kind("host"@));
    assert(!is_kind("note"@));
    assert(!is_kind("description"@));
}

pub open spec fn has_prefix(p: Seq<Seq<char>>, q: Seq<Seq<char>>) -> bool {
    q.len() <= p.len() && p.take(q.len() as int) == q
}

/// `m` without the places at or under `q`.
pub open spec fn drop_under<V>(m: Map<Seq<Seq<char>>, V>, q: Seq<Seq<char>>) -> Map<Seq<Seq<char>>, V> {
    Map::new(|p: Seq<Seq<char>>| m.contains_key(p) && !has_prefix(p, q), |p: Seq<Seq<char>>| m[p])
}

/// `m` with what stood under `a` moved under `b`.
pub open spec fn move_under<V>(m: Map<Seq<Seq<char>>, V>, a: Seq<Seq<char>>, b: Seq<Seq<char>>) -> Map<
    Seq<Seq<char>>,
    V,
> {
    Map::new(
        |p: Seq<Seq<char>>|
            (m.contains_key(p) && !has_prefix(p, a) && !has_prefix(p, b)) || (has_prefix(p, b)
                && m.contains_key(a + p.skip(b.len() as int))),
        |p: Seq<Seq<char>>|
            if has_prefix(p, b) {
                m[a + p.skip(b.len() as int)]
            } else {
                m[p]
            },
    )
}

pub open spec fn serials_of(q: Map<Seq<char>, Seq<Map<Seq<char>, Seq<char>>>>, t: Seq<char>) -> Seq<
    Map<Seq<char>, Seq<char>>,
> {
    if q.contains_key(t) {
        q[t]
    } else {
        Seq::empty()
    }
}

/// `str::parse::<toml_edit::DocumentMut>`, its error rendered by `Display`.
#[verifier::external_body]
pub(crate) fn parse_document(text: &str) -> (r: Result<DocumentMut, String>)
    ensures
        r matches Ok(d) ==> toml_parse(text@) matches Ok(c) && c == (doc_shapes(d), doc_texts(d), doc_serials(d)),
        r matches Err(e) ==> toml_parse(text@) matches Err(m) && m == e@,
{
    text.parse::<DocumentMut>().map_err(|e| e.to_string())
}

/// `DocumentMut::new`: an empty document.
#[verifier::external_body]
pub(crate) fn new_document() -> (r: DocumentMut)
    ensures
        doc_shapes(r).dom().is_empty(),
        doc_texts(r).dom().is_empty(),
        doc_serials(r).dom().is_empty(),
{
    DocumentMut::new()
}

/// `DocumentMut`'s `Display`: the document as text.
#[verifier::external_body]
pub(crate) fn render_document(doc: &DocumentMut) -> (r: String)
    ensures
        r@ == doc_text(*doc),
{
    doc.to_string()
}

/// What stands at the top-level key `section` (`Table::get`, `Item::is_table`).
#[verifier::external_body]
pub(crate) fn section_shape(doc: &DocumentMut, section: &str) -> (r: Shape)
    ensures
        r == shape_at(doc_shapes(*doc), seq![section@]),
        r == Shape::Absent ==> nothing_under(*doc, seq![section@]),
        r == Shape::Absent && section@ == "targets"@ ==> doc_serials(*doc).dom().is_empty(),
{
    match doc.get(section) {
        None => Shape::Absent,
        Some(i) if i.is_table() => Shape::Standard,
        Some(_) => Shape::Other,
    }
}

/// What stands at `section.name` (`Table::get`, `Item::as_table`, `Item::is_table`).
#[verifier::external_body]
pub(crate) fn entry_shape(doc: &DocumentMut, section: &str, name: &str) -> (r: Shape)
    ensures
        r == if shape_at(doc_shapes(*doc), seq![section@]) == Shape::Standard {
            shape_at(doc_shapes(*doc), seq![section@, name@])
        } else {
            Shape::Absent
        },
        r == Shape::Absent && shape_at(doc_shapes(*doc), seq![section@]) == Shape::Standard ==> nothing_under(
            *doc,
            seq![section@, name@],
        ) && (section@ == "targets"@ ==> !doc_serials(*doc).contains_key(name@)),
{
    match doc.get(section).and_then(|s| s.as_table()).and_then(|t| t.get(name)) {
        None => Shape::Absent,
        Some(i) if i.is_table() => Shape::Standard,
        Some(_) => Shape::Other,
    }
}

/// What stands at `section.entry.kind`, a channel table (the model follows
/// channel tables of the `targets` section).
#[verifier::external_body]
pub(crate) fn channel_shape(doc: &DocumentMut, section: &str, entry: &str, kind: &str) -> (r: Shape)
    requires
        section@ == "targets"@,
        is_kind(kind@),
        kind@ != "serial"@,
    ensures
        r == if target_open(doc_shapes(*doc), entry@) {
            shape_at(doc_shapes(*doc), seq![section@, entry@, kind@])
        } else {
            Shape::Absent
        },
        r == Shape::Absent && target_open(doc_shapes(*doc), entry@) ==> nothing_under(*doc, seq![section@, entry@, kind@]),
{
    let t = doc.get(section).and_then(|s| s.as_table()).and_then(|s| s.get(entry));
    match t.and_then(|x| x.as_table()).and_then(|x| x.get(kind)) {
        None => Shape::Absent,
        Some(i) if i.is_table() => Shape::Standard,
        Some(_) => Shape::Other,
    }
}

/// What stands at `section.entry.array`; standard is an array of tables
/// (`Item::is_array_of_tables`). The model follows the `serial` arrays of
/// the `targets` section.
#[verifier::external_body]
pub(crate) fn serial_shape(doc: &DocumentMut, section: &str, entry: &str, array: &str) -> (r: Shape)
    requires
        section@ == "targets"@,
        array@ == "serial"@,
    ensures
        r == if target_open(doc_shapes(*doc), entry@) {
            shape_at(doc_shapes(*doc), seq![section@, entry@, array@])
        } else {
            Shape::Absent
        },
        r == Shape::Absent && target_open(doc_shapes(*doc), entry@) ==> nothing_under(*doc, seq![section@, entry@, array@])
            && !doc_serials(*doc).contains_key(entry@),
        r == Shape::Standard ==> doc_serials(*doc).contains_key(entry@),
{
    let t = doc.get(section).and_then(|s| s.as_table()).and_then(|s| s.get(entry));
    match t.and_then(|x| x.as_table()).and_then(|x| x.get(array)) {
        None => Shape::Absent,
        Some(i) if i.is_array_of_tables() => Shape::Standard,
        Some(_) => Shape::Other,
    }
}

/// `Table::insert` of an empty implicit table (`Table::set_implicit`) at the
/// top-level key `section`, where nothing stood, so its entries render as
/// `[section.name]`.
#[verifier::external_body]
pub(crate) fn insert_section(doc: &mut DocumentMut, section: &str)
    requires
        shape_at(doc_shapes(*old(doc)), seq![section@]) == Shape::Absent,
    ensures
        doc_shapes(*final(doc)) == doc_shapes(*old(doc)).insert(seq![section@], Shape::Standard),
        doc_texts(*final(doc)) == doc_texts(*old(doc)),
        doc_serials(*final(doc)) == doc_serials(*old(doc)),
{
    let mut t = Table::new();
    t.set_implicit(true);
    doc.insert(section, Item::Table(t));
}

/// `Table::insert` of an empty table at `section.name`, where nothing stood.
#[verifier::external_body]
pub(crate) fn insert_entry(doc: &mut DocumentMut, section: &str, name: &str)
    requires
        shape_at(doc_shapes(*old(doc)), seq![section@, name@]) == Shape::Absent,
    ensures
        doc_shapes(*final(doc)) == if shape_at(doc_shapes(*old(doc)), seq![section@]) == Shape::Standard {
            doc_shapes(*old(doc)).insert(seq![section@, name@], Shape::Standard)
        } else {
            doc_shapes(*old(doc))
        },
        doc_texts(*final(doc)) == doc_texts(*old(doc)),
        doc_serials(*final(doc)) == doc_serials(*old(doc)),
{
    if let Some(t) = doc.get_mut(section).and_then(|s| s.as_table_mut()) {
        t.insert(name, Item::Table(Table::new()));
    }
}

/// `Table::insert` of the string `val` at `section.name.key` (not a channel).
#[verifier::external_body]
pub(crate) fn set_entry_key(doc: &mut DocumentMut, section: &str, name: &str, key: &str, val: &str)
    requires
        !(section@ == "targets"@ && is_kind(key@)),
    ensures
        doc_shapes(*final(doc)) == doc_shapes(*old(doc)),
        doc_texts(*final(doc)) == if entry_open(doc_shapes(*old(doc)), section@, name@) {
            doc_texts(*old(doc)).insert(seq![section@, name@, key@], val@)
        } else {
            doc_texts(*old(doc))
        },
        doc_serials(*final(doc)) == doc_serials(*old(doc)),
{
    let t = doc.get_mut(section).and_then(|s| s.as_table_mut()).and_then(|s| s.get_mut(name));
    if let Some(t) = t.and_then(|x| x.as_table_mut()) {
        t.insert(key, value(val));
    }
}

/// `Table::remove` of `section.name.key` (not a channel).
#[verifier::external_body]
pub(crate) fn remove_entry_key(doc: &mut DocumentMut, section: &str, name: &str, key: &str)
    requires
        !(section@ == "targets"@ && is_kind(key@)),
    ensures
        doc_shapes(*final(doc)) == doc_shapes(*old(doc)),
        doc_texts(*final(doc)) == if entry_open(doc_shapes(*old(doc)), section@, name@) {
            doc_texts(*old(doc)).remove(seq![section@, name@, key@])
        } else {
            doc_texts(*old(doc))
        },
        doc_serials(*final(doc)) == doc_serials(*old(doc)),
{
    let t = doc.get_mut(section).and_then(|s| s.as_table_mut()).and_then(|s| s.get_mut(name));
    if let Some(t) = t.and_then(|x| x.as_table_mut()) {
        t.remove(key);
    }
}

/// `Table::remove` of `section.name`, with all it held.
#[verifier::external_body]
pub(crate) fn remove_entry(doc: &mut DocumentMut, section: &str, name: &str)
    ensures
        shape_at(doc_shapes(*old(doc)), seq![section@]) == Shape::Standard ==> {
            &&& doc_shapes(*final(doc)) == drop_under(doc_shapes(*old(doc)), seq![section@, name@])
            &&& doc_texts(*final(doc)) == drop_under(doc_texts(*old(doc)), seq![section@, name@])
            &&& doc_serials(*final(doc)) == if section@ == "targets"@ {
                doc_serials(*old(doc)).remove(name@)
            } else {
                doc_serials(*old(doc))
            }
        },
        shape_at(doc_shapes(*old(doc)), seq![section@]) != Shape::Standard ==> *final(doc) == *old(doc),
{
    if let Some(t) = doc.get_mut(section).and_then(|s| s.as_table_mut()) {
        t.remove(name);
    }
}

/// `Table::remove` of `section.from` and `Table::insert` of what it held as
/// `section.to`, where nothing stood: the entry keeps its contents and
/// comments.
#[verifier::external_body]
pub(crate) fn move_entry(doc: &mut DocumentMut, section: &str, from: &str, to: &str)
    requires
        shape_at(doc_shapes(*old(doc)), seq![section@, to@]) == Shape::Absent,
        from@ != to@,
    ensures
        shape_at(doc_shapes(*old(doc)), seq![section@]) == Shape::Standard ==> {
            &&& doc_shapes(*final(doc)) == move_under(doc_shapes(*old(doc)), seq![section@, from@], seq![section@, to@])
            &&& doc_texts(*final(doc)) == move_under(doc_texts(*old(doc)), seq![section@, from@], seq![section@, to@])
            &&& doc_serials(*final(doc)) == if section@ == "targets"@ && doc_serials(*old(doc)).contains_key(from@) {
                doc_serials(*old(doc)).remove(from@).insert(to@, doc_serials(*old(doc))[from@])
            } else {
                doc_serials(*old(doc))
            }
        },
        shape_at(doc_shapes(*old(doc)), seq![section@]) != Shape::Standard ==> *final(doc) == *old(doc),
{
    if let Some(t) = doc.get_mut(section).and_then(|s| s.as_table_mut()) {
        if let Some(item) = t.remove(from) {
            t.insert(to, item);
        }
    }
}

/// `Table::insert` of an empty table at `section.entry.kind`, where nothing
/// stood.
#[verifier::external_body]
pub(crate) fn insert_channel(doc: &mut DocumentMut, section: &str, entry: &str, kind: &str)
    requires
        section@ == "targets"@,
        is_kind(kind@),
        kind@ != "serial"@,
        shape_at(doc_shapes(*old(doc)), seq![section@, entry@, kind@]) == Shape::Absent,
    ensures
        doc_shapes(*final(doc)) == if target_open(doc_shapes(*old(doc)), entry@) {
            doc_shapes(*old(doc)).insert(seq![section@, entry@, kind@], Shape::Standard)
        } else {
            doc_shapes(*old(doc))
        },
        doc_texts(*final(doc)) == doc_texts(*old(doc)),
        doc_serials(*final(doc)) == doc_serials(*old(doc)),
{
    let t = doc.get_mut(section).and_then(|s| s.as_table_mut()).and_then(|s| s.get_mut(entry));
    if let Some(t) = t.and_then(|x| x.as_table_mut()) {
        t.insert(kind, Item::Table(Table::new()));
    }
}

/// `Table::remove` of `section.entry.kind`, with all it held.
#[verifier::external_body]
pub(crate) fn remove_channel(doc: &mut DocumentMut, section: &str, entry: &str, kind: &str)
    requires
        section@ == "targets"@,
        is_kind(kind@),
    ensures
        target_open(doc_shapes(*old(doc)), entry@) ==> {
            &&& doc_shapes(*final(doc)) == drop_under(doc_shapes(*old(doc)), seq![section@, entry@, kind@])
            &&& doc_texts(*final(doc)) == drop_under(doc_texts(*old(doc)), seq![section@, entry@, kind@])
            &&& doc_serials(*final(doc)) == if kind@ == "serial"@ {
                doc_serials(*old(doc)).remove(entry@)
            } else {
                doc_serials(*old(doc))
            }
        },
        !target_open(doc_shapes(*old(doc)), entry@) ==> *final(doc) == *old(doc),
{
    let t = doc.get_mut(section).and_then(|s| s.as_table_mut()).and_then(|s| s.get_mut(entry));
    if let Some(t) = t.and_then(|x| x.as_table_mut()) {
        t.remove(kind);
    }
}

/// `Table::insert` of the string `val` at `section.entry.kind.key`.
#[verifier::external_body]
pub(crate) fn set_channel_key(doc: &mut DocumentMut, section: &str, entry: &str, kind: &str, key: &str, val: &str)
    requires
        section@ == "targets"@,
        is_kind(kind@),
        kind@ != "serial"@,
    ensures
        doc_shapes(*final(doc)) == doc_shapes(*old(doc)),
        doc_texts(*final(doc)) == if target_open(doc_shapes(*old(doc)), entry@) && shape_at(
            doc_shapes(*old(doc)),
            seq![section@, entry@, kind@],
        ) == Shape::Standard {
            doc_texts(*old(doc)).insert(seq![section@, entry@, kind@, key@], val@)
        } else {
            doc_texts(*old(doc))
        },
        doc_serials(*final(doc)) == doc_serials(*old(doc)),
{
    let t = doc.get_mut(section).and_then(|s| s.as_table_mut()).and_then(|s| s.get_mut(entry));
    let c = t.and_then(|x| x.as_table_mut()).and_then(|x| x.get_mut(kind));
    if let Some(c) = c.and_then(|x| x.as_table_mut()) {
        c.insert(key, value(val));
    }
}

/// `Table::insert` of an empty array of tables at `section.entry.array`,
/// where nothing stood.
#[verifier::external_body]
pub(crate) fn insert_serial_array(doc: &mut DocumentMut, section: &str, entry: &str, array: &str)
    requires
        section@ == "targets"@,
        array@ == "serial"@,
        shape_at(doc_shapes(*old(doc)), seq![section@, entry@, array@]) == Shape::Absent,
    ensures
        target_open(doc_shapes(*old(doc)), entry@) ==> {
            &&& doc_shapes(*final(doc)) == doc_shapes(*old(doc)).insert(seq![section@, entry@, array@], Shape::Standard)
            &&& doc_serials(*final(doc)) == doc_serials(*old(doc)).insert(entry@, Seq::empty())
        },
        !target_open(doc_shapes(*old(doc)), entry@) ==> *final(doc) == *old(doc),
        doc_texts(*final(doc)) == doc_texts(*old(doc)),
{
    let t = doc.get_mut(section).and_then(|s| s.as_table_mut()).and_then(|s| s.get_mut(entry));
    if let Some(t) = t.and_then(|x| x.as_table_mut()) {
        t.insert(array, Item::ArrayOfTables(ArrayOfTables::new()));
    }
}

/// `ArrayOfTables::len` of `section.entry.array` (0 when there is none).
#[verifier::external_body]
pub(crate) fn serial_count(doc: &DocumentMut, section: &str, entry: &str, array: &str) -> (r: usize)
    requires
        section@ == "targets"@,
        array@ == "serial"@,
    ensures
        r == serials_of(doc_serials(*doc), entry@).len(),
{
    let t = doc.get(section).and_then(|s| s.as_table()).and_then(|s| s.get(entry));
    let a = t.and_then(|x| x.as_table()).and_then(|x| x.get(array));
    a.and_then(|x| x.as_array_of_tables()).map(|a| a.len()).unwrap_or(0)
}

/// The string (`Item::as_str`) at `field` of the `i`th table of the array
/// `section.entry.array` (`ArrayOfTables::get`), if it holds one.
#[verifier::external_body]
pub(crate) fn serial_text_at(doc: &DocumentMut, section: &str, entry: &str, array: &str, i: usize, field: &str) -> (r: Option<String>)
    requires
        section@ == "targets"@,
        array@ == "serial"@,
    ensures
        r is Some <==> serial_has_key(doc_serials(*doc), entry@, i as int, field@),
        r matches Some(x) ==> x@ == serials_of(doc_serials(*doc), entry@)[i as int][field@],
{
    let t = doc.get(section).and_then(|s| s.as_table()).and_then(|s| s.get(entry));
    let a = t.and_then(|x| x.as_table()).and_then(|x| x.get(array)).and_then(|x| x.as_array_of_tables());
    a.and_then(|a| a.get(i)).and_then(|s| s.get(field)).and_then(|v| v.as_str()).map(String::from)
}

/// The `i`th serial table of `target` has a string at `k`.
pub open spec fn serial_has_key(q: Map<Seq<char>, Seq<Map<Seq<char>, Seq<char>>>>, target: Seq<char>, i: int, k: Seq<char>) -> bool {
    0 <= i < serials_of(q, target).len() && serials_of(q, target)[i].contains_key(k)
}

/// `ArrayOfTables::push` of an empty table onto `section.entry.array`.
#[verifier::external_body]
pub(crate) fn push_serial(doc: &mut DocumentMut, section: &str, entry: &str, array: &str)
    requires
        section@ == "targets"@,
        array@ == "serial"@,
    ensures
        doc_shapes(*final(doc)) == doc_shapes(*old(doc)),
        doc_texts(*final(doc)) == doc_texts(*old(doc)),
        doc_serials(*final(doc)) == if doc_serials(*old(doc)).contains_key(entry@) {
            doc_serials(*old(doc)).insert(entry@, doc_serials(*old(doc))[entry@].push(Map::empty()))
        } else {
            doc_serials(*old(doc))
        },
{
    let t = doc.get_mut(section).and_then(|s| s.as_table_mut()).and_then(|s| s.get_mut(entry));
    let a = t.and_then(|x| x.as_table_mut()).and_then(|x| x.get_mut(array));
    if let Some(a) = a.and_then(|x| x.as_array_of_tables_mut()) {
        a.push(Table::new());
    }
}

/// The serial tables of `target` with table `i` changed by `f`.
pub open spec fn with_serial(
    q: Map<Seq<char>, Seq<Map<Seq<char>, Seq<char>>>>,
    target: Seq<char>,
    i: int,
    f: spec_fn(Map<Seq<char>, Seq<char>>) -> Map<Seq<char>, Seq<char>>,
) -> Map<Seq<char>, Seq<Map<Seq<char>, Seq<char>>>> {
    if q.contains_key(target) && 0 <= i < q[target].len() {
        q.insert(target, q[target].update(i, f(q[target][i])))
    } else {
        q
    }
}

/// `Table::insert` of the string `v` at `key` of the `i`th `[[serial]]`
/// table of `section.entry.array` (`ArrayOfTables::get_mut`).
#[verifier::external_body]
pub(crate) fn set_serial_text(doc: &mut DocumentMut, section: &str, entry: &str, array: &str, i: usize, key: &str, v: &str)
    requires
        section@ == "targets"@,
        array@ == "serial"@,
    ensures
        doc_shapes(*final(doc)) == doc_shapes(*old(doc)),
        doc_texts(*final(doc)) == doc_texts(*old(doc)),
        doc_serials(*final(doc)) == with_serial(
            doc_serials(*old(doc)),
            entry@,
            i as int,
            |m: Map<Seq<char>, Seq<char>>| m.insert(key@, v@),
        ),
{
    let t = doc.get_mut(section).and_then(|s| s.as_table_mut()).and_then(|s| s.get_mut(entry));
    let a = t.and_then(|x| x.as_table_mut()).and_then(|x| x.get_mut(array));
    if let Some(s) = a.and_then(|x| x.as_array_of_tables_mut()).and_then(|a| a.get_mut(i)) {
        s.insert(key, value(v));
    }
}

/// `Table::insert` of the integer `v` at `key` of the `i`th `[[serial]]`
/// table of `section.entry.array`; the key then holds no string.
#[verifier::external_body]
pub(crate) fn set_serial_int(doc: &mut DocumentMut, section: &str, entry: &str, array: &str, i: usize, key: &str, v: i64)
    requires
        section@ == "targets"@,
        array@ == "serial"@,
    ensures
        doc_shapes(*final(doc)) == doc_shapes(*old(doc)),
        doc_texts(*final(doc)) == doc_texts(*old(doc)),
        doc_serials(*final(doc)) == with_serial(
            doc_serials(*old(doc)),
            entry@,
            i as int,
            |m: Map<Seq<char>, Seq<char>>| m.remove(key@),
        ),
{
    let t = doc.get_mut(section).and_then(|s| s.as_table_mut()).and_then(|s| s.get_mut(entry));
    let a = t.and_then(|x| x.as_table_mut()).and_then(|x| x.get_mut(array));
    if let Some(s) = a.and_then(|x| x.as_array_of_tables_mut()).and_then(|a| a.get_mut(i)) {
        s.insert(key, value(v));
    }
}

/// `Table::insert` of `true` at `key` of the `i`th `[[serial]]` table of
/// `section.entry.array`; the key then holds no string.
#[verifier::external_body]
pub(crate) fn set_serial_true(doc: &mut DocumentMut, section: &str, entry: &str, array: &str, i: usize, key: &str)
    requires
        section@ == "targets"@,
        array@ == "serial"@,
    ensures
        doc_shapes(*final(doc)) == doc_shapes(*old(doc)),
        doc_texts(*final(doc)) == doc_texts(*old(doc)),
        doc_serials(*final(doc)) == with_serial(
            doc_serials(*old(doc)),
            entry@,
            i as int,
            |m: Map<Seq<char>, Seq<char>>| m.remove(key@),
        ),
{
    let t = doc.get_mut(section).and_then(|s| s.as_table_mut()).and_then(|s| s.get_mut(entry));
    let a = t.and_then(|x| x.as_table_mut()).and_then(|x| x.get_mut(array));
    if let Some(s) = a.and_then(|x| x.as_array_of_tables_mut()).and_then(|a| a.get_mut(i)) {
        s.insert(key, value(true));
    }
}

/// `Table::remove` of `key` in the `i`th table of `section.entry.array`.
#[verifier::external_body]
pub(crate) fn remove_serial_key(doc: &mut DocumentMut, section: &str, entry: &str, array: &str, i: usize, key: &str)
    requires
        section@ == "targets"@,
        array@ == "serial"@,
    ensures
        doc_shapes(*final(doc)) == doc_shapes(*old(doc)),
        doc_texts(*final(doc)) == doc_texts(*old(doc)),
        doc_serials(*final(doc)) == with_serial(
            doc_serials(*old(doc)),
            entry@,
            i as int,
            |m: Map<Seq<char>, Seq<char>>| m.remove(key@),
        ),
{
    let t = doc.get_mut(section).and_then(|s| s.as_table_mut()).and_then(|s| s.get_mut(entry));
    let a = t.and_then(|x| x.as_table_mut()).and_then(|x| x.get_mut(array));
    if let Some(s) = a.and_then(|x| x.as_array_of_tables_mut()).and_then(|a| a.get_mut(i)) {
        s.remove(key);
    }
}

/// `ArrayOfTables::remove` of the `i`th table of `section.entry.array`.
#[verifier::external_body]
pub(crate) fn remove_serial_at(doc: &mut DocumentMut, section: &str, entry: &str, array: &str, i: usize)
    requires
        section@ == "targets"@,
        array@ == "serial"@,
        i < serials_of(doc_serials(*old(doc)), entry@).len(),
    ensures
        doc_shapes(*final(doc)) == doc_shapes(*old(doc)),
        doc_texts(*final(doc)) == doc_texts(*old(doc)),
        doc_serials(*final(doc)) == doc_serials(*old(doc)).insert(
            entry@,
            doc_serials(*old(doc))[entry@].remove(i as int),
        ),
{
    let t = doc.get_mut(section).and_then(|s| s.as_table_mut()).and_then(|s| s.get_mut(entry));
    let a = t.and_then(|x| x.as_table_mut()).and_then(|x| x.get_mut(array));
    if let Some(a) = a.and_then(|x| x.as_array_of_tables_mut()) {
        a.remove(i);
    }
}

} // verus!
