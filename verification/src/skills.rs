//! The agent-facing skills paniolo ships: reading a skill's one-line
//! description out of its `SKILL.md` frontmatter, choosing which copy of a
//! skill lists when several search directories hold it, and where a CLI
//! binary's bundled skills are. Reading directories and files is the
//! application's part.
use vstd::prelude::*;
use crate::text::{
    chars_of, is_space, join, join_strings, lines, lt, owned, push_line, same, space, split_lines,
    starts_with, string_of, strip_prefix, trim, trimmed, views,
};

verus! {

/// A quote character that frames an inline frontmatter value.
pub open spec fn is_quote(c: char) -> bool {
    c == '"' || c == '\''
}

/// `s` without leading quote characters.
pub open spec fn strip_front(s: Seq<char>) -> Seq<char>
    decreases s.len(),
{
    if s.len() > 0 && is_quote(s[0]) {
        strip_front(s.drop_first())
    } else {
        s
    }
}

/// `s` without trailing quote characters.
pub open spec fn strip_back(s: Seq<char>) -> Seq<char>
    decreases s.len(),
{
    if s.len() > 0 && is_quote(s.last()) {
        strip_back(s.drop_last())
    } else {
        s
    }
}

/// `str::trim_matches` with the two quote characters.
pub open spec fn strip_quotes(s: Seq<char>) -> Seq<char> {
    strip_back(strip_front(s))
}

/// The frontmatter after its opening `---`, read line by line: a
/// `description:` with an inline value gives that value, unquoted; one with
/// nothing after it, or a block-scalar marker (`>`, `|`), collects the
/// indented lines that follow, trimmed and joined by spaces, up to the first
/// unindented line. A closing `---` ends the frontmatter.
pub open spec fn desc_scan(ls: Seq<Seq<char>>, collecting: bool, parts: Seq<Seq<char>>) -> Seq<char>
    decreases ls.len(),
{
    if ls.len() == 0 {
        join(parts, " "@)
    } else {
        let line = ls[0];
        let t = trim(line);
        if t == "---"@ {
            join(parts, " "@)
        } else if collecting {
            if line.len() > 0 && is_space(line[0]) && t.len() > 0 {
                desc_scan(ls.drop_first(), true, parts.push(t))
            } else if t.len() == 0 {
                desc_scan(ls.drop_first(), true, parts)
            } else {
                join(parts, " "@)
            }
        } else if starts_with(t, "description:"@) {
            let rest = trim(t.subrange("description:"@.len() as int, t.len() as int));
            if rest.len() == 0 || rest[0] == '>' || rest[0] == '|' {
                desc_scan(ls.drop_first(), true, parts)
            } else {
                strip_quotes(rest)
            }
        } else {
            desc_scan(ls.drop_first(), false, parts)
        }
    }
}

/// A skill's description: empty without a frontmatter (a first line of
/// `---`) or without the field.
pub open spec fn description_of(text: Seq<char>) -> Seq<char> {
    let ls = lines(text);
    if ls.len() == 0 || trim(ls[0]) != "---"@ {
        Seq::empty()
    } else {
        desc_scan(ls.drop_first(), false, Seq::empty())
    }
}

fn strip_quote_chars(s: &str) -> (r: String)
    ensures
        r@ == strip_quotes(s@),
{
    let v = chars_of(s);
    let mut a: usize = 0;
    assert(v@.subrange(0, v.len() as int) =~= v@);
    while a < v.len() && (v[a] == '"' || v[a] == '\'')
        invariant
            v@ == s@,
            a <= v.len(),
            strip_front(s@) == strip_front(v@.subrange(a as int, v.len() as int)),
        decreases v.len() - a,
    {
        assert(v@.subrange(a as int, v.len() as int).drop_first() =~= v@.subrange(a + 1, v.len() as int));
        a += 1;
    }
    let ghost f = v@.subrange(a as int, v.len() as int);
    assert(strip_front(s@) == f);
    let mut b: usize = v.len();
    while b > a && (v[b - 1] == '"' || v[b - 1] == '\'')
        invariant
            a <= b <= v.len(),
            f == v@.subrange(a as int, v.len() as int),
            strip_back(f) == strip_back(v@.subrange(a as int, b as int)),
        decreases b,
    {
        assert(v@.subrange(a as int, b as int).drop_last() =~= v@.subrange(a as int, b - 1));
        b -= 1;
    }
    let mut out: Vec<char> = Vec::new();
    let mut i = a;
    while i < b
        invariant
            a <= i <= b <= v.len(),
            out@ == v@.subrange(a as int, i as int),
        decreases b - i,
    {
        out.push(v[i]);
        assert(v@.subrange(a as int, i + 1) =~= v@.subrange(a as int, i as int).push(v@[i as int]));
        i += 1;
    }
    string_of(&out)
}

/// The one-line description in a `SKILL.md`'s YAML frontmatter, from an
/// inline value (`description: text`) or a folded/literal block scalar
/// (`description: >` and indented lines); empty when there is none — the
/// skill still lists, without a summary.
pub fn skill_description(text: &str) -> (r: String)
    ensures
        r@ == description_of(text@),
{
    let ls = split_lines(text);
    if ls.len() == 0 {
        return String::new();
    }
    let first = trimmed(ls[0].as_str());
    if !same(first.as_str(), "---") {
        return String::new();
    }
    let ghost lv = views(ls@);
    let mut collecting = false;
    let mut parts: Vec<String> = Vec::new();
    let mut i: usize = 1;
    assert(lv[0] == ls@[0]@);
    assert(lv.drop_first() =~= lv.skip(1));
    assert(views(parts@) =~= Seq::<Seq<char>>::empty());
    while i < ls.len()
        invariant
            lv == views(ls@),
            lv == lines(text@),
            lv.len() > 0,
            trim(lv[0]) == "---"@,
            1 <= i <= ls.len(),
            description_of(text@) == desc_scan(lv.skip(i as int), collecting, views(parts@)),
        decreases ls.len() - i,
    {
        assert(lv.skip(i as int)[0] == lv[i as int]);
        assert(lv.skip(i as int).drop_first() =~= lv.skip(i + 1));
        let line = ls[i].as_str();
        let t = trimmed(line);
        if same(t.as_str(), "---") {
            return join_strings(&parts, " ");
        }
        let tc = chars_of(t.as_str());
        if collecting {
            let lc = chars_of(line);
            let indented = lc.len() > 0 && space(lc[0]);
            if indented && tc.len() > 0 {
                push_line(&mut parts, t);
            } else if tc.len() > 0 {
                return join_strings(&parts, " ");
            }
        } else {
            match strip_prefix(t.as_str(), "description:") {
                Some(rest) => {
                    let rest = trimmed(rest.as_str());
                    let rc = chars_of(rest.as_str());
                    if rc.len() == 0 || rc[0] == '>' || rc[0] == '|' {
                        collecting = true;
                    } else {
                        return strip_quote_chars(rest.as_str());
                    }
                },
                None => {},
            }
        }
        i += 1;
    }
    assert(lv.skip(i as int) =~= Seq::<Seq<char>>::empty());
    join_strings(&parts, " ")
}


// ── which copy lists ────────────────────────────────────────────────────────

/// One skill found on the search path: its name (the directory's), the path
/// of its `SKILL.md`, and its description.
pub struct Skill {
    pub name: String,
    pub path: String,
    pub description: String,
}

pub struct SkillView {
    pub name: Seq<char>,
    pub path: Seq<char>,
    pub description: Seq<char>,
}

impl Skill {
    pub open spec fn view(self) -> SkillView {
        SkillView { name: self.name@, path: self.path@, description: self.description@ }
    }
}

pub open spec fn skill_views(v: Seq<Skill>) -> Seq<SkillView> {
    v.map_values(|s: Skill| s.view())
}

/// An earlier find has the same name.
pub open spec fn shadowed(found: Seq<SkillView>, i: int) -> bool {
    exists|j: int| 0 <= j < i && #[trigger] found[j].name == found[i].name
}

/// `x` is a find no earlier find shadows.
pub open spec fn listed(found: Seq<SkillView>, x: SkillView) -> bool {
    exists|i: int| 0 <= i < found.len() && found[i] == x && !shadowed(found, i)
}

/// Ascending by name, hence one entry per name.
pub open spec fn by_name(v: Seq<SkillView>) -> bool {
    forall|i: int, j: int| 0 <= i < j < v.len() ==> lt(v[i].name, v[j].name)
}

fn copy_skill(s: &Skill) -> (r: Skill)
    ensures
        r.view() == s.view(),
{
    Skill { name: s.name.clone(), path: s.path.clone(), description: s.description.clone() }
}

/// Some entry of `v` is named `n`.
pub open spec fn names_in(v: Seq<SkillView>, n: Seq<char>) -> bool {
    exists|m: int| 0 <= m < v.len() && #[trigger] v[m].name == n
}

/// One of the first `i` finds is named `n`.
pub open spec fn named_before(found: Seq<SkillView>, i: int, n: Seq<char>) -> bool {
    exists|k: int| 0 <= k < i && #[trigger] found[k].name == n
}

/// `x` is one of the first `i` finds, and no earlier find shadows it.
pub open spec fn listed_before(found: Seq<SkillView>, i: int, x: SkillView) -> bool {
    exists|k: int| 0 <= k < i && found[k] == x && !shadowed(found, k)
}

/// Whether some entry of `v` is named `name`.
fn has_name(v: &Vec<Skill>, name: &str) -> (r: bool)
    ensures
        r == names_in(skill_views(v@), name@),
{
    let ghost sv = skill_views(v@);
    let mut k: usize = 0;
    while k < v.len()
        invariant
            sv == skill_views(v@),
            k <= v.len(),
            forall|m: int| 0 <= m < k ==> #[trigger] sv[m].name != name@,
        decreases v.len() - k,
    {
        assert(sv[k as int] == v@[k as int].view());
        if same(v[k].name.as_str(), name) {
            assert(sv[k as int].name == name@);
            return true;
        }
        k += 1;
    }
    false
}

/// Inserting `x` where it belongs by name keeps a list ascending, and adds
/// just `x`.
proof fn lemma_insert_by_name(ov: Seq<SkillView>, p: int, x: SkillView)
    requires
        by_name(ov),
        0 <= p <= ov.len(),
        forall|q: int| 0 <= q < p ==> lt(#[trigger] ov[q].name, x.name),
        forall|q: int| p <= q < ov.len() ==> lt(x.name, #[trigger] ov[q].name),
    ensures
        by_name(ov.insert(p, x)),
        forall|y: SkillView| ov.insert(p, x).contains(y) <==> (ov.contains(y) || y == x),
        forall|n: Seq<char>| names_in(ov.insert(p, x), n) <==> (names_in(ov, n) || n == x.name),
{
    let nv = ov.insert(p, x);
    ov.insert_ensures(p, x);
    assert forall|a: int, b: int| 0 <= a < b < nv.len() implies lt(nv[a].name, nv[b].name) by {
        if a < p && b > p {
            crate::text::lemma_lt_transitive(nv[a].name, x.name, nv[b].name);
        } else if a > p {
            assert(nv[a] == ov[a - 1] && nv[b] == ov[b - 1]);
        }
    }
    assert forall|y: SkillView| nv.contains(y) <==> (ov.contains(y) || y == x) by {
        if nv.contains(y) {
            let m = choose|m: int| 0 <= m < nv.len() && nv[m] == y;
            if m < p {
                assert(ov[m] == y);
            } else if m > p {
                assert(ov[m - 1] == y);
            }
        }
        if ov.contains(y) {
            let m = choose|m: int| 0 <= m < ov.len() && ov[m] == y;
            if m < p {
                assert(nv[m] == y);
            } else {
                assert(nv[m + 1] == y);
            }
        }
        if y == x {
            assert(nv[p] == y);
        }
    }
    assert forall|n: Seq<char>| names_in(nv, n) <==> (names_in(ov, n) || n == x.name) by {
        if names_in(nv, n) {
            let m = choose|m: int| 0 <= m < nv.len() && #[trigger] nv[m].name == n;
            if m < p {
                assert(ov[m].name == n);
            } else if m > p {
                assert(ov[m - 1].name == n);
            }
        }
        if names_in(ov, n) {
            let m = choose|m: int| 0 <= m < ov.len() && #[trigger] ov[m].name == n;
            if m < p {
                assert(nv[m].name == n);
            } else {
                assert(nv[m + 1].name == n);
            }
        }
        if n == x.name {
            assert(nv[p].name == n);
        }
    }
}

/// The skills to list from the finds, in search-path order: a skill present
/// in several searched directories lists once, from the first, and the list
/// is ordered by name.
pub fn skill_listing(found: &Vec<Skill>) -> (r: Vec<Skill>)
    ensures
        by_name(skill_views(r@)),
        forall|x: SkillView| skill_views(r@).contains(x) <==> listed(skill_views(found@), x),
{
    let ghost fv = skill_views(found@);
    let mut out: Vec<Skill> = Vec::new();
    let mut i: usize = 0;
    assert(skill_views(out@) =~= Seq::<SkillView>::empty());
    while i < found.len()
        invariant
            fv == skill_views(found@),
            i <= found.len(),
            by_name(skill_views(out@)),
            forall|x: SkillView| skill_views(out@).contains(x) <==> listed_before(fv, i as int, x),
            forall|k: int| 0 <= k < i ==> names_in(skill_views(out@), #[trigger] fv[k].name),
            forall|m: int| 0 <= m < out@.len() ==> named_before(fv, i as int, #[trigger] skill_views(out@)[m].name),
        decreases found.len() - i,
    {
        let ghost ov = skill_views(out@);
        let n = found[i].name.as_str();
        assert(fv[i as int] == found@[i as int].view());
        let seen = has_name(&out, n);
        if seen {
            proof {
                let m = choose|m: int| 0 <= m < ov.len() && #[trigger] ov[m].name == n@;
                assert(named_before(fv, i as int, ov[m].name));
                let k = choose|k: int| 0 <= k < i && #[trigger] fv[k].name == ov[m].name;
                assert(fv[k].name == fv[i as int].name);
                assert(shadowed(fv, i as int));
                assert forall|x: SkillView| ov.contains(x) <==> listed_before(fv, i + 1, x) by {
                    if listed_before(fv, i + 1, x) {
                        let k2 = choose|k: int| 0 <= k < i + 1 && fv[k] == x && !shadowed(fv, k);
                        assert(k2 != i);
                        assert(listed_before(fv, i as int, x));
                    }
                    if listed_before(fv, i as int, x) {
                        let k2 = choose|k: int| 0 <= k < i && fv[k] == x && !shadowed(fv, k);
                        assert(0 <= k2 < i + 1 && fv[k2] == x && !shadowed(fv, k2));
                    }
                }
                assert forall|m2: int| 0 <= m2 < ov.len() implies named_before(fv, i + 1, #[trigger] ov[m2].name) by {
                    assert(named_before(fv, i as int, ov[m2].name));
                    let k2 = choose|k: int| 0 <= k < i && #[trigger] fv[k].name == ov[m2].name;
                    assert(0 <= k2 < i + 1 && fv[k2].name == ov[m2].name);
                }
            }
        } else {
            let mut p: usize = 0;
            while p < out.len() && crate::text::less(out[p].name.as_str(), n)
                invariant
                    p <= out.len(),
                    ov == skill_views(out@),
                    by_name(ov),
                    forall|q: int| 0 <= q < p ==> lt(#[trigger] ov[q].name, n@),
                decreases out.len() - p,
            {
                assert(ov[p as int] == out@[p as int].view());
                p += 1;
            }
            proof {
                assert forall|q: int| p <= q < ov.len() implies lt(n@, #[trigger] ov[q].name) by {
                    assert(ov[p as int] == out@[p as int].view());
                    crate::text::lemma_lt_total(ov[p as int].name, n@);
                    assert(ov[p as int].name != n@) by {
                        if ov[p as int].name == n@ {
                            assert(names_in(ov, n@));
                        }
                    }
                    if q > p {
                        crate::text::lemma_lt_transitive(n@, ov[p as int].name, ov[q].name);
                    }
                }
                assert(!shadowed(fv, i as int)) by {
                    if shadowed(fv, i as int) {
                        let j = choose|j: int| 0 <= j < i && #[trigger] fv[j].name == fv[i as int].name;
                        assert(names_in(ov, fv[j].name));
                    }
                }
                lemma_insert_by_name(ov, p as int, fv[i as int]);
            }
            let c = copy_skill(&found[i]);
            out.insert(p, c);
            proof {
                let nv = skill_views(out@);
                assert(nv =~= ov.insert(p as int, fv[i as int]));
                assert forall|x: SkillView| nv.contains(x) <==> listed_before(fv, i + 1, x) by {
                    if listed_before(fv, i + 1, x) {
                        let k2 = choose|k: int| 0 <= k < i + 1 && fv[k] == x && !shadowed(fv, k);
                        if k2 < i {
                            assert(listed_before(fv, i as int, x));
                        }
                    }
                    if listed_before(fv, i as int, x) {
                        let k2 = choose|k: int| 0 <= k < i && fv[k] == x && !shadowed(fv, k);
                        assert(0 <= k2 < i + 1 && fv[k2] == x && !shadowed(fv, k2));
                    }
                    if x == fv[i as int] {
                        assert(0 <= i < i + 1 && fv[i as int] == x && !shadowed(fv, i as int));
                    }
                }
                assert forall|k: int| 0 <= k < i + 1 implies names_in(nv, #[trigger] fv[k].name) by {
                    if k < i {
                        assert(names_in(ov, fv[k].name));
                    }
                }
                assert forall|m: int| 0 <= m < nv.len() implies named_before(fv, i + 1, #[trigger] nv[m].name) by {
                    assert(names_in(nv, nv[m].name));
                    if nv[m].name != fv[i as int].name {
                        assert(names_in(ov, nv[m].name));
                        let m2 = choose|m2: int| 0 <= m2 < ov.len() && #[trigger] ov[m2].name == nv[m].name;
                        assert(named_before(fv, i as int, ov[m2].name));
                        let k2 = choose|k: int| 0 <= k < i && #[trigger] fv[k].name == ov[m2].name;
                        assert(0 <= k2 < i + 1 && fv[k2].name == nv[m].name);
                    } else {
                        assert(0 <= i < i + 1 && fv[i as int].name == nv[m].name);
                    }
                }
            }
        }
        i += 1;
    }
    proof {
        assert forall|x: SkillView| skill_views(out@).contains(x) <==> listed(fv, x) by {
            if listed(fv, x) {
                let k = choose|k: int| 0 <= k < fv.len() && fv[k] == x && !shadowed(fv, k);
                assert(listed_before(fv, i as int, x));
            }
            if listed_before(fv, i as int, x) {
                let k = choose|k: int| 0 <= k < i && fv[k] == x && !shadowed(fv, k);
                assert(0 <= k < fv.len());
            }
        }
    }
    out
}


/// A skill present in several searched directories lists once, from the
/// first: whatever lists under a name is the first find of that name.
pub proof fn law_an_earlier_dir_shadows_a_later_one(found: Seq<SkillView>, i: int, x: SkillView)
    requires
        0 <= i < found.len(),
        !shadowed(found, i),
        listed(found, x),
        x.name == found[i].name,
    ensures
        x == found[i],
{
    let k = choose|k: int| 0 <= k < found.len() && found[k] == x && !shadowed(found, k);
    if k < i {
        assert(found[k].name == found[i].name);
        assert(shadowed(found, i));
    } else if k > i {
        assert(found[i].name == found[k].name);
        assert(shadowed(found, k));
    }
}

// ── listing and showing ─────────────────────────────────────────────────────

pub open spec fn list_lines(skills: Seq<SkillView>, searched: Seq<Seq<char>>) -> Seq<Seq<char>> {
    if skills.len() == 0 {
        seq![
            "No skills found (searched "@ + join(searched, ", "@)
                + ") — install the paniolo package or run `paniolo setup` from a source checkout."@,
        ]
    } else {
        skill_blocks(skills) + seq!["Read one with `paniolo skill <name>` (or --path for its file path)."@]
    }
}

/// Each skill's name, its description indented (when it has one), and a
/// blank line.
pub open spec fn skill_blocks(skills: Seq<SkillView>) -> Seq<Seq<char>>
    decreases skills.len(),
{
    if skills.len() == 0 {
        Seq::empty()
    } else {
        let s = skills.last();
        skill_blocks(skills.drop_last()) + seq![s.name] + (if s.description.len() > 0 {
            seq!["    "@ + s.description]
        } else {
            Seq::empty()
        }) + seq![Seq::empty()]
    }
}

/// What `paniolo skill` prints: each skill and its description, then how to
/// read one; or, with none found, where it looked.
pub fn skill_list_lines(skills: &Vec<Skill>, searched: &Vec<String>) -> (r: Vec<String>)
    ensures
        views(r@) == list_lines(skill_views(skills@), views(searched@)),
{
    let ghost sv = skill_views(skills@);
    let mut out: Vec<String> = Vec::new();
    if skills.len() == 0 {
        let mut m = crate::text::cat("No skills found (searched ", join_strings(searched, ", ").as_str());
        crate::text::push_str(
            &mut m,
            ") — install the paniolo package or run `paniolo setup` from a source checkout.",
        );
        push_line(&mut out, m);
        return out;
    }
    let mut i: usize = 0;
    while i < skills.len()
        invariant
            sv == skill_views(skills@),
            i <= skills.len(),
            views(out@) == skill_blocks(sv.take(i as int)),
        decreases skills.len() - i,
    {
        assert(sv.take(i + 1).drop_last() =~= sv.take(i as int));
        assert(sv.take(i + 1).last() == skills@[i as int].view());
        push_line(&mut out, skills[i].name.clone());
        if chars_of(skills[i].description.as_str()).len() > 0 {
            push_line(&mut out, crate::text::cat("    ", skills[i].description.as_str()));
        }
        push_line(&mut out, String::new());
        assert(views(out@) =~= skill_blocks(sv.take(i + 1)));
        i += 1;
    }
    assert(sv.take(skills.len() as int) =~= sv);
    push_line(&mut out, owned("Read one with `paniolo skill <name>` (or --path for its file path)."));
    out
}

pub open spec fn skill_index(skills: Seq<SkillView>, name: Seq<char>, i: int) -> Option<int>
    decreases skills.len() - i,
{
    if i < 0 || i >= skills.len() {
        None
    } else if skills[i].name == name {
        Some(i)
    } else {
        skill_index(skills, name, i + 1)
    }
}

pub open spec fn not_found_text(name: Seq<char>, have: Seq<Seq<char>>) -> Seq<char> {
    "skill '"@ + name + "' not found (skills: "@ + (if have.len() == 0 {
        "(none)"@
    } else {
        join(have, ", "@)
    }) + "). List them with `paniolo skill`."@
}

pub open spec fn skill_names(skills: Seq<SkillView>) -> Seq<Seq<char>> {
    skills.map_values(|s: SkillView| s.name)
}

/// The skill named `name`, or the error naming the ones there are.
pub fn find_skill(skills: &Vec<Skill>, name: &str) -> (r: Result<usize, String>)
    ensures
        match skill_index(skill_views(skills@), name@, 0) {
            Some(i) => r == Ok::<usize, String>(i as usize),
            None => r matches Err(e) && e@ == not_found_text(name@, skill_names(skill_views(skills@))),
        },
{
    let ghost sv = skill_views(skills@);
    let mut i: usize = 0;
    let mut names: Vec<String> = Vec::new();
    while i < skills.len()
        invariant
            sv == skill_views(skills@),
            i <= skills.len(),
            skill_index(sv, name@, 0) == skill_index(sv, name@, i as int),
            views(names@) == skill_names(sv.take(i as int)),
        decreases skills.len() - i,
    {
        assert(sv[i as int] == skills@[i as int].view());
        if same(skills[i].name.as_str(), name) {
            return Ok(i);
        }
        push_line(&mut names, skills[i].name.clone());
        assert(sv.take(i + 1) =~= sv.take(i as int).push(sv[i as int]));
        assert(views(names@) =~= skill_names(sv.take(i + 1)));
        i += 1;
    }
    assert(sv.take(skills.len() as int) =~= sv);
    let mut m = crate::text::cat3("skill '", name, "' not found (skills: ");
    if names.len() == 0 {
        crate::text::push_str(&mut m, "(none)");
    } else {
        crate::text::push_str(&mut m, join_strings(&names, ", ").as_str());
    }
    crate::text::push_str(&mut m, "). List them with `paniolo skill`.");
    Err(m)
}
} // verus!
