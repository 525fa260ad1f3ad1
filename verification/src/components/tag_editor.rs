//! The tag editor of one entity: its badge, its tags in name order, the
//! validation banners, the add-tag dropdown, and the name field of its
//! properties.

use vstd::prelude::*;

use crate::components::config_view::tags_sorted;
use crate::components::coverage_view::{names_view, Severity};
use crate::text::{
    chars_of, contains_char, contains_chars, has_substring, lemma_text_lt_order, lowercase, push_str, str_eq, text_less, text_lt,
    to_lowercase,
};

verus! {

/// The badge of an entity type.
pub fn entity_badge(entity_type: &str) -> (r: &'static str)
    ensures
        r@ == if entity_type@ == "equip"@ {
            "E"@
        } else if entity_type@ == "point"@ {
            "P"@
        } else if entity_type@ == "site"@ {
            "S"@
        } else if entity_type@ == "space"@ {
            "Sp"@
        } else {
            "?"@
        },
{
    if str_eq(entity_type, "equip") {
        "E"
    } else if str_eq(entity_type, "point") {
        "P"
    } else if str_eq(entity_type, "site") {
        "S"
    } else if str_eq(entity_type, "space") {
        "Sp"
    } else {
        "?"
    }
}

/// The entity type a selected id stands for: a point when the id holds a
/// `/` (device and point), equipment otherwise.
pub fn entity_kind_of(id: &str) -> (r: &'static str)
    ensures
        r@ == if id@.contains('/') { "point"@ } else { "equip"@ },
{
    let cs = chars_of(id);
    if contains_char(&cs, '/') {
        "point"
    } else {
        "equip"
    }
}

/// What the tag editor pane shows: a hint without a selection, the
/// editor for an entity that exists, or the prompt to create it.
#[derive(Debug, Clone, Copy, PartialEq, Eq, Structural)]
pub enum EditorPane {
    NothingSelected,
    Editor,
    CreatePrompt,
}

/// What the tag editor pane shows (see `EditorPane`).
pub fn editor_pane(selected: bool, entity_found: bool) -> (r: EditorPane)
    ensures
        r == if !selected {
            EditorPane::NothingSelected
        } else if entity_found {
            EditorPane::Editor
        } else {
            EditorPane::CreatePrompt
        },
{
    if !selected {
        EditorPane::NothingSelected
    } else if entity_found {
        EditorPane::Editor
    } else {
        EditorPane::CreatePrompt
    }
}

// ----------------------------------------------------------------
// Applied tags
// ----------------------------------------------------------------

/// No two tags share a name.
pub open spec fn names_unique(tags: Seq<(String, Option<String>)>) -> bool {
    forall|a: int, b: int| 0 <= a < b < tags.len() ==> (#[trigger] tags[a]).0@ != (#[trigger] tags[b]).0@
}

/// The applied tags in name order: the same tags, sorted by name.
pub fn sorted_tags(tags: &Vec<(String, Option<String>)>) -> (r: Vec<(String, Option<String>)>)
    requires
        names_unique(tags@),
    ensures
        r@.len() == tags@.len(),
        tags_sorted(r@),
        forall|x: (String, Option<String>)| #[trigger] r@.contains(x) == tags@.contains(x),
{
    let mut out: Vec<(String, Option<String>)> = Vec::new();
    let mut i: usize = 0;
    while i < tags.len()
        invariant
            i <= tags@.len(),
            names_unique(tags@),
            out@.len() == i,
            tags_sorted(out@),
            forall|x: (String, Option<String>)| #[trigger] out@.contains(x) == tags@.take(i as int).contains(x),
        decreases tags.len() - i,
    {
        let item = &tags[i];
        let ghost k = item.0@;
        let kc = chars_of(item.0.as_str());
        let ghost ob = out@;
        proof {
            assert forall|q: int| 0 <= q < ob.len() implies (#[trigger] ob[q]).0@ != k by {
                assert(ob.contains(ob[q]));
                assert(tags@.take(i as int).contains(ob[q]));
                let p = choose|p: int| 0 <= p < i && tags@.take(i as int)[p] == ob[q];
                assert(tags@[p] == ob[q]);
            }
        }
        let mut j: usize = 0;
        while j < out.len() && text_less(&chars_of(out[j].0.as_str()), &kc)
            invariant
                j <= out@.len(),
                out@ == ob,
                kc@ == k,
                forall|q: int| 0 <= q < j ==> text_lt((#[trigger] out@[q]).0@, k),
            decreases out.len() - j,
        {
            j = j + 1;
        }
        proof {
            if j < ob.len() {
                assert(!text_lt(ob[j as int].0@, k));
                lemma_text_lt_order(ob[j as int].0@, k, ob[j as int].0@);
            }
        }
        out.insert(j, (item.0.clone(), item.1.clone()));
        proof {
            let x = tags@[i as int];
            ob.insert_ensures(j as int, x);
            assert(out@ == ob.insert(j as int, x));
            if j < ob.len() {
                lemma_text_lt_order(k, ob[j as int].0@, k);
            }
            assert forall|a: int, b: int| 0 <= a < b < out@.len() implies text_lt((#[trigger] out@[a]).0@, (#[trigger] out@[b]).0@) by {
                if j < ob.len() {
                    lemma_text_lt_order(k, ob[j as int].0@, k);
                }
                if b < j {
                    assert(out@[a] == ob[a]);
                    assert(out@[b] == ob[b]);
                } else if b == j {
                    assert(out@[a] == ob[a]);
                } else if a == j {
                    assert(out@[b] == ob[b - 1]);
                    if b - 1 > j {
                        lemma_text_lt_order(k, ob[j as int].0@, ob[b - 1].0@);
                    } else {
                        lemma_text_lt_order(k, ob[j as int].0@, k);
                        assert(ob[j as int].0@ != k);
                    }
                } else if a < j {
                    assert(out@[a] == ob[a]);
                    assert(out@[b] == ob[b - 1]);
                    assert(text_lt(ob[a].0@, k));
                    if b - 1 > j {
                        lemma_text_lt_order(k, ob[j as int].0@, ob[b - 1].0@);
                    }
                    lemma_text_lt_order(ob[a].0@, k, ob[b - 1].0@);
                } else {
                    assert(out@[a] == ob[a - 1]);
                    assert(out@[b] == ob[b - 1]);
                }
            }
            assert(tags@.take(i + 1) =~= tags@.take(i as int).push(x));
            assert forall|y: (String, Option<String>)| #[trigger] out@.contains(y) == tags@.take(i + 1).contains(y) by {
                let t0 = tags@.take(i as int);
                let t1 = tags@.take(i + 1);
                if out@.contains(y) {
                    let q = choose|q: int| 0 <= q < out@.len() && out@[q] == y;
                    if q < j {
                        assert(ob[q] == y);
                        assert(ob.contains(y));
                        let p = choose|p: int| 0 <= p < t0.len() && t0[p] == y;
                        assert(t1[p] == y);
                    } else if q == j {
                        assert(t1[i as int] == y);
                    } else {
                        assert(ob[q - 1] == y);
                        assert(ob.contains(y));
                        let p = choose|p: int| 0 <= p < t0.len() && t0[p] == y;
                        assert(t1[p] == y);
                    }
                }
                if t1.contains(y) {
                    let p = choose|p: int| 0 <= p < t1.len() && t1[p] == y;
                    if p == i {
                        assert(out@[j as int] == y);
                    } else {
                        assert(t0[p] == y);
                        assert(t0.contains(y));
                        assert(ob.contains(y));
                        let q = choose|q: int| 0 <= q < ob.len() && ob[q] == y;
                        if q < j {
                            assert(out@[q] == y);
                        } else {
                            assert(out@[q + 1] == y);
                        }
                    }
                }
            }
        }
        i = i + 1;
    }
    assert(tags@.take(tags@.len() as int) =~= tags@);
    out
}

// ----------------------------------------------------------------
// Validation banners
// ----------------------------------------------------------------

/// A problem that tag validation found: its severity, its message, the
/// tags involved and a suggested fix.
pub struct ValidationIssue {
    pub severity: Severity,
    pub message: String,
    pub tags_involved: Vec<String>,
    pub suggested_fix: Option<String>,
}

/// A banner as shown: its class, its icon and its texts.
pub struct Banner {
    pub class: &'static str,
    pub icon: &'static str,
    pub message: String,
    /// `Tags: a, b` when tags are involved.
    pub tags_text: Option<String>,
    /// `Fix: ...` when a fix is suggested.
    pub fix_text: Option<String>,
}

/// Texts joined by `, `.
pub open spec fn joined(v: Seq<Seq<char>>) -> Seq<char>
    decreases v.len(),
{
    if v.len() == 0 {
        seq![]
    } else if v.len() == 1 {
        v[0]
    } else {
        joined(v.drop_last()) + ", "@ + v.last()
    }
}

/// The banner of an issue, as `(class, icon, message, tags text, fix
/// text)`.
pub open spec fn banner_of(i: ValidationIssue) -> (Seq<char>, Seq<char>, Seq<char>, Option<Seq<char>>, Option<Seq<char>>) {
    (
        match i.severity {
            Severity::Error => "validation-banner validation-error"@,
            Severity::Warning => "validation-banner validation-warning"@,
            Severity::Info => "validation-banner validation-info"@,
        },
        if i.severity == Severity::Info { "i"@ } else { "!"@ },
        i.message@,
        if i.tags_involved@.len() == 0 { None } else { Some("Tags: "@ + joined(names_view(i.tags_involved@))) },
        match i.suggested_fix {
            Some(f) => Some("Fix: "@ + f@),
            None => None,
        },
    )
}

/// A banner as plain values.
pub open spec fn banner_view(b: Banner) -> (Seq<char>, Seq<char>, Seq<char>, Option<Seq<char>>, Option<Seq<char>>) {
    (
        b.class@,
        b.icon@,
        b.message@,
        match b.tags_text {
            Some(t) => Some(t@),
            None => None,
        },
        match b.fix_text {
            Some(t) => Some(t@),
            None => None,
        },
    )
}

/// The banners of the issues of severity `sev`, in order.
pub open spec fn banners_of(issues: Seq<ValidationIssue>, sev: Severity) -> Seq<(Seq<char>, Seq<char>, Seq<char>, Option<Seq<char>>, Option<Seq<char>>)>
    decreases issues.len(),
{
    if issues.len() == 0 {
        seq![]
    } else {
        banners_of(issues.drop_last(), sev) + if issues.last().severity == sev {
            seq![banner_of(issues.last())]
        } else {
            seq![]
        }
    }
}

/// Appends texts joined by `, ` (see `joined`).
fn push_joined(s: &mut String, v: &Vec<String>)
    ensures
        final(s)@ == old(s)@ + joined(names_view(v@)),
{
    let ghost vv = names_view(v@);
    let mut i: usize = 0;
    while i < v.len()
        invariant
            i <= v@.len(),
            vv == names_view(v@),
            s@ == old(s)@ + joined(vv.take(i as int)),
        decreases v.len() - i,
    {
        proof {
            assert(vv.take(i + 1).drop_last() =~= vv.take(i as int));
            assert(vv.take(i + 1).last() == vv[i as int]);
        }
        if i > 0 {
            push_str(s, ", ");
        } else {
            assert(vv.take(1)[0] == vv[0]);
        }
        push_str(s, v[i].as_str());
        i = i + 1;
        assert(s@ =~= old(s)@ + joined(vv.take(i as int)));
    }
    assert(vv.take(v@.len() as int) =~= vv);
}

/// The banner of an issue (see `banner_of`).
fn make_banner(i: &ValidationIssue) -> (r: Banner)
    ensures
        banner_view(r) == banner_of(*i),
{
    let class = match i.severity {
        Severity::Error => "validation-banner validation-error",
        Severity::Warning => "validation-banner validation-warning",
        Severity::Info => "validation-banner validation-info",
    };
    let icon = match i.severity {
        Severity::Info => "i",
        _ => "!",
    };
    let tags_text = if i.tags_involved.len() == 0 {
        None
    } else {
        let mut t = String::from_str("Tags: ");
        push_joined(&mut t, &i.tags_involved);
        Some(t)
    };
    let fix_text = match &i.suggested_fix {
        Some(f) => {
            let mut t = String::from_str("Fix: ");
            push_str(&mut t, f.as_str());
            Some(t)
        },
        None => None,
    };
    Banner { class, icon, message: i.message.clone(), tags_text, fix_text }
}

/// Appends the banners of the issues of one severity.
fn push_banners(out: &mut Vec<Banner>, issues: &Vec<ValidationIssue>, sev: Severity)
    ensures
        final(out)@.map_values(|b: Banner| banner_view(b)) == old(out)@.map_values(|b: Banner| banner_view(b))
            + banners_of(issues@, sev),
{
    let ghost base = out@.map_values(|b: Banner| banner_view(b));
    let mut i: usize = 0;
    while i < issues.len()
        invariant
            i <= issues@.len(),
            out@.map_values(|b: Banner| banner_view(b)) == base + banners_of(issues@.take(i as int), sev),
        decreases issues.len() - i,
    {
        proof {
            assert(issues@.take(i + 1).drop_last() =~= issues@.take(i as int));
            assert(issues@.take(i + 1).last() == issues@[i as int]);
        }
        let ghost before = out@;
        if issues[i].severity == sev {
            let b = make_banner(&issues[i]);
            out.push(b);
            assert(out@.map_values(|b: Banner| banner_view(b)) =~= before.map_values(|b: Banner| banner_view(b)).push(banner_view(b)));
        }
        i = i + 1;
    }
    assert(issues@.take(issues@.len() as int) =~= issues@);
}

/// The validation banners: the errors first, then the warnings, then the
/// notes, each in the order validation reported them.
pub fn validation_banners(issues: &Vec<ValidationIssue>) -> (r: Vec<Banner>)
    ensures
        r@.map_values(|b: Banner| banner_view(b)) == banners_of(issues@, Severity::Error) + banners_of(issues@, Severity::Warning)
            + banners_of(issues@, Severity::Info),
{
    let mut out: Vec<Banner> = Vec::new();
    assert(out@.map_values(|b: Banner| banner_view(b)) =~= Seq::<(Seq<char>, Seq<char>, Seq<char>, Option<Seq<char>>, Option<Seq<char>>)>::empty());
    push_banners(&mut out, issues, Severity::Error);
    push_banners(&mut out, issues, Severity::Warning);
    push_banners(&mut out, issues, Severity::Info);
    assert(out@.map_values(|b: Banner| banner_view(b)) =~= banners_of(issues@, Severity::Error) + banners_of(issues@, Severity::Warning)
        + banners_of(issues@, Severity::Info));
    out
}

// ----------------------------------------------------------------
// Adding a tag
// ----------------------------------------------------------------

/// A tag of the catalog: its name, what it means, and whether it is a
/// marker (a tag without a value).
pub struct TagDef {
    pub name: String,
    pub doc: String,
    pub marker: bool,
}

/// A catalog tag is offered when the entity lacks it and the lowercased
/// search is empty or found, lowercased, in its name or its meaning.
pub open spec fn tag_offered(t: TagDef, current: Seq<Seq<char>>, query: Seq<char>) -> bool {
    &&& !current.contains(t.name@)
    &&& (lowercase(query).len() == 0 || has_substring(lowercase(t.name@), lowercase(query)) || has_substring(
        lowercase(t.doc@),
        lowercase(query),
    ))
}

/// The positions in the catalog of the tags offered, in order.
pub open spec fn offered_positions(catalog: Seq<TagDef>, current: Seq<Seq<char>>, query: Seq<char>) -> Seq<int>
    decreases catalog.len(),
{
    if catalog.len() == 0 {
        seq![]
    } else {
        offered_positions(catalog.drop_last(), current, query) + if tag_offered(catalog.last(), current, query) {
            seq![catalog.len() - 1]
        } else {
            seq![]
        }
    }
}

/// Whether `x` is among the names.
fn name_listed(names: &Vec<String>, x: &String) -> (r: bool)
    ensures
        r == names_view(names@).contains(x@),
{
    let mut i: usize = 0;
    while i < names.len()
        invariant
            i <= names@.len(),
            forall|k: int| 0 <= k < i ==> (#[trigger] names@[k])@ != x@,
        decreases names.len() - i,
    {
        if str_eq(names[i].as_str(), x.as_str()) {
            assert(names_view(names@)[i as int] == x@);
            return true;
        }
        i = i + 1;
    }
    proof {
        if names_view(names@).contains(x@) {
            let k = choose|k: int| 0 <= k < names_view(names@).len() && names_view(names@)[k] == x@;
            assert(names@[k]@ == x@);
        }
    }
    false
}

/// The add-tag dropdown: the positions in the catalog of the first twenty
/// tags offered.
pub fn tag_options(catalog: &Vec<TagDef>, current: &Vec<String>, query: &str) -> (r: Vec<usize>)
    ensures
        r@.map_values(|p: usize| p as int) == offered_positions(catalog@, names_view(current@), query@).take(
            if offered_positions(catalog@, names_view(current@), query@).len() < 20 {
                offered_positions(catalog@, names_view(current@), query@).len() as int
            } else {
                20
            },
        ),
{
    let ql = to_lowercase(query);
    let q = chars_of(ql.as_str());
    let ghost cur = names_view(current@);
    let mut all: Vec<usize> = Vec::new();
    let mut i: usize = 0;
    while i < catalog.len()
        invariant
            i <= catalog@.len(),
            q@ == lowercase(query@),
            cur == names_view(current@),
            all@.map_values(|p: usize| p as int) == offered_positions(catalog@.take(i as int), cur, query@),
        decreases catalog.len() - i,
    {
        proof {
            assert(catalog@.take(i + 1).drop_last() =~= catalog@.take(i as int));
            assert(catalog@.take(i + 1).last() == catalog@[i as int]);
        }
        let t = &catalog[i];
        let ghost before = all@;
        let keep = !name_listed(current, &t.name) && (q.len() == 0 || {
            let nl = to_lowercase(t.name.as_str());
            contains_chars(&chars_of(nl.as_str()), &q)
        } || {
            let dl = to_lowercase(t.doc.as_str());
            contains_chars(&chars_of(dl.as_str()), &q)
        });
        if keep {
            all.push(i);
            assert(all@.map_values(|p: usize| p as int) =~= before.map_values(|p: usize| p as int) + seq![i as int]);
        } else {
            assert(all@.map_values(|p: usize| p as int) =~= before.map_values(|p: usize| p as int) + Seq::<int>::empty());
        }
        i = i + 1;
    }
    assert(catalog@.take(catalog@.len() as int) =~= catalog@);
    let ghost full = all@.map_values(|p: usize| p as int);
    let mut r: Vec<usize> = Vec::new();
    let mut k: usize = 0;
    while k < all.len() && k < 20
        invariant
            k <= all@.len(),
            k <= 20,
            full == all@.map_values(|p: usize| p as int),
            r@.map_values(|p: usize| p as int) == full.take(k as int),
        decreases all.len() - k,
    {
        let ghost before = r@;
        r.push(all[k]);
        proof {
            assert(full[k as int] == all@[k as int] as int);
            assert(r@.map_values(|p: usize| p as int) =~= before.map_values(|p: usize| p as int).push(full[k as int]));
            assert(full.take(k + 1) =~= full.take(k as int).push(full[k as int]));
        }
        k = k + 1;
    }
    r
}

/// What picking a tag in the dropdown does: a marker is set at once; a
/// tag with a value asks for the value first.
#[derive(Debug, PartialEq)]
pub enum TagPick {
    SetMarker(String),
    AskValue(String),
}

/// What picking a catalog tag does (see `TagPick`).
pub fn pick_tag(t: &TagDef) -> (r: TagPick)
    ensures
        match r {
            TagPick::SetMarker(n) => t.marker && n@ == t.name@,
            TagPick::AskValue(n) => !t.marker && n@ == t.name@,
        },
{
    if t.marker {
        TagPick::SetMarker(t.name.clone())
    } else {
        TagPick::AskValue(t.name.clone())
    }
}

/// The value a tag is set to from the value field: none when left empty.
pub fn entered_value(typed: &String) -> (r: Option<String>)
    ensures
        match r {
            Some(v) => typed@.len() > 0 && v@ == typed@,
            None => typed@.len() == 0,
        },
{
    if typed.unicode_len() == 0 { None } else { Some(typed.clone()) }
}

// ----------------------------------------------------------------
// The name field
// ----------------------------------------------------------------

/// The text of the name field as the properties panel shows it: the
/// entity's name when another entity was selected, or when the field is
/// empty (and differs from the name); otherwise what was typed.
pub fn synced_name(edited: &String, entity_name: &String, selected_id: &String, entity_id: &String) -> (r: String)
    ensures
        r@ == if (edited@ != entity_name@ && edited@.len() == 0) || selected_id@ != entity_id@ {
            entity_name@
        } else {
            edited@
        },
{
    if (!str_eq(edited.as_str(), entity_name.as_str()) && edited.unicode_len() == 0) || !str_eq(selected_id.as_str(), entity_id.as_str()) {
        entity_name.clone()
    } else {
        edited.clone()
    }
}

/// Whether the name was changed: only then is "Save" offered.
pub fn name_changed(edited: &String, entity_name: &String) -> (r: bool)
    ensures
        r == (edited@ != entity_name@),
{
    !str_eq(edited.as_str(), entity_name.as_str())
}

} // verus!
