//! The equipment browser of the configuration view: which equipment and
//! points a search shows, what a point is called, and the tri-state check
//! box with which batch mode selects a piece of equipment and its points.

use vstd::prelude::*;

use crate::components::alarm_view::{field_matches, pairs_view, text_matches};
use crate::components::coverage_view::names_view;
use crate::text::{has_substring, chars_of, lemma_split_on_nonempty, lowercase, pieces_view, split_chars, split_on, str_eq, string_of, to_lowercase};

verus! {

// ----------------------------------------------------------------
// Search
// ----------------------------------------------------------------

/// A piece of equipment is listed when the lowercased search is empty or
/// its id or display name matches.
pub open spec fn equip_shown(node: (Seq<char>, Seq<char>), query: Seq<char>) -> bool {
    lowercase(query).len() == 0 || text_matches(node.0, query) || text_matches(node.1, query)
}

/// A point of an expanded piece of equipment is listed when the search is
/// empty or the point's id or display name, or the equipment's id,
/// matches.
pub open spec fn point_shown(node: (Seq<char>, Seq<char>), device_id: Seq<char>, query: Seq<char>) -> bool {
    query.len() == 0 || text_matches(node.0, query) || text_matches(node.1, query) || text_matches(device_id, query)
}

/// The nodes, as `(id, display name)`, that pass `shown`, in order.
pub open spec fn kept(nodes: Seq<(Seq<char>, Seq<char>)>, shown: spec_fn((Seq<char>, Seq<char>)) -> bool) -> Seq<(Seq<char>, Seq<char>)>
    decreases nodes.len(),
{
    if nodes.len() == 0 {
        seq![]
    } else {
        kept(nodes.drop_last(), shown) + if shown(nodes.last()) { seq![nodes.last()] } else { seq![] }
    }
}

/// What `kept` keeps: exactly the nodes that pass, each where it stood
/// relative to the others.
pub proof fn lemma_kept_members(
    nodes: Seq<(Seq<char>, Seq<char>)>,
    shown: spec_fn((Seq<char>, Seq<char>)) -> bool,
    k: int,
)
    requires
        0 <= k < nodes.len(),
        shown(nodes[k]),
    ensures
        kept(nodes, shown).contains(nodes[k]),
    decreases nodes.len(),
{
    let last = nodes.len() - 1;
    if k == last {
        let r = kept(nodes, shown);
        assert(r[r.len() - 1] == nodes[k]);
    } else {
        assert(nodes.drop_last()[k] == nodes[k]);
        lemma_kept_members(nodes.drop_last(), shown, k);
        let prev = kept(nodes.drop_last(), shown);
        let j = choose|j: int| 0 <= j < prev.len() && prev[j] == nodes[k];
        assert(kept(nodes, shown)[j] == prev[j]);
    }
}

/// Everything `kept` keeps is one of the nodes and passes.
pub proof fn lemma_kept_only_passing(
    nodes: Seq<(Seq<char>, Seq<char>)>,
    shown: spec_fn((Seq<char>, Seq<char>)) -> bool,
)
    ensures
        forall|j: int| 0 <= j < kept(nodes, shown).len() ==> nodes.contains(#[trigger] kept(nodes, shown)[j])
            && shown(kept(nodes, shown)[j]),
    decreases nodes.len(),
{
    if nodes.len() > 0 {
        lemma_kept_only_passing(nodes.drop_last(), shown);
        let prev = kept(nodes.drop_last(), shown);
        let r = kept(nodes, shown);
        assert forall|j: int| 0 <= j < r.len() implies nodes.contains(#[trigger] r[j]) && shown(r[j]) by {
            if j < prev.len() {
                assert(r[j] == prev[j]);
                let m = choose|m: int| 0 <= m < nodes.drop_last().len() && nodes.drop_last()[m] == prev[j];
                assert(nodes[m] == prev[j]);
            } else {
                assert(r[j] == nodes.last());
                assert(nodes[nodes.len() - 1] == nodes.last());
            }
        }
    }
}

/// A point search lists every point whose id, or whose display name,
/// contains the search (both lowercased), and every point when the
/// equipment's id does; it lists nothing else, except that an empty search
/// lists every point.
pub proof fn law_point_search(
    points: Seq<(Seq<char>, Seq<char>)>,
    device_id: Seq<char>,
    query: Seq<char>,
)
    ensures
        ({
            let r = kept(points, |n: (Seq<char>, Seq<char>)| point_shown(n, device_id, query));
            &&& forall|k: int| 0 <= k < points.len() && (query.len() == 0
                || has_substring(lowercase(points[k].0), lowercase(query))
                || has_substring(lowercase(points[k].1), lowercase(query))
                || has_substring(lowercase(device_id), lowercase(query)))
                ==> r.contains(#[trigger] points[k])
            &&& forall|j: int| 0 <= j < r.len() ==> points.contains(#[trigger] r[j]) && (query.len() == 0
                || has_substring(lowercase(r[j].0), lowercase(query))
                || has_substring(lowercase(r[j].1), lowercase(query))
                || has_substring(lowercase(device_id), lowercase(query)))
        }),
{
    let shown = |n: (Seq<char>, Seq<char>)| point_shown(n, device_id, query);
    let r = kept(points, shown);
    assert forall|k: int| 0 <= k < points.len() && (query.len() == 0
        || has_substring(lowercase(points[k].0), lowercase(query))
        || has_substring(lowercase(points[k].1), lowercase(query))
        || has_substring(lowercase(device_id), lowercase(query)))
        implies r.contains(#[trigger] points[k]) by {
        lemma_kept_members(points, shown, k);
    }
    lemma_kept_only_passing(points, shown);
    assert forall|j: int| 0 <= j < r.len() implies points.contains(#[trigger] r[j]) && (query.len() == 0
        || has_substring(lowercase(r[j].0), lowercase(query))
        || has_substring(lowercase(r[j].1), lowercase(query))
        || has_substring(lowercase(device_id), lowercase(query))) by {
        assert(shown(r[j]));
    }
}

/// An equipment search lists every piece of equipment whose id or display
/// name contains the search (both lowercased), and nothing else, except
/// that a search that is empty once lowercased lists everything.
pub proof fn law_equipment_search(nodes: Seq<(Seq<char>, Seq<char>)>, query: Seq<char>)
    ensures
        ({
            let r = kept(nodes, |n: (Seq<char>, Seq<char>)| equip_shown(n, query));
            &&& forall|k: int| 0 <= k < nodes.len() && (lowercase(query).len() == 0
                || has_substring(lowercase(nodes[k].0), lowercase(query))
                || has_substring(lowercase(nodes[k].1), lowercase(query)))
                ==> r.contains(#[trigger] nodes[k])
            &&& forall|j: int| 0 <= j < r.len() ==> nodes.contains(#[trigger] r[j]) && (lowercase(query).len() == 0
                || has_substring(lowercase(r[j].0), lowercase(query))
                || has_substring(lowercase(r[j].1), lowercase(query)))
        }),
{
    let shown = |n: (Seq<char>, Seq<char>)| equip_shown(n, query);
    let r = kept(nodes, shown);
    assert forall|k: int| 0 <= k < nodes.len() && (lowercase(query).len() == 0
        || has_substring(lowercase(nodes[k].0), lowercase(query))
        || has_substring(lowercase(nodes[k].1), lowercase(query)))
        implies r.contains(#[trigger] nodes[k]) by {
        lemma_kept_members(nodes, shown, k);
    }
    lemma_kept_only_passing(nodes, shown);
    assert forall|j: int| 0 <= j < r.len() implies nodes.contains(#[trigger] r[j]) && (lowercase(query).len() == 0
        || has_substring(lowercase(r[j].0), lowercase(query))
        || has_substring(lowercase(r[j].1), lowercase(query))) by {
        assert(shown(r[j]));
    }
}

/// The equipment a search lists, as `(id, display name)` pairs.
pub fn filter_equipment(nodes: &Vec<(String, String)>, query: &str) -> (r: Vec<(String, String)>)
    ensures
        pairs_view(r@) == kept(pairs_view(nodes@), |n: (Seq<char>, Seq<char>)| equip_shown(n, query@)),
{
    let ql = to_lowercase(query);
    let q = chars_of(ql.as_str());
    let ghost all = pairs_view(nodes@);
    let ghost shown = |n: (Seq<char>, Seq<char>)| equip_shown(n, query@);
    let mut out: Vec<(String, String)> = Vec::new();
    let mut i: usize = 0;
    while i < nodes.len()
        invariant
            i <= nodes@.len(),
            q@ == lowercase(query@),
            all == pairs_view(nodes@),
            shown == (|n: (Seq<char>, Seq<char>)| equip_shown(n, query@)),
            pairs_view(out@) == kept(all.take(i as int), shown),
        decreases nodes.len() - i,
    {
        proof {
            assert(all.take(i + 1).drop_last() =~= all.take(i as int));
            assert(all.take(i + 1).last() == all[i as int]);
        }
        let ghost before = out@;
        let keep = q.len() == 0 || field_matches(&nodes[i].0, &q) || field_matches(&nodes[i].1, &q);
        if keep {
            out.push((nodes[i].0.clone(), nodes[i].1.clone()));
            assert(pairs_view(out@) =~= pairs_view(before) + seq![all[i as int]]);
        } else {
            assert(pairs_view(out@) =~= pairs_view(before) + Seq::<(Seq<char>, Seq<char>)>::empty());
        }
        i = i + 1;
    }
    assert(all.take(nodes@.len() as int) =~= all);
    out
}

/// The points of an expanded piece of equipment that a search lists.
pub fn filter_points(points: &Vec<(String, String)>, device_id: &String, query: &str) -> (r: Vec<(String, String)>)
    ensures
        pairs_view(r@) == kept(pairs_view(points@), |n: (Seq<char>, Seq<char>)| point_shown(n, device_id@, query@)),
{
    let ql = to_lowercase(query);
    let q = chars_of(ql.as_str());
    let ghost all = pairs_view(points@);
    let ghost shown = |n: (Seq<char>, Seq<char>)| point_shown(n, device_id@, query@);
    let mut out: Vec<(String, String)> = Vec::new();
    let mut i: usize = 0;
    while i < points.len()
        invariant
            i <= points@.len(),
            q@ == lowercase(query@),
            all == pairs_view(points@),
            shown == (|n: (Seq<char>, Seq<char>)| point_shown(n, device_id@, query@)),
            pairs_view(out@) == kept(all.take(i as int), shown),
        decreases points.len() - i,
    {
        proof {
            assert(all.take(i + 1).drop_last() =~= all.take(i as int));
            assert(all.take(i + 1).last() == all[i as int]);
        }
        let ghost before = out@;
        let keep = query.is_empty() || field_matches(&points[i].0, &q) || field_matches(&points[i].1, &q)
            || field_matches(device_id, &q);
        if keep {
            out.push((points[i].0.clone(), points[i].1.clone()));
            assert(pairs_view(out@) =~= pairs_view(before) + seq![all[i as int]]);
        } else {
            assert(pairs_view(out@) =~= pairs_view(before) + Seq::<(Seq<char>, Seq<char>)>::empty());
        }
        i = i + 1;
    }
    assert(all.take(points@.len() as int) =~= all);
    out
}

/// What the equipment list says when it lists nothing: no match for a
/// search, or no equipment at all; nothing when it lists some.
pub open spec fn empty_text(listed: nat, query: Seq<char>) -> Option<Seq<char>> {
    if listed > 0 {
        None
    } else if query.len() == 0 {
        Some("No equipment found. Accept devices in Discovery first."@)
    } else {
        Some("No matches"@)
    }
}

/// What the equipment list says when it lists nothing (see `empty_text`).
pub fn empty_list_text(listed: usize, query: &str) -> (r: Option<&'static str>)
    ensures
        match r {
            Some(t) => empty_text(listed as nat, query@) == Some(t@),
            None => empty_text(listed as nat, query@) is None,
        },
{
    if listed > 0 {
        None
    } else if query.is_empty() {
        Some("No equipment found. Accept devices in Discovery first.")
    } else {
        Some("No matches")
    }
}

/// The name a point shows: its display name, or the last `/`-separated
/// piece of its id when it has none.
pub open spec fn point_name(id: Seq<char>, dis: Seq<char>) -> Seq<char> {
    if dis.len() == 0 { split_on(id, '/').last() } else { dis }
}

/// The name a point shows (see `point_name`).
pub fn point_display_name(id: &str, dis: &str) -> (r: String)
    ensures
        r@ == point_name(id@, dis@),
{
    if dis.unicode_len() > 0 {
        return String::from_str(dis);
    }
    let cs = chars_of(id);
    let pieces = split_chars(&cs, '/');
    proof {
        lemma_split_on_nonempty(id@, '/');
        assert(pieces_view(pieces@).len() == pieces@.len());
    }
    let last = &pieces[pieces.len() - 1];
    proof {
        assert(pieces_view(pieces@)[pieces@.len() - 1] == last@);
    }
    string_of(last)
}

/// The units a point shows: its `units` property, else the value of its
/// `unit` tag, else nothing.
pub fn point_units(property: &Option<String>, unit_tag: &Option<Option<String>>) -> (r: String)
    ensures
        r@ == match property {
            Some(u) => u@,
            None => match unit_tag {
                Some(Some(u)) => u@,
                _ => Seq::<char>::empty(),
            },
        },
{
    match property {
        Some(u) => u.clone(),
        None => match unit_tag {
            Some(Some(u)) => u.clone(),
            _ => String::new(),
        },
    }
}

// ----------------------------------------------------------------
// Batch selection
// ----------------------------------------------------------------

/// The batch check box of a piece of equipment: the equipment and all its
/// points selected, the equipment alone (or without all its points), or
/// the equipment not selected.
#[derive(Debug, Clone, Copy, PartialEq, Eq, Structural)]
pub enum CheckState {
    All,
    Partial,
    Unchecked,
}

/// The equipment has points and every one is selected.
pub open spec fn all_points_in(sel: Seq<Seq<char>>, points: Seq<Seq<char>>) -> bool {
    points.len() > 0 && forall|k: int| 0 <= k < points.len() ==> sel.contains(#[trigger] points[k])
}

/// The state of the check box of `device`, whose points are `points`, for
/// the selection `sel`.
pub open spec fn check_state(sel: Seq<Seq<char>>, device: Seq<char>, points: Seq<Seq<char>>) -> CheckState {
    if sel.contains(device) && all_points_in(sel, points) {
        CheckState::All
    } else if sel.contains(device) {
        CheckState::Partial
    } else {
        CheckState::Unchecked
    }
}

/// Whether `x` is selected after a click on a box in state `st`, given
/// whether it was before. From all, the points are dropped and the
/// equipment kept; from partial, the equipment and its points are dropped;
/// from unchecked, the equipment and its points are added.
pub open spec fn selected_after(st: CheckState, before: bool, x: Seq<char>, device: Seq<char>, points: Seq<Seq<char>>) -> bool {
    match st {
        CheckState::All => x == device || (before && !points.contains(x)),
        CheckState::Partial => before && x != device && !points.contains(x),
        CheckState::Unchecked => before || x == device || points.contains(x),
    }
}

/// `after` is the selection that a click on the box of `device` makes of
/// `before`.
pub open spec fn clicked(before: Seq<Seq<char>>, after: Seq<Seq<char>>, device: Seq<char>, points: Seq<Seq<char>>) -> bool {
    forall|x: Seq<char>|
        #[trigger] after.contains(x) == selected_after(check_state(before, device, points), before.contains(x), x, device, points)
}

/// A prefix one longer holds what the shorter one holds and the next item.
pub(crate) proof fn lemma_take_contains(s: Seq<Seq<char>>, k: int, y: Seq<char>)
    requires
        0 <= k < s.len(),
    ensures
        s.take(k + 1).contains(y) == (s.take(k).contains(y) || s[k] == y),
{
    let t1 = s.take(k + 1);
    let t0 = s.take(k);
    if t1.contains(y) {
        let j = choose|j: int| 0 <= j < t1.len() && #[trigger] t1[j] == y;
        if j < k {
            assert(t0[j] == y);
        }
    }
    if t0.contains(y) {
        let j = choose|j: int| 0 <= j < t0.len() && #[trigger] t0[j] == y;
        assert(t1[j] == y);
    }
    if s[k] == y {
        assert(t1[k] == y);
    }
}

/// Whether `x` is selected.
fn sel_contains(sel: &Vec<String>, x: &String) -> (r: bool)
    ensures
        r == names_view(sel@).contains(x@),
{
    let mut i: usize = 0;
    while i < sel.len()
        invariant
            i <= sel@.len(),
            forall|k: int| 0 <= k < i ==> (#[trigger] sel@[k])@ != x@,
        decreases sel.len() - i,
    {
        if str_eq(sel[i].as_str(), x.as_str()) {
            assert(names_view(sel@)[i as int] == x@);
            return true;
        }
        i = i + 1;
    }
    proof {
        if names_view(sel@).contains(x@) {
            let k = choose|k: int| 0 <= k < names_view(sel@).len() && names_view(sel@)[k] == x@;
            assert(sel@[k]@ == x@);
        }
    }
    false
}

/// Adds `x` to a selection held without repeats.
fn sel_insert(sel: &mut Vec<String>, x: &String)
    requires
        names_view(old(sel)@).no_duplicates(),
    ensures
        names_view(final(sel)@).no_duplicates(),
        forall|y: Seq<char>| #[trigger] names_view(final(sel)@).contains(y) == (names_view(old(sel)@).contains(y) || y == x@),
{
    if sel_contains(sel, x) {
        return;
    }
    let ghost ov = names_view(sel@);
    sel.push(x.clone());
    proof {
        let nv = names_view(sel@);
        assert(nv =~= ov.push(x@));
        assert forall|y: Seq<char>| #[trigger] nv.contains(y) == (ov.contains(y) || y == x@) by {
            if ov.contains(y) {
                let k = choose|k: int| 0 <= k < ov.len() && ov[k] == y;
                assert(nv[k] == y);
            }
            if y == x@ {
                assert(nv[ov.len() as int] == y);
            }
            if nv.contains(y) {
                let k = choose|k: int| 0 <= k < nv.len() && nv[k] == y;
                if k < ov.len() {
                    assert(ov[k] == y);
                }
            }
        }
    }
}

/// Drops `x` from a selection held without repeats.
fn sel_remove(sel: &mut Vec<String>, x: &String)
    requires
        names_view(old(sel)@).no_duplicates(),
    ensures
        names_view(final(sel)@).no_duplicates(),
        forall|y: Seq<char>| #[trigger] names_view(final(sel)@).contains(y) == (names_view(old(sel)@).contains(y) && y != x@),
{
    let ghost ov = names_view(sel@);
    let mut j: usize = 0;
    while j < sel.len()
        invariant
            j <= sel@.len(),
            ov == names_view(sel@),
            sel@ == old(sel)@,
            ov.no_duplicates(),
            forall|k: int| 0 <= k < j ==> (#[trigger] sel@[k])@ != x@,
        decreases sel.len() - j,
    {
        if str_eq(sel[j].as_str(), x.as_str()) {
            let ghost before = sel@;
            sel.remove(j);
            proof {
                let nv = names_view(sel@);
                before.remove_ensures(j as int);
                assert forall|k: int| 0 <= k < nv.len() implies #[trigger] nv[k] == if k < j { ov[k] } else { ov[k + 1] } by {
                    if k >= j {
                        assert(sel@[k] == before[k + 1]);
                    }
                }
                assert forall|a: int, b: int| 0 <= a < nv.len() && 0 <= b < nv.len() && a != b implies nv[a] != nv[b] by {
                    let a0 = if a < j { a } else { a + 1 };
                    let b0 = if b < j { b } else { b + 1 };
                    assert(nv[a] == ov[a0]);
                    assert(nv[b] == ov[b0]);
                }
                assert(ov[j as int] == x@);
                assert forall|y: Seq<char>| #[trigger] nv.contains(y) == (ov.contains(y) && y != x@) by {
                    if nv.contains(y) {
                        let k = choose|k: int| 0 <= k < nv.len() && nv[k] == y;
                        let k0 = if k < j { k } else { k + 1 };
                        assert(ov[k0] == y);
                        assert(k0 != j);
                    }
                    if ov.contains(y) && y != x@ {
                        let k = choose|k: int| 0 <= k < ov.len() && ov[k] == y;
                        assert(k != j);
                        let k1 = if k < j { k } else { k - 1 };
                        assert(nv[k1] == y);
                    }
                }
            }
            return;
        }
        j = j + 1;
    }
    proof {
        assert forall|y: Seq<char>| #[trigger] ov.contains(y) == (ov.contains(y) && y != x@) by {
            if ov.contains(y) && y == x@ {
                let k = choose|k: int| 0 <= k < ov.len() && ov[k] == y;
                assert(sel@[k]@ == x@);
            }
        }
    }
}

/// The state of the check box of `device` (see `check_state`).
pub fn device_check_state(sel: &Vec<String>, device: &String, points: &Vec<String>) -> (r: CheckState)
    ensures
        r == check_state(names_view(sel@), device@, names_view(points@)),
{
    let ghost pv = names_view(points@);
    let ghost sv = names_view(sel@);
    let device_in = sel_contains(sel, device);
    let mut all = points.len() > 0;
    let mut k: usize = 0;
    while k < points.len()
        invariant
            k <= points@.len(),
            pv == names_view(points@),
            sv == names_view(sel@),
            all == (points@.len() > 0 && forall|j: int| 0 <= j < k ==> sv.contains(#[trigger] pv[j])),
        decreases points.len() - k,
    {
        let present = sel_contains(sel, &points[k]);
        assert(pv[k as int] == points@[k as int]@);
        if !present {
            all = false;
        }
        k = k + 1;
    }
    if device_in && all {
        CheckState::All
    } else if device_in {
        CheckState::Partial
    } else {
        CheckState::Unchecked
    }
}

/// Drops every point from the selection.
fn drop_points(sel: &mut Vec<String>, points: &Vec<String>)
    requires
        names_view(old(sel)@).no_duplicates(),
    ensures
        names_view(final(sel)@).no_duplicates(),
        forall|y: Seq<char>| #[trigger] names_view(final(sel)@).contains(y)
            == (names_view(old(sel)@).contains(y) && !names_view(points@).contains(y)),
{
    let ghost base = names_view(sel@);
    let ghost pv = names_view(points@);
    let mut k: usize = 0;
    proof {
        assert forall|y: Seq<char>| !(#[trigger] pv.take(0).contains(y)) by {}
    }
    while k < points.len()
        invariant
            k <= points@.len(),
            pv == names_view(points@),
            names_view(sel@).no_duplicates(),
            forall|y: Seq<char>| #[trigger] names_view(sel@).contains(y) == (base.contains(y) && !pv.take(k as int).contains(y)),
        decreases points.len() - k,
    {
        sel_remove(sel, &points[k]);
        proof {
            assert forall|y: Seq<char>| #[trigger] names_view(sel@).contains(y) == (base.contains(y) && !pv.take(k + 1).contains(y)) by {
                lemma_take_contains(pv, k as int, y);
            }
        }
        k = k + 1;
    }
    assert(pv.take(points@.len() as int) =~= pv);
}

/// Adds every point to the selection.
fn add_points(sel: &mut Vec<String>, points: &Vec<String>)
    requires
        names_view(old(sel)@).no_duplicates(),
    ensures
        names_view(final(sel)@).no_duplicates(),
        forall|y: Seq<char>| #[trigger] names_view(final(sel)@).contains(y)
            == (names_view(old(sel)@).contains(y) || names_view(points@).contains(y)),
{
    let ghost base = names_view(sel@);
    let ghost pv = names_view(points@);
    let mut k: usize = 0;
    proof {
        assert forall|y: Seq<char>| !(#[trigger] pv.take(0).contains(y)) by {}
    }
    while k < points.len()
        invariant
            k <= points@.len(),
            pv == names_view(points@),
            names_view(sel@).no_duplicates(),
            forall|y: Seq<char>| #[trigger] names_view(sel@).contains(y) == (base.contains(y) || pv.take(k as int).contains(y)),
        decreases points.len() - k,
    {
        sel_insert(sel, &points[k]);
        proof {
            assert forall|y: Seq<char>| #[trigger] names_view(sel@).contains(y) == (base.contains(y) || pv.take(k + 1).contains(y)) by {
                lemma_take_contains(pv, k as int, y);
            }
        }
        k = k + 1;
    }
    assert(pv.take(points@.len() as int) =~= pv);
}

/// A click on the batch check box of `device`: the selection, held without
/// repeats, changes as `selected_after` says for the box's state.
pub fn click_device_check(sel: &mut Vec<String>, device: &String, points: &Vec<String>)
    requires
        names_view(old(sel)@).no_duplicates(),
    ensures
        names_view(final(sel)@).no_duplicates(),
        clicked(names_view(old(sel)@), names_view(final(sel)@), device@, names_view(points@)),
{
    let st = device_check_state(sel, device, points);
    match st {
        CheckState::All => {
            drop_points(sel, points);
            sel_insert(sel, device);
        },
        CheckState::Partial => {
            sel_remove(sel, device);
            drop_points(sel, points);
        },
        CheckState::Unchecked => {
            sel_insert(sel, device);
            add_points(sel, points);
        },
    }
}

/// Three clicks on the batch check box of a piece of equipment with points
/// (none of them sharing its id), starting unchecked, go to all (the
/// equipment and its points selected), then partial (the equipment alone),
/// then unchecked again, with neither the equipment nor any of its points
/// selected and every other id selected exactly as before.
pub proof fn law_check_box_cycle(
    s0: Seq<Seq<char>>,
    s1: Seq<Seq<char>>,
    s2: Seq<Seq<char>>,
    s3: Seq<Seq<char>>,
    device: Seq<char>,
    points: Seq<Seq<char>>,
)
    requires
        points.len() > 0,
        !points.contains(device),
        check_state(s0, device, points) == CheckState::Unchecked,
        clicked(s0, s1, device, points),
        clicked(s1, s2, device, points),
        clicked(s2, s3, device, points),
    ensures
        check_state(s1, device, points) == CheckState::All,
        check_state(s2, device, points) == CheckState::Partial,
        check_state(s3, device, points) == CheckState::Unchecked,
        !s3.contains(device),
        forall|k: int| 0 <= k < points.len() ==> !s3.contains(#[trigger] points[k]),
        forall|x: Seq<char>| x != device && !points.contains(x) ==> #[trigger] s3.contains(x) == s0.contains(x),
{
    assert(s1.contains(device));
    assert forall|k: int| 0 <= k < points.len() implies s1.contains(#[trigger] points[k]) by {
        assert(points.contains(points[k]));
    }
    assert(check_state(s1, device, points) == CheckState::All);
    assert(s2.contains(device));
    assert(points.contains(points[0]));
    assert(!s2.contains(points[0]));
    assert(check_state(s2, device, points) == CheckState::Partial);
    assert(!s3.contains(device));
    assert forall|k: int| 0 <= k < points.len() implies !s3.contains(#[trigger] points[k]) by {
        assert(points.contains(points[k]));
    }
}

} // verus!
