//! The equipment refs editor of the configuration view: which refs it
//! lists, which equipment a ref may point at, how incoming refs are
//! grouped, and what setting a ref, one or in bulk, writes.

use vstd::prelude::*;

use crate::components::alarm_view::pairs_view;
use crate::components::coverage_view::names_view;
use crate::components::equipment_browser::lemma_take_contains;
use crate::text::{chars_of, contains_chars, has_substring, lowercase, str_eq, to_lowercase, trim, trimmed};

verus! {

/// The ref tags that place a node in space; the nav tree manages them.
pub open spec fn spatial_ref_tag(t: Seq<char>) -> bool {
    t == "siteRef"@ || t == "buildingRef"@ || t == "floorRef"@ || t == "spaceRef"@
}

/// The ref tags between pieces of equipment.
pub fn equip_ref_tags() -> (r: Vec<&'static str>)
    ensures
        r@.len() == 11,
        r@[0]@ == "equipRef"@,
        r@[1]@ == "ahuRef"@,
        r@[2]@ == "vavRef"@,
        r@[3]@ == "systemRef"@,
        r@[4]@ == "elecMeterRef"@,
        r@[5]@ == "hotWaterPlantRef"@,
        r@[6]@ == "chilledWaterPlantRef"@,
        r@[7]@ == "steamPlantRef"@,
        r@[8]@ == "meterRef"@,
        r@[9]@ == "panelRef"@,
        r@[10]@ == "networkRef"@,
{
    vec![
        "equipRef",
        "ahuRef",
        "vavRef",
        "systemRef",
        "elecMeterRef",
        "hotWaterPlantRef",
        "chilledWaterPlantRef",
        "steamPlantRef",
        "meterRef",
        "panelRef",
        "networkRef",
    ]
}

/// Whether a ref tag places a node in space (see `spatial_ref_tag`).
fn is_spatial(t: &str) -> (r: bool)
    ensures
        r == spatial_ref_tag(t@),
{
    str_eq(t, "siteRef") || str_eq(t, "buildingRef") || str_eq(t, "floorRef") || str_eq(t, "spaceRef")
}

/// The pairs that pass `keep`, in order.
pub open spec fn pairs_kept(ps: Seq<(Seq<char>, Seq<char>)>, keep: spec_fn((Seq<char>, Seq<char>)) -> bool) -> Seq<(Seq<char>, Seq<char>)>
    decreases ps.len(),
{
    if ps.len() == 0 {
        seq![]
    } else {
        pairs_kept(ps.drop_last(), keep) + if keep(ps.last()) { seq![ps.last()] } else { seq![] }
    }
}

/// The node's own refs that the editor lists, as `(tag, target)`: all but
/// the spatial ones.
pub fn outgoing_refs(refs: &Vec<(String, String)>) -> (r: Vec<(String, String)>)
    ensures
        pairs_view(r@) == pairs_kept(pairs_view(refs@), |p: (Seq<char>, Seq<char>)| !spatial_ref_tag(p.0)),
{
    let ghost all = pairs_view(refs@);
    let ghost keep = |p: (Seq<char>, Seq<char>)| !spatial_ref_tag(p.0);
    let mut out: Vec<(String, String)> = Vec::new();
    let mut i: usize = 0;
    while i < refs.len()
        invariant
            i <= refs@.len(),
            all == pairs_view(refs@),
            keep == (|p: (Seq<char>, Seq<char>)| !spatial_ref_tag(p.0)),
            pairs_view(out@) == pairs_kept(all.take(i as int), keep),
        decreases refs.len() - i,
    {
        proof {
            assert(all.take(i + 1).drop_last() =~= all.take(i as int));
            assert(all.take(i + 1).last() == all[i as int]);
        }
        let ghost before = out@;
        if !is_spatial(refs[i].0.as_str()) {
            out.push((refs[i].0.clone(), refs[i].1.clone()));
            assert(pairs_view(out@) =~= pairs_view(before) + seq![all[i as int]]);
        } else {
            assert(pairs_view(out@) =~= pairs_view(before) + Seq::<(Seq<char>, Seq<char>)>::empty());
        }
        i = i + 1;
    }
    assert(all.take(refs@.len() as int) =~= all);
    out
}

/// The label of a node: its display name, or its id when it has none.
pub open spec fn node_label(id: Seq<char>, dis: Seq<char>) -> Seq<char> {
    if dis.len() == 0 { id } else { dis }
}

/// The equipment a ref may point at, as `(id, label)`: every piece but the
/// node itself, in order.
pub open spec fn targets(equips: Seq<(Seq<char>, Seq<char>)>, self_id: Seq<char>) -> Seq<(Seq<char>, Seq<char>)>
    decreases equips.len(),
{
    if equips.len() == 0 {
        seq![]
    } else {
        targets(equips.drop_last(), self_id) + if equips.last().0 != self_id {
            seq![(equips.last().0, node_label(equips.last().0, equips.last().1))]
        } else {
            seq![]
        }
    }
}

/// The label of a node (see `node_label`).
fn label_of(id: &String, dis: &String) -> (r: String)
    ensures
        r@ == node_label(id@, dis@),
{
    if dis.unicode_len() == 0 { id.clone() } else { dis.clone() }
}

/// The equipment a ref may point at (see `targets`), from the equipment
/// nodes as `(id, display name)`.
pub fn ref_targets(equips: &Vec<(String, String)>, self_id: &String) -> (r: Vec<(String, String)>)
    ensures
        pairs_view(r@) == targets(pairs_view(equips@), self_id@),
{
    let ghost all = pairs_view(equips@);
    let mut out: Vec<(String, String)> = Vec::new();
    let mut i: usize = 0;
    while i < equips.len()
        invariant
            i <= equips@.len(),
            all == pairs_view(equips@),
            pairs_view(out@) == targets(all.take(i as int), self_id@),
        decreases equips.len() - i,
    {
        proof {
            assert(all.take(i + 1).drop_last() =~= all.take(i as int));
            assert(all.take(i + 1).last() == all[i as int]);
        }
        let ghost before = out@;
        if !str_eq(equips[i].0.as_str(), self_id.as_str()) {
            let label = label_of(&equips[i].0, &equips[i].1);
            out.push((equips[i].0.clone(), label));
            assert(pairs_view(out@) =~= pairs_view(before) + seq![(all[i as int].0, node_label(all[i as int].0, all[i as int].1))]);
        } else {
            assert(pairs_view(out@) =~= pairs_view(before) + Seq::<(Seq<char>, Seq<char>)>::empty());
        }
        i = i + 1;
    }
    assert(all.take(equips@.len() as int) =~= all);
    out
}

/// The label of the first target with id `id`, or `id` itself when no
/// target has it.
pub open spec fn target_name(ts: Seq<(Seq<char>, Seq<char>)>, id: Seq<char>) -> Seq<char>
    decreases ts.len(),
{
    if ts.len() == 0 {
        id
    } else if ts[0].0 == id {
        ts[0].1
    } else {
        target_name(ts.drop_first(), id)
    }
}

/// The name an outgoing ref's target is shown by (see `target_name`).
pub fn target_label(ts: &Vec<(String, String)>, id: &String) -> (r: String)
    ensures
        r@ == target_name(pairs_view(ts@), id@),
{
    let ghost all = pairs_view(ts@);
    let mut i: usize = 0;
    assert(all.skip(0) =~= all);
    while i < ts.len()
        invariant
            i <= ts@.len(),
            all == pairs_view(ts@),
            target_name(all, id@) == target_name(all.skip(i as int), id@),
        decreases ts.len() - i,
    {
        assert(all.skip(i as int).drop_first() =~= all.skip(i + 1));
        if str_eq(ts[i].0.as_str(), id.as_str()) {
            return ts[i].1.clone();
        }
        i = i + 1;
    }
    assert(all.skip(i as int).len() == 0);
    id.clone()
}

/// An entry of the equipment list is offered when the lowercased filter is
/// empty or its label, lowercased, contains it.
pub open spec fn offered(label: Seq<char>, filter: Seq<char>) -> bool {
    lowercase(filter).len() == 0 || has_substring(lowercase(label), lowercase(filter))
}

/// The equipment the ref forms offer for a filter text.
pub fn filter_targets(ts: &Vec<(String, String)>, filter: &str) -> (r: Vec<(String, String)>)
    ensures
        pairs_view(r@) == pairs_kept(pairs_view(ts@), |p: (Seq<char>, Seq<char>)| offered(p.1, filter@)),
{
    let fl = to_lowercase(filter);
    let f = chars_of(fl.as_str());
    let ghost all = pairs_view(ts@);
    let ghost keep = |p: (Seq<char>, Seq<char>)| offered(p.1, filter@);
    let mut out: Vec<(String, String)> = Vec::new();
    let mut i: usize = 0;
    while i < ts.len()
        invariant
            i <= ts@.len(),
            f@ == lowercase(filter@),
            all == pairs_view(ts@),
            keep == (|p: (Seq<char>, Seq<char>)| offered(p.1, filter@)),
            pairs_view(out@) == pairs_kept(all.take(i as int), keep),
        decreases ts.len() - i,
    {
        proof {
            assert(all.take(i + 1).drop_last() =~= all.take(i as int));
            assert(all.take(i + 1).last() == all[i as int]);
        }
        let ghost before = out@;
        let keep_it = if f.len() == 0 {
            true
        } else {
            let ll = to_lowercase(ts[i].1.as_str());
            let lc = chars_of(ll.as_str());
            contains_chars(&lc, &f)
        };
        if keep_it {
            out.push((ts[i].0.clone(), ts[i].1.clone()));
            assert(pairs_view(out@) =~= pairs_view(before) + seq![all[i as int]]);
        } else {
            assert(pairs_view(out@) =~= pairs_view(before) + Seq::<(Seq<char>, Seq<char>)>::empty());
        }
        i = i + 1;
    }
    assert(all.take(ts@.len() as int) =~= all);
    out
}

/// A ref to write: `subject` gets tag `tag` pointing at `target`.
pub struct RefWrite {
    pub subject: String,
    pub tag: String,
    pub target: String,
}

/// What setting a ref writes: an outgoing ref from this node to the chosen
/// equipment, or an incoming one from the chosen equipment to this node.
pub fn ref_write(outgoing: bool, node_id: &String, tag: &String, chosen: &String) -> (r: RefWrite)
    ensures
        r.tag@ == tag@,
        outgoing ==> r.subject@ == node_id@ && r.target@ == chosen@,
        !outgoing ==> r.subject@ == chosen@ && r.target@ == node_id@,
{
    if outgoing {
        RefWrite { subject: node_id.clone(), tag: tag.clone(), target: chosen.clone() }
    } else {
        RefWrite { subject: chosen.clone(), tag: tag.clone(), target: node_id.clone() }
    }
}

/// What the property panel's "Set" writes: the ref from the entity to the
/// typed target id, trimmed; nothing while the trimmed id is empty.
pub fn entity_ref_write(entity_id: &String, tag: &String, typed: &str) -> (r: Option<RefWrite>)
    ensures
        match r {
            Some(w) => trimmed(typed@).len() > 0 && w.subject@ == entity_id@ && w.tag@ == tag@ && w.target@
                == trimmed(typed@),
            None => trimmed(typed@).len() == 0,
        },
{
    let t = trim(typed);
    if t.unicode_len() == 0 {
        None
    } else {
        Some(RefWrite { subject: entity_id.clone(), tag: tag.clone(), target: t })
    }
}

// ----------------------------------------------------------------
// Incoming refs
// ----------------------------------------------------------------

/// A ref from another node to this one: its tag and the referring node.
pub struct IncomingRef {
    pub tag: String,
    pub id: String,
    pub dis: String,
}

/// The tags of the incoming refs, each once, in order of first appearance.
pub open spec fn first_tags(inc: Seq<IncomingRef>) -> Seq<Seq<char>>
    decreases inc.len(),
{
    if inc.len() == 0 {
        seq![]
    } else {
        let p = first_tags(inc.drop_last());
        if p.contains(inc.last().tag@) { p } else { p.push(inc.last().tag@) }
    }
}

/// The labels of the nodes that refer to this one with tag `t`, in order.
pub open spec fn names_with_tag(inc: Seq<IncomingRef>, t: Seq<char>) -> Seq<Seq<char>>
    decreases inc.len(),
{
    if inc.len() == 0 {
        seq![]
    } else {
        names_with_tag(inc.drop_last(), t) + if inc.last().tag@ == t {
            seq![node_label(inc.last().id@, inc.last().dis@)]
        } else {
            seq![]
        }
    }
}

/// The tags listed are distinct, and are exactly the tags of the incoming
/// refs.
pub proof fn lemma_first_tags(inc: Seq<IncomingRef>)
    ensures
        first_tags(inc).no_duplicates(),
        forall|t: Seq<char>| #[trigger] first_tags(inc).contains(t) == exists|i: int| 0 <= i < inc.len() && (#[trigger] inc[i]).tag@ == t,
    decreases inc.len(),
{
    if inc.len() > 0 {
        let pre = inc.drop_last();
        lemma_first_tags(pre);
        let p = first_tags(pre);
        let last = inc.last().tag@;
        assert forall|t: Seq<char>| #[trigger] first_tags(inc).contains(t) == exists|i: int| 0 <= i < inc.len() && (#[trigger] inc[i]).tag@ == t by {
            let in_pre = exists|i: int| 0 <= i < pre.len() && (#[trigger] pre[i]).tag@ == t;
            let in_inc = exists|i: int| 0 <= i < inc.len() && (#[trigger] inc[i]).tag@ == t;
            if in_pre {
                let i = choose|i: int| 0 <= i < pre.len() && (#[trigger] pre[i]).tag@ == t;
                assert(inc[i] == pre[i]);
            }
            if in_inc {
                let i = choose|i: int| 0 <= i < inc.len() && (#[trigger] inc[i]).tag@ == t;
                if i < inc.len() - 1 {
                    assert(pre[i] == inc[i]);
                }
            }
            assert(inc[inc.len() - 1].tag@ == last);
            assert(in_inc == (in_pre || t == last));
            assert(p.contains(t) == in_pre);
            if !p.contains(last) {
                let q = p.push(last);
                assert(q[p.len() as int] == last);
                if q.contains(t) {
                    let k = choose|k: int| 0 <= k < q.len() && q[k] == t;
                    if k < p.len() {
                        assert(p[k] == t);
                    }
                }
                if p.contains(t) {
                    let k = choose|k: int| 0 <= k < p.len() && p[k] == t;
                    assert(q[k] == t);
                }
                assert(q.contains(t) == (p.contains(t) || t == last));
            }
        }
    }
}

/// A group of incoming refs: the tag and the labels of the referring
/// nodes.
pub struct RefGroup {
    pub tag: String,
    pub names: Vec<String>,
}

/// Whether `t` is among the tags.
fn tag_listed(tags: &Vec<String>, t: &String) -> (r: bool)
    ensures
        r == names_view(tags@).contains(t@),
{
    let ghost tv = names_view(tags@);
    let mut i: usize = 0;
    while i < tags.len()
        invariant
            i <= tags@.len(),
            tv == names_view(tags@),
            forall|k: int| 0 <= k < i ==> (#[trigger] tags@[k])@ != t@,
        decreases tags.len() - i,
    {
        if str_eq(tags[i].as_str(), t.as_str()) {
            assert(tv[i as int] == t@);
            return true;
        }
        i = i + 1;
    }
    proof {
        if tv.contains(t@) {
            let k = choose|k: int| 0 <= k < tv.len() && tv[k] == t@;
            assert(tags@[k]@ == t@);
        }
    }
    false
}

/// The labels of the nodes referring with tag `t` (see `names_with_tag`).
fn names_for(inc: &Vec<IncomingRef>, t: &String) -> (r: Vec<String>)
    ensures
        names_view(r@) == names_with_tag(inc@, t@),
{
    let mut out: Vec<String> = Vec::new();
    let mut i: usize = 0;
    while i < inc.len()
        invariant
            i <= inc@.len(),
            names_view(out@) == names_with_tag(inc@.take(i as int), t@),
        decreases inc.len() - i,
    {
        proof {
            assert(inc@.take(i + 1).drop_last() =~= inc@.take(i as int));
            assert(inc@.take(i + 1).last() == inc@[i as int]);
        }
        let ghost before = out@;
        if str_eq(inc[i].tag.as_str(), t.as_str()) {
            out.push(label_of(&inc[i].id, &inc[i].dis));
            assert(names_view(out@) =~= names_view(before)
                + seq![node_label(inc@[i as int].id@, inc@[i as int].dis@)]);
        } else {
            assert(names_view(out@) =~= names_view(before)
                + Seq::<Seq<char>>::empty());
        }
        i = i + 1;
    }
    assert(inc@.take(inc@.len() as int) =~= inc@);
    out
}

/// The "Referenced By" list: a group per tag of the incoming refs, in order
/// of first appearance, each with the labels of the nodes referring with
/// that tag.
pub fn group_incoming(inc: &Vec<IncomingRef>) -> (r: Vec<RefGroup>)
    ensures
        r@.len() == first_tags(inc@).len(),
        forall|k: int| 0 <= k < r@.len() ==> (#[trigger] r@[k]).tag@ == first_tags(inc@)[k]
            && names_view(r@[k].names@) == names_with_tag(inc@, first_tags(inc@)[k]),
{
    let mut tags: Vec<String> = Vec::new();
    let mut i: usize = 0;
    while i < inc.len()
        invariant
            i <= inc@.len(),
            names_view(tags@) == first_tags(inc@.take(i as int)),
        decreases inc.len() - i,
    {
        proof {
            assert(inc@.take(i + 1).drop_last() =~= inc@.take(i as int));
            assert(inc@.take(i + 1).last() == inc@[i as int]);
        }
        let ghost before = tags@;
        if !tag_listed(&tags, &inc[i].tag) {
            tags.push(inc[i].tag.clone());
            assert(names_view(tags@) =~= names_view(before).push(
                inc@[i as int].tag@,
            ));
        }
        i = i + 1;
    }
    assert(inc@.take(inc@.len() as int) =~= inc@);
    let ghost ft = first_tags(inc@);
    let mut out: Vec<RefGroup> = Vec::new();
    let mut k: usize = 0;
    while k < tags.len()
        invariant
            k <= tags@.len(),
            names_view(tags@) == ft,
            ft == first_tags(inc@),
            out@.len() == k,
            forall|j: int| 0 <= j < k ==> (#[trigger] out@[j]).tag@ == ft[j]
                && names_view(out@[j].names@) == names_with_tag(inc@, ft[j]),
        decreases tags.len() - k,
    {
        let names = names_for(inc, &tags[k]);
        assert(ft[k as int] == tags@[k as int]@);
        out.push(RefGroup { tag: tags[k].clone(), names });
        k = k + 1;
    }
    out
}

// ----------------------------------------------------------------
// Bulk assignment
// ----------------------------------------------------------------

/// Whether `id` is ticked in the bulk form's check marks, held as
/// `(id, ticked)` with each id once.
pub open spec fn ticked(marks: Seq<(String, bool)>, id: Seq<char>) -> bool {
    exists|k: int| 0 <= k < marks.len() && (#[trigger] marks[k]).0@ == id && marks[k].1
}

/// Each id has at most one check mark.
pub open spec fn marks_unique(marks: Seq<(String, bool)>) -> bool {
    forall|a: int, b: int| 0 <= a < b < marks.len() ==> (#[trigger] marks[a]).0@ != (#[trigger] marks[b]).0@
}

/// Sets the check mark of `id` to `v`, leaving every other mark as it was.
pub fn set_mark(marks: &mut Vec<(String, bool)>, id: &String, v: bool)
    requires
        marks_unique(old(marks)@),
    ensures
        marks_unique(final(marks)@),
        forall|x: Seq<char>| #[trigger] ticked(final(marks)@, x) == if x == id@ { v } else { ticked(old(marks)@, x) },
{
    let mut j: usize = 0;
    while j < marks.len()
        invariant
            j <= marks@.len(),
            marks@ == old(marks)@,
            marks_unique(marks@),
            forall|k: int| 0 <= k < j ==> (#[trigger] marks@[k]).0@ != id@,
        decreases marks.len() - j,
    {
        if str_eq(marks[j].0.as_str(), id.as_str()) {
            let ghost before = marks@;
            marks.set(j, (id.clone(), v));
            proof {
                let m = marks@;
                assert forall|a: int, b: int| 0 <= a < b < m.len() implies (#[trigger] m[a]).0@ != (#[trigger] m[b]).0@ by {
                    assert(before[a].0@ != before[b].0@);
                }
                assert forall|x: Seq<char>| #[trigger] ticked(m, x) == if x == id@ { v } else { ticked(before, x) } by {
                    if x == id@ {
                        if v {
                            assert(m[j as int].0@ == x);
                        }
                        if ticked(m, x) {
                            let k = choose|k: int| 0 <= k < m.len() && (#[trigger] m[k]).0@ == x && m[k].1;
                            if k != j {
                                assert(before[k].0@ == before[j as int].0@);
                                assert(false);
                            }
                        }
                    } else {
                        if ticked(m, x) {
                            let k = choose|k: int| 0 <= k < m.len() && (#[trigger] m[k]).0@ == x && m[k].1;
                            assert(before[k] == m[k]);
                        }
                        if ticked(before, x) {
                            let k = choose|k: int| 0 <= k < before.len() && (#[trigger] before[k]).0@ == x && before[k].1;
                            assert(before[k] == m[k]);
                        }
                    }
                }
            }
            return;
        }
        j = j + 1;
    }
    let ghost before = marks@;
    marks.push((id.clone(), v));
    proof {
        let m = marks@;
        assert forall|a: int, b: int| 0 <= a < b < m.len() implies (#[trigger] m[a]).0@ != (#[trigger] m[b]).0@ by {
            if b < before.len() {
                assert(m[a] == before[a]);
                assert(m[b] == before[b]);
            } else {
                assert(m[a] == before[a]);
            }
        }
        assert forall|x: Seq<char>| #[trigger] ticked(m, x) == if x == id@ { v } else { ticked(before, x) } by {
            if ticked(m, x) {
                let k = choose|k: int| 0 <= k < m.len() && (#[trigger] m[k]).0@ == x && m[k].1;
                if k < before.len() {
                    assert(m[k] == before[k]);
                }
            }
            if x == id@ && v {
                assert(m[before.len() as int].0@ == x);
            }
            if x != id@ && ticked(before, x) {
                let k = choose|k: int| 0 <= k < before.len() && (#[trigger] before[k]).0@ == x && before[k].1;
                assert(m[k] == before[k]);
            }
        }
    }
}

/// "Select All": sets the check mark of every id shown to `v`.
pub fn set_marks(marks: &mut Vec<(String, bool)>, ids: &Vec<String>, v: bool)
    requires
        marks_unique(old(marks)@),
    ensures
        marks_unique(final(marks)@),
        forall|x: Seq<char>| #[trigger] ticked(final(marks)@, x) == if names_view(ids@).contains(x) {
            v
        } else {
            ticked(old(marks)@, x)
        },
{
    let ghost base = marks@;
    let ghost iv = names_view(ids@);
    let mut k: usize = 0;
    while k < ids.len()
        invariant
            k <= ids@.len(),
            iv == names_view(ids@),
            marks_unique(marks@),
            forall|x: Seq<char>| #[trigger] ticked(marks@, x) == if iv.take(k as int).contains(x) { v } else { ticked(base, x) },
        decreases ids.len() - k,
    {
        set_mark(marks, &ids[k], v);
        proof {
            assert forall|x: Seq<char>| #[trigger] ticked(marks@, x) == if iv.take(k + 1).contains(x) { v } else { ticked(base, x) } by {
                lemma_take_contains(iv, k as int, x);
            }
        }
        k = k + 1;
    }
    assert(iv.take(ids@.len() as int) =~= iv);
}

/// The ids ticked, in the order of their marks.
pub open spec fn ticked_ids(marks: Seq<(String, bool)>) -> Seq<Seq<char>>
    decreases marks.len(),
{
    if marks.len() == 0 {
        seq![]
    } else {
        ticked_ids(marks.drop_last()) + if marks.last().1 { seq![marks.last().0@] } else { seq![] }
    }
}

/// What "Assign Selected" writes: for each ticked id, a ref with the
/// chosen tag pointing at this node.
pub fn bulk_writes(marks: &Vec<(String, bool)>, tag: &String, node_id: &String) -> (r: Vec<RefWrite>)
    ensures
        r@.map_values(|w: RefWrite| w.subject@) == ticked_ids(marks@),
        forall|k: int| 0 <= k < r@.len() ==> (#[trigger] r@[k]).tag@ == tag@ && r@[k].target@ == node_id@,
{
    let mut out: Vec<RefWrite> = Vec::new();
    let mut i: usize = 0;
    while i < marks.len()
        invariant
            i <= marks@.len(),
            out@.map_values(|w: RefWrite| w.subject@) == ticked_ids(marks@.take(i as int)),
            forall|k: int| 0 <= k < out@.len() ==> (#[trigger] out@[k]).tag@ == tag@ && out@[k].target@ == node_id@,
        decreases marks.len() - i,
    {
        proof {
            assert(marks@.take(i + 1).drop_last() =~= marks@.take(i as int));
            assert(marks@.take(i + 1).last() == marks@[i as int]);
        }
        let ghost before = out@;
        if marks[i].1 {
            let w = RefWrite { subject: marks[i].0.clone(), tag: tag.clone(), target: node_id.clone() };
            out.push(w);
            assert(out@.map_values(|w: RefWrite| w.subject@) =~= before.map_values(|w: RefWrite| w.subject@)
                + seq![marks@[i as int].0@]);
        } else {
            assert(out@.map_values(|w: RefWrite| w.subject@) =~= before.map_values(|w: RefWrite| w.subject@)
                + Seq::<Seq<char>>::empty());
        }
        i = i + 1;
    }
    assert(marks@.take(marks@.len() as int) =~= marks@);
    out
}

/// How many ids are ticked: the count on the assign button.
pub fn ticked_count(marks: &Vec<(String, bool)>) -> (r: usize)
    ensures
        r == ticked_ids(marks@).len(),
{
    let mut n: usize = 0;
    let mut i: usize = 0;
    while i < marks.len()
        invariant
            i <= marks@.len(),
            n == ticked_ids(marks@.take(i as int)).len(),
            n <= i,
        decreases marks.len() - i,
    {
        proof {
            assert(marks@.take(i + 1).drop_last() =~= marks@.take(i as int));
            assert(marks@.take(i + 1).last() == marks@[i as int]);
        }
        if marks[i].1 {
            n = n + 1;
        }
        i = i + 1;
    }
    assert(marks@.take(marks@.len() as int) =~= marks@);
    n
}

} // verus!
