//! The device tree of the sidebar: which accepted devices a search shows,
//! how they fall into groups and the ungrouped rest, the name and point
//! count of a leaf, and folding a group.

use vstd::prelude::*;

use crate::components::alarm_view::{field_matches, text_matches};
use crate::components::coverage_view::names_view;
use crate::text::{chars_of, has_substring, lowercase, str_eq, to_lowercase};

verus! {

/// An accepted device of the tree: its id and display name.
pub struct TreeDevice {
    pub id: String,
    pub name: String,
}

/// A device is shown when the search is empty or its id or display name
/// matches.
pub open spec fn device_shown(d: TreeDevice, query: Seq<char>) -> bool {
    query.len() == 0 || text_matches(d.id@, query) || text_matches(d.name@, query)
}

/// The ids of the devices that a search shows, in order.
pub open spec fn shown_ids(devices: Seq<TreeDevice>, query: Seq<char>) -> Seq<Seq<char>>
    decreases devices.len(),
{
    if devices.len() == 0 {
        seq![]
    } else {
        shown_ids(devices.drop_last(), query) + if device_shown(devices.last(), query) {
            seq![devices.last().id@]
        } else {
            seq![]
        }
    }
}

/// Some device with id `id` matches the search: the search is empty or
/// the device's id or display name contains it (both lowercased).
pub open spec fn matching_device_has_id(devices: Seq<TreeDevice>, query: Seq<char>, id: Seq<char>) -> bool {
    exists|k: int| 0 <= k < devices.len() && #[trigger] devices[k].id@ == id && (query.len() == 0
        || has_substring(lowercase(devices[k].id@), lowercase(query))
        || has_substring(lowercase(devices[k].name@), lowercase(query)))
}

/// A device search lists the id of every device whose id or display name
/// contains the search (both lowercased), in device order, and nothing
/// else: every listed id is that of a device that matches (an empty search
/// lists every device).
pub proof fn law_device_search(devices: Seq<TreeDevice>, query: Seq<char>)
    ensures
        forall|k: int| 0 <= k < devices.len() && (query.len() == 0
            || has_substring(lowercase(devices[k].id@), lowercase(query))
            || has_substring(lowercase(devices[k].name@), lowercase(query)))
            ==> shown_ids(devices, query).contains(#[trigger] devices[k].id@),
        forall|j: int| 0 <= j < shown_ids(devices, query).len()
            ==> #[trigger] matching_device_has_id(devices, query, shown_ids(devices, query)[j]),
        shown_ids(devices, query).len() <= devices.len(),
    decreases devices.len(),
{
    if devices.len() > 0 {
        let init = devices.drop_last();
        law_device_search(init, query);
        let prev = shown_ids(init, query);
        let r = shown_ids(devices, query);
        let last = devices.len() - 1;
        assert(devices.last() == devices[last]);
        assert forall|k: int| 0 <= k < devices.len() && (query.len() == 0
            || has_substring(lowercase(devices[k].id@), lowercase(query))
            || has_substring(lowercase(devices[k].name@), lowercase(query)))
            implies r.contains(#[trigger] devices[k].id@) by {
            if k < last {
                assert(init[k] == devices[k]);
                let m = choose|m: int| 0 <= m < prev.len() && prev[m] == init[k].id@;
                assert(r[m] == prev[m]);
            } else {
                assert(r[r.len() - 1] == devices[k].id@);
            }
        }
        assert forall|j: int| 0 <= j < r.len() implies #[trigger] matching_device_has_id(devices, query, r[j]) by {
            if j < prev.len() {
                assert(r[j] == prev[j]);
                assert(matching_device_has_id(init, query, prev[j]));
                let k = choose|k: int| 0 <= k < init.len() && init[k].id@ == prev[j] && (query.len() == 0
                    || has_substring(lowercase(init[k].id@), lowercase(query))
                    || has_substring(lowercase(init[k].name@), lowercase(query)));
                assert(init[k] == devices[k]);
            } else {
                if !device_shown(devices.last(), query) {
                    assert(r =~= prev);
                }
                assert(device_shown(devices[last], query));
                assert(r[j] == devices[last].id@);
                assert(devices[last].id@ == r[j]);
            }
        }
    } else {
        assert(shown_ids(devices, query).len() == 0);
    }
}

/// The ids of the devices that a search shows (see `shown_ids`).
pub fn visible_devices(devices: &Vec<TreeDevice>, query: &str) -> (r: Vec<String>)
    ensures
        names_view(r@) == shown_ids(devices@, query@),
{
    let ql = to_lowercase(query);
    let q = chars_of(ql.as_str());
    let mut out: Vec<String> = Vec::new();
    let mut i: usize = 0;
    while i < devices.len()
        invariant
            i <= devices@.len(),
            q@ == lowercase(query@),
            names_view(out@) == shown_ids(devices@.take(i as int), query@),
        decreases devices.len() - i,
    {
        proof {
            assert(devices@.take(i + 1).drop_last() =~= devices@.take(i as int));
            assert(devices@.take(i + 1).last() == devices@[i as int]);
        }
        let ghost before = out@;
        let d = &devices[i];
        if query.is_empty() || field_matches(&d.id, &q) || field_matches(&d.name, &q) {
            out.push(d.id.clone());
            assert(names_view(out@) =~= names_view(before) + seq![d.id@]);
        } else {
            assert(names_view(out@) =~= names_view(before) + Seq::<Seq<char>>::empty());
        }
        i = i + 1;
    }
    assert(devices@.take(devices@.len() as int) =~= devices@);
    out
}

/// The ids of `items` that are (`inside`) or are not (`!inside`) among
/// `set`, in order.
pub open spec fn picked(items: Seq<Seq<char>>, set: Seq<Seq<char>>, inside: bool) -> Seq<Seq<char>>
    decreases items.len(),
{
    if items.len() == 0 {
        seq![]
    } else {
        picked(items.drop_last(), set, inside) + if set.contains(items.last()) == inside {
            seq![items.last()]
        } else {
            seq![]
        }
    }
}

/// Whether `x` is among `set`.
fn among(set: &Vec<String>, x: &String) -> (r: bool)
    ensures
        r == names_view(set@).contains(x@),
{
    let mut i: usize = 0;
    while i < set.len()
        invariant
            i <= set@.len(),
            forall|k: int| 0 <= k < i ==> (#[trigger] set@[k])@ != x@,
        decreases set.len() - i,
    {
        if str_eq(set[i].as_str(), x.as_str()) {
            assert(names_view(set@)[i as int] == x@);
            return true;
        }
        i = i + 1;
    }
    proof {
        if names_view(set@).contains(x@) {
            let k = choose|k: int| 0 <= k < names_view(set@).len() && names_view(set@)[k] == x@;
            assert(set@[k]@ == x@);
        }
    }
    false
}

/// The ids of `items` that are, or are not, among `set` (see `picked`).
fn pick(items: &Vec<String>, set: &Vec<String>, inside: bool) -> (r: Vec<String>)
    ensures
        names_view(r@) == picked(names_view(items@), names_view(set@), inside),
{
    let ghost iv = names_view(items@);
    let mut out: Vec<String> = Vec::new();
    let mut i: usize = 0;
    while i < items.len()
        invariant
            i <= items@.len(),
            iv == names_view(items@),
            names_view(out@) == picked(iv.take(i as int), names_view(set@), inside),
        decreases items.len() - i,
    {
        proof {
            assert(iv.take(i + 1).drop_last() =~= iv.take(i as int));
            assert(iv.take(i + 1).last() == iv[i as int]);
        }
        let ghost before = out@;
        if among(set, &items[i]) == inside {
            out.push(items[i].clone());
            assert(names_view(out@) =~= names_view(before) + seq![iv[i as int]]);
        } else {
            assert(names_view(out@) =~= names_view(before) + Seq::<Seq<char>>::empty());
        }
        i = i + 1;
    }
    assert(iv.take(items@.len() as int) =~= iv);
    out
}

/// The members of a group that the search shows.
pub fn members_shown(members: &Vec<String>, visible: &Vec<String>) -> (r: Vec<String>)
    ensures
        names_view(r@) == picked(names_view(members@), names_view(visible@), true),
{
    pick(members, visible, true)
}

/// The shown devices that belong to no group.
pub fn ungrouped_devices(visible: &Vec<String>, grouped: &Vec<String>) -> (r: Vec<String>)
    ensures
        names_view(r@) == picked(names_view(visible@), names_view(grouped@), false),
{
    pick(visible, grouped, false)
}

/// How many of the nodes with parents `parents` are children of `id`.
pub open spec fn children_of(parents: Seq<Option<String>>, id: Seq<char>) -> nat
    decreases parents.len(),
{
    if parents.len() == 0 {
        0
    } else {
        children_of(parents.drop_last(), id) + match parents.last() {
            Some(p) => if p@ == id { 1nat } else { 0nat },
            None => 0nat,
        }
    }
}

/// The point count a device's leaf shows: how many point nodes have it as
/// parent.
pub fn point_count(parents: &Vec<Option<String>>, id: &String) -> (r: usize)
    ensures
        r == children_of(parents@, id@),
{
    let mut n: usize = 0;
    let mut i: usize = 0;
    while i < parents.len()
        invariant
            i <= parents@.len(),
            n == children_of(parents@.take(i as int), id@),
            n <= i,
        decreases parents.len() - i,
    {
        proof {
            assert(parents@.take(i + 1).drop_last() =~= parents@.take(i as int));
            assert(parents@.take(i + 1).last() == parents@[i as int]);
        }
        match &parents[i] {
            Some(p) => {
                if str_eq(p.as_str(), id.as_str()) {
                    n = n + 1;
                }
            },
            None => {},
        }
        i = i + 1;
    }
    assert(parents@.take(parents@.len() as int) =~= parents@);
    n
}

/// The label of a device's leaf: its display name, or its id when the tree
/// has no name for it.
pub fn leaf_label(name: &Option<String>, id: &String) -> (r: String)
    ensures
        r@ == match name {
            Some(n) => n@,
            None => id@,
        },
{
    match name {
        Some(n) => n.clone(),
        None => id.clone(),
    }
}

/// Folds an open group or opens a folded one: `gid` leaves the folded
/// groups where it is one of them (its first occurrence is dropped), and
/// is added at the end otherwise.
pub fn toggle_folded(folded: &mut Vec<String>, gid: &String)
    ensures
        names_view(old(folded)@).contains(gid@) ==> exists|k: int|
            0 <= k < old(folded)@.len() && (#[trigger] old(folded)@[k])@ == gid@
                && (forall|j: int| 0 <= j < k ==> (#[trigger] old(folded)@[j])@ != gid@)
                && final(folded)@ == old(folded)@.remove(k),
        !names_view(old(folded)@).contains(gid@) ==> names_view(final(folded)@) == names_view(old(folded)@).push(gid@),
{
    let mut k: usize = 0;
    while k < folded.len()
        invariant
            k <= folded@.len(),
            folded@ == old(folded)@,
            forall|j: int| 0 <= j < k ==> (#[trigger] folded@[j])@ != gid@,
        decreases folded.len() - k,
    {
        if str_eq(folded[k].as_str(), gid.as_str()) {
            assert(names_view(folded@)[k as int] == gid@);
            folded.remove(k);
            return;
        }
        k = k + 1;
    }
    proof {
        if names_view(folded@).contains(gid@) {
            let j = choose|j: int| 0 <= j < names_view(folded@).len() && names_view(folded@)[j] == gid@;
            assert(folded@[j]@ == gid@);
        }
    }
    let ghost before = folded@;
    folded.push(gid.clone());
    assert(names_view(folded@) =~= names_view(before).push(gid@));
}

/// The class of a device's leaf: selected or not.
pub fn leaf_class(selected: &Option<String>, id: &String) -> (r: &'static str)
    ensures
        r@ == if selected matches Some(s) && s@ == id@ { "tree-node leaf selected"@ } else { "tree-node leaf"@ },
{
    match selected {
        Some(s) => if str_eq(s.as_str(), id.as_str()) { "tree-node leaf selected" } else { "tree-node leaf" },
        None => "tree-node leaf",
    }
}

/// An id is picked exactly when it is among the items and its membership
/// of `set` is `inside`.
pub proof fn lemma_picked_contains(items: Seq<Seq<char>>, set: Seq<Seq<char>>, inside: bool, x: Seq<char>)
    ensures
        picked(items, set, inside).contains(x) == (items.contains(x) && set.contains(x) == inside),
    decreases items.len(),
{
    if items.len() > 0 {
        let pre = items.drop_last();
        lemma_picked_contains(pre, set, inside, x);
        let p = picked(pre, set, inside);
        let tail = if set.contains(items.last()) == inside { seq![items.last()] } else { Seq::<Seq<char>>::empty() };
        let whole = p + tail;
        if whole.contains(x) {
            let k = choose|k: int| 0 <= k < whole.len() && whole[k] == x;
            if k < p.len() {
                assert(p[k] == x);
                let j = choose|j: int| 0 <= j < pre.len() && pre[j] == x;
                assert(items[j] == x);
            } else {
                assert(items[items.len() - 1] == x);
            }
        }
        if items.contains(x) && set.contains(x) == inside {
            let j = choose|j: int| 0 <= j < items.len() && items[j] == x;
            if j < items.len() - 1 {
                assert(pre[j] == x);
                assert(p.contains(x));
                let k = choose|k: int| 0 <= k < p.len() && p[k] == x;
                assert(whole[k] == x);
            } else {
                assert(whole[p.len() as int] == x);
            }
        }
    }
}

/// Every device that a search shows appears in the tree in exactly one of
/// two places: among the shown members of its group, or in the ungrouped
/// list. `grouped` holds the ids that belong to some group.
pub proof fn law_shown_device_placed(
    visible: Seq<Seq<char>>,
    groups: Seq<Seq<Seq<char>>>,
    grouped: Seq<Seq<char>>,
    v: Seq<char>,
)
    requires
        visible.contains(v),
        forall|x: Seq<char>| #[trigger] grouped.contains(x) == exists|g: int| 0 <= g < groups.len() && (#[trigger] groups[g]).contains(x),
    ensures
        picked(visible, grouped, false).contains(v) != exists|g: int|
            0 <= g < groups.len() && #[trigger] picked(groups[g], visible, true).contains(v),
{
    lemma_picked_contains(visible, grouped, false, v);
    if grouped.contains(v) {
        let g = choose|g: int| 0 <= g < groups.len() && (#[trigger] groups[g]).contains(v);
        lemma_picked_contains(groups[g], visible, true, v);
    } else {
        assert forall|g: int| 0 <= g < groups.len() implies !(#[trigger] picked(groups[g], visible, true).contains(v)) by {
            lemma_picked_contains(groups[g], visible, true, v);
        }
    }
}

} // verus!
