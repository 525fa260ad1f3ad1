//! The device detail pane of the discovery view: whether a device's
//! management tabs apply, the device properties it lists, how a point edit
//! is saved, and the point table's selection and labels.

use vstd::prelude::*;

use crate::components::alarm_view::PointKind;
use crate::json::{get_view, json_get, json_str, json_u64, json_view, str_of, u64_of, JsonValue, JsonView};
use crate::components::coverage_view::names_view;
use crate::numparse::{parse_u32, parse_u32_spec};
use crate::text::{chars_of, dec_digits, opt_text, push_dec, push_str, starts_with, str_eq};

verus! {

/// Where a discovered device stands.
#[derive(Debug, Clone, Copy, PartialEq, Eq, Structural)]
pub enum DeviceState {
    Discovered,
    Accepted,
    Ignored,
}

/// Whether a device has been accepted and its id begins with `prefix`
/// (`bacnet-` or `modbus-`): only then do the protocol's management tabs
/// apply.
pub fn accepted_with_prefix(state: DeviceState, id: &str, prefix: &str) -> (r: bool)
    ensures
        r == (state == DeviceState::Accepted && prefix@.is_prefix_of(id@)),
{
    state == DeviceState::Accepted && starts_with(id, prefix)
}

// ----------------------------------------------------------------
// Device properties
// ----------------------------------------------------------------

/// The value shown for a device property: text, or a segmentation code
/// that the pane names.
#[derive(Debug, PartialEq)]
pub enum PropertyValue {
    Text(String),
    Segmentation(u64),
}

/// A row of the device properties table.
#[derive(Debug, PartialEq)]
pub struct DeviceProperty {
    pub label: String,
    pub value: PropertyValue,
}

/// A property value as plain values.
pub enum PropertyView {
    Text(Seq<char>),
    Segmentation(u64),
}

/// A property row as plain values.
pub open spec fn property_view(p: DeviceProperty) -> (Seq<char>, PropertyView) {
    (p.label@, match p.value {
        PropertyValue::Text(t) => PropertyView::Text(t@),
        PropertyValue::Segmentation(c) => PropertyView::Segmentation(c),
    })
}

/// A row for a text property that is present.
pub open spec fn text_row(label: Seq<char>, v: Option<Seq<char>>) -> Seq<(Seq<char>, PropertyView)> {
    match v {
        Some(t) => seq![(label, PropertyView::Text(t))],
        None => seq![],
    }
}

/// A row for a number property that is present, in decimal.
pub open spec fn number_row(label: Seq<char>, v: Option<u64>) -> Seq<(Seq<char>, PropertyView)> {
    match v {
        Some(n) => seq![(label, PropertyView::Text(dec_digits(n as nat)))],
        None => seq![],
    }
}

/// The device properties table of a BACnet device: its network when it has
/// one, then location, description, maximum APDU, segmentation, protocol
/// version and software version, each where the device's metadata holds
/// it. Other protocols list none.
pub open spec fn property_rows(protocol: Seq<char>, meta: JsonView, network: Seq<char>) -> Seq<(Seq<char>, PropertyView)> {
    if protocol != "bacnet"@ {
        seq![]
    } else {
        (if network.len() > 0 { seq![("Network"@, PropertyView::Text(network))] } else { seq![] })
            + text_row("Location"@, str_of(get_view(meta, "location"@)))
            + text_row("Description"@, str_of(get_view(meta, "description"@)))
            + number_row("Max APDU"@, u64_of(get_view(meta, "max_apdu"@)))
            + match u64_of(get_view(meta, "segmentation"@)) {
            Some(c) => seq![("Segmentation"@, PropertyView::Segmentation(c))],
            None => seq![],
        }
            + number_row("Protocol Version"@, u64_of(get_view(meta, "protocol_version"@)))
            + text_row("Software Version"@, str_of(get_view(meta, "app_software_version"@)))
    }
}

/// The rows of `out` as plain values.
pub open spec fn properties_view(out: Seq<DeviceProperty>) -> Seq<(Seq<char>, PropertyView)> {
    out.map_values(|p: DeviceProperty| property_view(p))
}

/// Appends a row for the text under `key`, if the metadata holds one.
fn push_text_row(out: &mut Vec<DeviceProperty>, label: &str, meta: &JsonValue, key: &str)
    ensures
        properties_view(final(out)@) == properties_view(old(out)@) + text_row(
            label@,
            str_of(get_view(json_view(*meta), key@)),
        ),
{
    let k = String::from_str(key);
    let found = json_get(meta, &k);
    let v = json_str(found);
    let ghost before = out@;
    match v {
        Some(t) => {
            out.push(DeviceProperty { label: String::from_str(label), value: PropertyValue::Text(t) });
        },
        None => {},
    }
    assert(properties_view(out@) =~= properties_view(before) + text_row(label@, str_of(get_view(json_view(*meta), key@))));
}

/// The number under `key`, if the metadata holds one.
fn number_under(meta: &JsonValue, key: &str) -> (r: Option<u64>)
    ensures
        r == u64_of(get_view(json_view(*meta), key@)),
{
    let k = String::from_str(key);
    json_u64(json_get(meta, &k))
}

/// Appends a row for the number under `key`, if the metadata holds one.
fn push_number_row(out: &mut Vec<DeviceProperty>, label: &str, meta: &JsonValue, key: &str)
    ensures
        properties_view(final(out)@) == properties_view(old(out)@) + number_row(
            label@,
            u64_of(get_view(json_view(*meta), key@)),
        ),
{
    let v = number_under(meta, key);
    let ghost before = out@;
    match v {
        Some(n) => {
            let mut t = String::new();
            push_dec(&mut t, n);
            assert(t@ =~= dec_digits(n as nat));
            out.push(DeviceProperty { label: String::from_str(label), value: PropertyValue::Text(t) });
        },
        None => {},
    }
    assert(properties_view(out@) =~= properties_view(before) + number_row(label@, u64_of(get_view(json_view(*meta), key@))));
}

/// The device properties table (see `property_rows`).
pub fn device_properties(protocol: &str, meta: &JsonValue, network: &str) -> (r: Vec<DeviceProperty>)
    ensures
        properties_view(r@) == property_rows(protocol@, json_view(*meta), network@),
{
    let mut out: Vec<DeviceProperty> = Vec::new();
    if !str_eq(protocol, "bacnet") {
        assert(properties_view(out@) =~= Seq::<(Seq<char>, PropertyView)>::empty());
        return out;
    }
    if network.unicode_len() > 0 {
        out.push(DeviceProperty { label: String::from_str("Network"), value: PropertyValue::Text(String::from_str(network)) });
    }
    assert(properties_view(out@) =~= (if network@.len() > 0 {
        seq![("Network"@, PropertyView::Text(network@))]
    } else {
        seq![]
    }));
    push_text_row(&mut out, "Location", meta, "location");
    push_text_row(&mut out, "Description", meta, "description");
    push_number_row(&mut out, "Max APDU", meta, "max_apdu");
    let seg = number_under(meta, "segmentation");
    let ghost before = out@;
    match seg {
        Some(c) => {
            out.push(DeviceProperty { label: String::from_str("Segmentation"), value: PropertyValue::Segmentation(c) });
        },
        None => {},
    }
    assert(properties_view(out@) =~= properties_view(before) + match seg {
        Some(c) => seq![("Segmentation"@, PropertyView::Segmentation(c))],
        None => seq![],
    });
    push_number_row(&mut out, "Protocol Version", meta, "protocol_version");
    push_text_row(&mut out, "Software Version", meta, "app_software_version");
    out
}

// ----------------------------------------------------------------
// Saving a point edit
// ----------------------------------------------------------------

/// What saving a point edit sends: each text field that was filled in, and
/// for a binary or multistate point its state labels. For such a point the
/// labels are the filled-in ones, or an explicit "no labels" when none is
/// filled in; other points leave their labels alone.
pub struct PointUpdate {
    pub name: Option<String>,
    pub units: Option<String>,
    pub description: Option<String>,
    pub state_labels: Option<Option<Vec<(String, String)>>>,
}

/// A text field as sent: absent when left empty.
pub open spec fn filled(s: Seq<char>) -> Option<Seq<char>> {
    if s.len() == 0 { None } else { Some(s) }
}

/// State labels as plain text pairs.
pub open spec fn labels_view(l: Seq<(String, String)>) -> Seq<(Seq<char>, Seq<char>)> {
    l.map_values(|p: (String, String)| (p.0@, p.1@))
}

/// The labels whose text is filled in, in order.
pub open spec fn filled_labels(l: Seq<(Seq<char>, Seq<char>)>) -> Seq<(Seq<char>, Seq<char>)> {
    l.filter(|p: (Seq<char>, Seq<char>)| p.1.len() > 0)
}

/// The state labels a save sends for a point of kind `kind`.
pub open spec fn label_change(kind: PointKind, labels: Seq<(Seq<char>, Seq<char>)>) -> Option<Option<Seq<(Seq<char>, Seq<char>)>>> {
    if kind == PointKind::Binary || kind == PointKind::Multistate {
        if filled_labels(labels).len() == 0 {
            Some(None)
        } else {
            Some(Some(filled_labels(labels)))
        }
    } else {
        None
    }
}

/// The labels of an update as plain text.
pub open spec fn label_change_view(c: Option<Option<Vec<(String, String)>>>) -> Option<Option<Seq<(Seq<char>, Seq<char>)>>> {
    match c {
        Some(Some(v)) => Some(Some(labels_view(v@))),
        Some(None) => Some(None),
        None => None,
    }
}

/// A text field as sent (see `filled`).
fn filled_text(s: String) -> (r: Option<String>)
    ensures
        opt_text(r) == filled(s@),
{
    if s.unicode_len() == 0 { None } else { Some(s) }
}

/// Filtering one more label keeps it exactly when its text is filled in.
proof fn lemma_filled_step(s: Seq<(Seq<char>, Seq<char>)>, i: int)
    requires
        0 <= i < s.len(),
    ensures
        filled_labels(s.take(i + 1)) == if s[i].1.len() > 0 {
            filled_labels(s.take(i)).push(s[i])
        } else {
            filled_labels(s.take(i))
        },
{
    reveal(Seq::filter);
    let t = s.take(i + 1);
    assert(t.drop_last() =~= s.take(i));
    assert(t.last() == s[i]);
    assert(t.len() > 0);
    assert(t.filter(|p: (Seq<char>, Seq<char>)| p.1.len() > 0) == if s[i].1.len() > 0 {
        t.drop_last().filter(|p: (Seq<char>, Seq<char>)| p.1.len() > 0).push(t.last())
    } else {
        t.drop_last().filter(|p: (Seq<char>, Seq<char>)| p.1.len() > 0)
    });
}

/// The labels whose text is filled in (see `filled_labels`).
fn keep_filled(labels: Vec<(String, String)>) -> (r: Vec<(String, String)>)
    ensures
        labels_view(r@) == filled_labels(labels_view(labels@)),
{
    let mut out: Vec<(String, String)> = Vec::new();
    let mut i: usize = 0;
    let ghost all = labels_view(labels@);
    while i < labels.len()
        invariant
            i <= labels@.len(),
            all == labels_view(labels@),
            labels_view(out@) == filled_labels(all.take(i as int)),
        decreases labels.len() - i,
    {
        let ghost before = out@;
        proof {
            assert(all.take(i + 1).drop_last() =~= all.take(i as int));
            assert(all.take(i + 1).last() == all[i as int]);
            assert(all[i as int] == (labels@[i as int].0@, labels@[i as int].1@));
        }
        if labels[i].1.unicode_len() > 0 {
            let k = labels[i].0.clone();
            let v = labels[i].1.clone();
            out.push((k, v));
            assert(labels_view(out@) =~= labels_view(before).push(all[i as int]));
        }
        proof {
            lemma_filled_step(all, i as int);
        }
        i = i + 1;
    }
    assert(all.take(labels@.len() as int) =~= all);
    out
}

/// What saving a point edit sends (see `PointUpdate`).
pub fn point_update(name: String, units: String, description: String, kind: PointKind, labels: Vec<(String, String)>) -> (r: PointUpdate)
    ensures
        opt_text(r.name) == filled(name@),
        opt_text(r.units) == filled(units@),
        opt_text(r.description) == filled(description@),
        label_change_view(r.state_labels) == label_change(kind, labels_view(labels@)),
{
    let state_labels = match kind {
        PointKind::Binary | PointKind::Multistate => {
            let kept = keep_filled(labels);
            if kept.len() == 0 { Some(None) } else { Some(Some(kept)) }
        },
        _ => None,
    };
    PointUpdate {
        name: filled_text(name),
        units: filled_text(units),
        description: filled_text(description),
        state_labels,
    }
}

// ----------------------------------------------------------------
// State label keys
// ----------------------------------------------------------------

/// Where a multistate label key sorts: by its number, and after every
/// number when it is not one.
pub open spec fn label_rank(k: Seq<char>) -> int {
    match parse_u32_spec(k) {
        Some(v) => v as int,
        None => u32::MAX as int,
    }
}

/// Keys in order of rank.
pub open spec fn sorted_by_rank(out: Seq<Seq<char>>) -> bool {
    forall|a: int, b: int| 0 <= a < b < out.len() ==> label_rank(#[trigger] out[a]) <= label_rank(#[trigger] out[b])
}

/// `out` holds each key of `keys` once, `out[k]` being `keys[perm[k]]`,
/// with keys of equal rank kept in their original order.
pub open spec fn stable_rearrangement(keys: Seq<Seq<char>>, out: Seq<Seq<char>>, perm: Seq<int>) -> bool {
    &&& perm.len() == out.len() == keys.len()
    &&& forall|k: int| 0 <= k < out.len() ==> 0 <= #[trigger] perm[k] < keys.len() && out[k] == keys[perm[k]]
    &&& forall|a: int, b: int| #![trigger perm[a], perm[b]] 0 <= a < b < out.len() ==> perm[a] != perm[b]
    &&& forall|a: int, b: int|
        #![trigger perm[a], perm[b]]
        0 <= a < b < out.len() && label_rank(out[a]) == label_rank(out[b]) ==> perm[a] < perm[b]
}

/// The rank of a key (see `label_rank`).
fn key_rank(k: &String) -> (r: u64)
    ensures
        r == label_rank(k@),
{
    let cs = chars_of(k.as_str());
    match parse_u32(&cs) {
        Some(v) => v as u64,
        None => 4294967295u64,
    }
}

/// The keys of a multistate point's state-label editor: the keys it has,
/// sorted by number with keys that are not numbers last and ties kept in
/// order; `1`, `2`, `3` when it has none.
pub fn state_label_keys(keys: &Vec<String>) -> (r: Vec<String>)
    ensures
        keys@.len() == 0 ==> names_view(r@) == seq!["1"@, "2"@, "3"@],
        keys@.len() > 0 ==> sorted_by_rank(names_view(r@)) && exists|perm: Seq<int>|
            stable_rearrangement(names_view(keys@), names_view(r@), perm),
{
    if keys.len() == 0 {
        let r = vec![String::from_str("1"), String::from_str("2"), String::from_str("3")];
        assert(names_view(r@) =~= seq!["1"@, "2"@, "3"@]);
        return r;
    }
    let ghost kv = names_view(keys@);
    let mut out: Vec<String> = Vec::new();
    let mut ranks: Vec<u64> = Vec::new();
    let ghost mut perm: Seq<int> = Seq::empty();
    let mut i: usize = 0;
    while i < keys.len()
        invariant
            i <= keys@.len(),
            kv == names_view(keys@),
            out@.len() == i,
            ranks@.len() == i,
            perm.len() == i,
            forall|k: int| 0 <= k < i ==> #[trigger] ranks@[k] == label_rank(out@[k]@),
            forall|a: int, b: int| 0 <= a < b < i ==> #[trigger] ranks@[a] <= #[trigger] ranks@[b],
            forall|k: int| 0 <= k < i ==> 0 <= #[trigger] perm[k] < i && out@[k]@ == kv[perm[k]],
            forall|a: int, b: int| #![trigger perm[a], perm[b]] 0 <= a < b < i ==> perm[a] != perm[b],
            forall|a: int, b: int|
                #![trigger perm[a], perm[b]]
                0 <= a < b < i && ranks@[a] == ranks@[b] ==> perm[a] < perm[b],
        decreases keys.len() - i,
    {
        let rk = key_rank(&keys[i]);
        let mut p: usize = 0;
        while p < ranks.len() && ranks[p] <= rk
            invariant
                p <= ranks@.len(),
                forall|k: int| 0 <= k < p ==> #[trigger] ranks@[k] <= rk,
            decreases ranks.len() - p,
        {
            p = p + 1;
        }
        assert forall|k: int| p <= k < i implies #[trigger] ranks@[k] > rk by {
            assert(ranks@[p as int] > rk);
            if k > p {
                assert(ranks@[p as int] <= ranks@[k]);
            }
        }
        let ghost old_out = out@;
        let ghost old_ranks = ranks@;
        let ghost old_perm = perm;
        out.insert(p, keys[i].clone());
        ranks.insert(p, rk);
        proof {
            perm = perm.insert(p as int, i as int);
            old_out.insert_ensures(p as int, keys@[i as int]);
            old_ranks.insert_ensures(p as int, rk);
            old_perm.insert_ensures(p as int, i as int);
            assert forall|k: int| 0 <= k < i + 1 implies #[trigger] ranks@[k] == label_rank(out@[k]@) by {
                if k > p {
                    assert(ranks@[k] == old_ranks[k - 1]);
                    assert(out@[k] == old_out[k - 1]);
                }
            }
            assert forall|a: int, b: int| 0 <= a < b < i + 1 implies #[trigger] ranks@[a] <= #[trigger] ranks@[b] by {
                if b > p {
                    assert(ranks@[b] == old_ranks[b - 1]);
                }
                if a > p {
                    assert(ranks@[a] == old_ranks[a - 1]);
                }
            }
            assert forall|k: int| 0 <= k < i + 1 implies 0 <= #[trigger] perm[k] < i + 1 && out@[k]@ == kv[perm[k]] by {
                if k > p {
                    assert(perm[k] == old_perm[k - 1]);
                    assert(out@[k] == old_out[k - 1]);
                }
            }
            assert forall|a: int, b: int| #![trigger perm[a], perm[b]] 0 <= a < b < i + 1 implies perm[a] != perm[b] by {
                if a > p {
                    assert(perm[a] == old_perm[a - 1]);
                }
                if b > p {
                    assert(perm[b] == old_perm[b - 1]);
                }
                if a != p && b != p {
                    let a0 = if a > p { a - 1 } else { a };
                    let b0 = if b > p { b - 1 } else { b };
                    assert(old_perm[a0] != old_perm[b0]);
                }
            }
            assert forall|a: int, b: int|
                #![trigger perm[a], perm[b]]
                0 <= a < b < i + 1 && ranks@[a] == ranks@[b] implies perm[a] < perm[b] by {
                let a0 = if a > p { a - 1 } else { a };
                let b0 = if b > p { b - 1 } else { b };
                if a != p && b != p {
                    assert(ranks@[a] == old_ranks[a0]);
                    assert(ranks@[b] == old_ranks[b0]);
                    assert(perm[a] == old_perm[a0]);
                    assert(perm[b] == old_perm[b0]);
                    assert(old_perm[a0] < old_perm[b0]);
                } else if a == p {
                    assert(ranks@[b] == old_ranks[b0]);
                    assert(old_ranks[b0] > rk);
                } else {
                    assert(perm[a] == old_perm[a0]);
                }
            }
        }
        i = i + 1;
    }
    proof {
        let ov = names_view(out@);
        assert forall|a: int, b: int| 0 <= a < b < ov.len() implies label_rank(#[trigger] ov[a]) <= label_rank(#[trigger] ov[b]) by {
            assert(ranks@[a] <= ranks@[b]);
        }
        assert(stable_rearrangement(kv, ov, perm)) by {
            assert forall|a: int, b: int|
                #![trigger perm[a], perm[b]]
                0 <= a < b < ov.len() && label_rank(ov[a]) == label_rank(ov[b]) implies perm[a] < perm[b] by {
                assert(ranks@[a] == label_rank(out@[a]@));
                assert(ranks@[b] == label_rank(out@[b]@));
            }
        }
    }
    out
}

// ----------------------------------------------------------------
// The point table
// ----------------------------------------------------------------

/// The ids of the points of kind `kind` (of every point for `None`), in
/// order: what the table's All, Analog and Binary buttons select.
pub open spec fn ids_of_kind(points: Seq<(String, PointKind)>, kind: Option<PointKind>) -> Seq<Seq<char>>
    decreases points.len(),
{
    if points.len() == 0 {
        seq![]
    } else {
        ids_of_kind(points.drop_last(), kind) + if kind is None || kind == Some(points.last().1) {
            seq![points.last().0@]
        } else {
            seq![]
        }
    }
}

/// The ids of the points of a kind (see `ids_of_kind`).
pub fn select_points(points: &Vec<(String, PointKind)>, kind: Option<PointKind>) -> (r: Vec<String>)
    ensures
        names_view(r@) == ids_of_kind(points@, kind),
{
    let mut out: Vec<String> = Vec::new();
    let mut i: usize = 0;
    while i < points.len()
        invariant
            i <= points@.len(),
            names_view(out@) == ids_of_kind(points@.take(i as int), kind),
        decreases points.len() - i,
    {
        proof {
            assert(points@.take(i + 1).drop_last() =~= points@.take(i as int));
            assert(points@.take(i + 1).last() == points@[i as int]);
        }
        let ghost before = out@;
        let wanted = match kind {
            None => true,
            Some(k) => k == points[i].1,
        };
        if wanted {
            out.push(points[i].0.clone());
            assert(names_view(out@) =~= names_view(before) + seq![points@[i as int].0@]);
        } else {
            assert(names_view(out@) =~= names_view(before) + Seq::<Seq<char>>::empty());
        }
        i = i + 1;
    }
    assert(points@.take(points@.len() as int) =~= points@);
    out
}

/// `after` is `before` with `id` ticked or unticked: it holds `id`
/// exactly when `before` did not, and every other id as `before` did.
pub open spec fn toggled(before: Seq<Seq<char>>, after: Seq<Seq<char>>, id: Seq<char>) -> bool {
    &&& after.contains(id) == !before.contains(id)
    &&& forall|x: Seq<char>| x != id ==> #[trigger] after.contains(x) == before.contains(x)
}

/// Ticking a point twice leaves every id selected exactly as before.
pub proof fn law_toggle_twice_restores(a: Seq<Seq<char>>, b: Seq<Seq<char>>, c: Seq<Seq<char>>, id: Seq<char>)
    requires
        toggled(a, b, id),
        toggled(b, c, id),
    ensures
        forall|x: Seq<char>| #[trigger] c.contains(x) == a.contains(x),
{
    assert forall|x: Seq<char>| #[trigger] c.contains(x) == a.contains(x) by {
        if x != id {
            assert(c.contains(x) == b.contains(x));
            assert(b.contains(x) == a.contains(x));
        }
    }
}

/// Ticks or unticks a point's checkbox: the selection, held without
/// repeats, gains `id` when it lacked it and loses it when it had it; no
/// other id changes.
pub fn toggle_selected(selected: &mut Vec<String>, id: &str)
    requires
        names_view(old(selected)@).no_duplicates(),
    ensures
        names_view(final(selected)@).no_duplicates(),
        toggled(names_view(old(selected)@), names_view(final(selected)@), id@),
{
    let ghost old_v = names_view(selected@);
    let mut j: usize = 0;
    while j < selected.len()
        invariant
            j <= selected@.len(),
            old_v == names_view(selected@),
            selected@ == old(selected)@,
            old_v.no_duplicates(),
            forall|k: int| 0 <= k < j ==> (#[trigger] selected@[k])@ != id@,
        decreases selected.len() - j,
    {
        if str_eq(selected[j].as_str(), id) {
            let ghost before = selected@;
            selected.remove(j);
            proof {
                let nv = names_view(selected@);
                assert(selected@ == before.remove(j as int));
                before.remove_ensures(j as int);
                assert forall|k: int| 0 <= k < nv.len() implies #[trigger] nv[k] == if k < j { old_v[k] } else { old_v[k + 1] } by {
                    if k >= j {
                        assert(selected@[k] == before[k + 1]);
                    }
                }
                assert forall|a: int, b: int| 0 <= a < nv.len() && 0 <= b < nv.len() && a != b implies nv[a] != nv[b] by {
                    let a0 = if a < j { a } else { a + 1 };
                    let b0 = if b < j { b } else { b + 1 };
                    assert(nv[a] == old_v[a0]);
                    assert(nv[b] == old_v[b0]);
                }
                assert(old_v[j as int] == id@);
                assert(old_v.contains(id@));
                if nv.contains(id@) {
                    let k = choose|k: int| 0 <= k < nv.len() && nv[k] == id@;
                    let k0 = if k < j { k } else { k + 1 };
                    assert(nv[k] == old_v[k0]);
                    assert(false);
                }
                assert forall|x: Seq<char>| x != id@ implies nv.contains(x) == old_v.contains(x) by {
                    if old_v.contains(x) {
                        let k = choose|k: int| 0 <= k < old_v.len() && old_v[k] == x;
                        assert(k != j);
                        let k1 = if k < j { k } else { k - 1 };
                        assert(nv[k1] == x);
                    }
                    if nv.contains(x) {
                        let k = choose|k: int| 0 <= k < nv.len() && nv[k] == x;
                        let k0 = if k < j { k } else { k + 1 };
                        assert(old_v[k0] == x);
                    }
                }
            }
            return;
        }
        j = j + 1;
    }
    let ghost before = selected@;
    selected.push(String::from_str(id));
    proof {
        let nv = names_view(selected@);
        assert(nv =~= old_v.push(id@));
        assert(!old_v.contains(id@));
        assert(nv[old_v.len() as int] == id@);
        assert forall|x: Seq<char>| x != id@ implies nv.contains(x) == old_v.contains(x) by {
            if old_v.contains(x) {
                let k = choose|k: int| 0 <= k < old_v.len() && old_v[k] == x;
                assert(nv[k] == x);
            }
            if nv.contains(x) {
                let k = choose|k: int| 0 <= k < nv.len() && nv[k] == x;
                assert(k < old_v.len());
                assert(old_v[k] == x);
            }
        }
    }
}

/// The class of a point's row: the point being edited, a ticked point, or
/// neither.
pub fn point_row_class(editing: bool, checked: bool) -> (r: &'static str)
    ensures
        r@ == if editing {
            "discovery-point-row selected"@
        } else if checked {
            "discovery-point-row checked"@
        } else {
            "discovery-point-row"@
        },
{
    if editing {
        "discovery-point-row selected"
    } else if checked {
        "discovery-point-row checked"
    } else {
        "discovery-point-row"
    }
}

/// The bulk bar's label: how many points are ticked, or how many the
/// device has when none is.
pub fn bulk_label(selected: usize, total: usize) -> (r: String)
    ensures
        r@ == if selected > 0 {
            dec_digits(selected as nat) + " selected"@
        } else {
            "Points ("@ + dec_digits(total as nat) + ")"@
        },
{
    let mut out = String::new();
    if selected > 0 {
        push_dec(&mut out, selected as u64);
        push_str(&mut out, " selected");
    } else {
        push_str(&mut out, "Points (");
        push_dec(&mut out, total as u64);
        push_str(&mut out, ")");
    }
    out
}

/// A point's optional text as the table shows it: a dash when absent.
pub fn text_or_dash(v: &Option<String>) -> (r: String)
    ensures
        r@ == match v {
            Some(t) => t@,
            None => "—"@,
        },
{
    match v {
        Some(t) => t.clone(),
        None => String::from_str("—"),
    }
}

/// What the table shows for an empty device: Modbus devices are probed for
/// registers; others have simply reported no points.
pub fn no_points_text(protocol: &str) -> (r: &'static str)
    ensures
        r@ == if protocol@ == "modbus"@ { "No registers probed yet."@ } else { "No points discovered for this device."@ },
{
    if str_eq(protocol, "modbus") {
        "No registers probed yet."
    } else {
        "No points discovered for this device."
    }
}

} // verus!
