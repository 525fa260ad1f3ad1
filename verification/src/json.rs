//! JSON values as plain data: text, numbers kept as their JSON text,
//! arrays and objects with their entries in order.

use vstd::prelude::*;

use crate::numparse::{is_digit, parse_u64, parse_u64_spec};
use crate::text::chars_of;

verus! {

/// A JSON value. Numbers keep their JSON text; an object keeps its
/// entries in order.
#[derive(Debug, PartialEq)]
pub enum JsonValue {
    Null,
    Bool(bool),
    Number(String),
    Str(String),
    Array(Vec<JsonValue>),
    Object(Vec<(String, JsonValue)>),
}

/// A JSON value as plain text and sequences.
pub enum JsonView {
    Null,
    Bool(bool),
    Number(Seq<char>),
    Str(Seq<char>),
    Array(Seq<JsonView>),
    Object(Seq<(Seq<char>, JsonView)>),
}

/// The plain form of a JSON value.
pub open spec fn json_view(v: JsonValue) -> JsonView
    decreases v,
{
    match v {
        JsonValue::Null => JsonView::Null,
        JsonValue::Bool(b) => JsonView::Bool(b),
        JsonValue::Number(n) => JsonView::Number(n@),
        JsonValue::Str(s) => JsonView::Str(s@),
        JsonValue::Array(items) => JsonView::Array(items_view(items@)),
        JsonValue::Object(entries) => JsonView::Object(entries_view(entries@)),
    }
}

/// The plain form of array items.
pub open spec fn items_view(items: Seq<JsonValue>) -> Seq<JsonView>
    decreases items,
{
    if items.len() == 0 {
        seq![]
    } else {
        items_view(items.subrange(0, items.len() - 1)).push(json_view(items[items.len() - 1]))
    }
}

/// The plain form of object entries.
pub open spec fn entries_view(entries: Seq<(String, JsonValue)>) -> Seq<(Seq<char>, JsonView)>
    decreases entries,
{
    if entries.len() == 0 {
        seq![]
    } else {
        entries_view(entries.subrange(0, entries.len() - 1)).push(
            (entries[entries.len() - 1].0@, json_view(entries[entries.len() - 1].1)),
        )
    }
}

/// The value of the first entry with key `k`.
pub open spec fn lookup(es: Seq<(Seq<char>, JsonView)>, k: Seq<char>) -> Option<JsonView>
    decreases es.len(),
{
    if es.len() == 0 {
        None
    } else {
        match lookup(es.drop_last(), k) {
            Some(v) => Some(v),
            None => if es.last().0 == k { Some(es.last().1) } else { None },
        }
    }
}

/// With unique keys, looking a key up finds its own entry.
pub proof fn lemma_lookup_unique(es: Seq<(Seq<char>, JsonView)>, i: int)
    requires
        0 <= i < es.len(),
        forall|a: int, b: int| 0 <= a < b < es.len() ==> (#[trigger] es[a]).0 != (#[trigger] es[b]).0,
    ensures
        lookup(es, es[i].0) == Some(es[i].1),
    decreases es.len(),
{
    let k = es[i].0;
    let pre = es.drop_last();
    if i == es.len() - 1 {
        lemma_lookup_absent(pre, k);
        assert forall|a: int| 0 <= a < pre.len() implies pre[a].0 != k by {
            assert(pre[a] == es[a]);
        }
    } else {
        assert forall|a: int, b: int| 0 <= a < b < pre.len() implies (#[trigger] pre[a]).0 != (#[trigger] pre[b]).0 by {
            assert(pre[a] == es[a]);
            assert(pre[b] == es[b]);
        }
        assert(pre[i] == es[i]);
        lemma_lookup_unique(pre, i);
    }
}

/// A key that no entry has is not found.
pub proof fn lemma_lookup_absent(es: Seq<(Seq<char>, JsonView)>, k: Seq<char>)
    ensures
        (forall|a: int| 0 <= a < es.len() ==> (#[trigger] es[a]).0 != k) ==> lookup(es, k) is None,
    decreases es.len(),
{
    if es.len() > 0 {
        let pre = es.drop_last();
        lemma_lookup_absent(pre, k);
        if forall|a: int| 0 <= a < es.len() ==> (#[trigger] es[a]).0 != k {
            assert forall|a: int| 0 <= a < pre.len() implies (#[trigger] pre[a]).0 != k by {
                assert(pre[a] == es[a]);
            }
            assert(es[es.len() - 1].0 != k);
        }
    }
}

/// A lookup that finds something in a prefix finds the same in the whole.
pub proof fn lemma_lookup_prefix(s: Seq<(Seq<char>, JsonView)>, n: int, k: Seq<char>)
    requires
        0 <= n <= s.len(),
        lookup(s.take(n), k) is Some,
    ensures
        lookup(s, k) == lookup(s.take(n), k),
    decreases s.len() - n,
{
    if n < s.len() {
        assert(s.take(n + 1).drop_last() =~= s.take(n));
        lemma_lookup_prefix(s, n + 1, k);
    } else {
        assert(s.take(n) =~= s);
    }
}

/// Length and entries of the plain form of array items.
pub proof fn lemma_items_view(items: Seq<JsonValue>)
    ensures
        items_view(items).len() == items.len(),
        forall|i: int| 0 <= i < items.len() ==> #[trigger] items_view(items)[i] == json_view(items[i]),
    decreases items.len(),
{
    if items.len() > 0 {
        let pre = items.subrange(0, items.len() - 1);
        lemma_items_view(pre);
        assert forall|i: int| 0 <= i < items.len() implies #[trigger] items_view(items)[i] == json_view(items[i]) by {
            if i < items.len() - 1 {
                assert(pre[i] == items[i]);
            }
        }
    }
}

/// Length and entries of the plain form of object entries.
pub proof fn lemma_entries_view(entries: Seq<(String, JsonValue)>)
    ensures
        entries_view(entries).len() == entries.len(),
        forall|i: int| 0 <= i < entries.len() ==> #[trigger] entries_view(entries)[i] == (entries[i].0@, json_view(entries[i].1)),
    decreases entries.len(),
{
    if entries.len() > 0 {
        let pre = entries.subrange(0, entries.len() - 1);
        lemma_entries_view(pre);
        assert forall|i: int| 0 <= i < entries.len() implies #[trigger] entries_view(entries)[i] == (entries[i].0@, json_view(entries[i].1)) by {
            if i < entries.len() - 1 {
                assert(pre[i] == entries[i]);
            }
        }
    }
}

/// Plain forms of equal length and entries are equal.
pub proof fn lemma_entries_view_ext(a: Seq<(String, JsonValue)>, b: Seq<(Seq<char>, JsonView)>)
    requires
        a.len() == b.len(),
        forall|i: int| 0 <= i < a.len() ==> (a[i].0@, json_view(a[i].1)) == #[trigger] b[i],
    ensures
        entries_view(a) == b,
{
    lemma_entries_view(a);
    assert(entries_view(a) =~= b);
}

/// Plain forms of equal length and items are equal.
pub proof fn lemma_items_view_ext(a: Seq<JsonValue>, b: Seq<JsonView>)
    requires
        a.len() == b.len(),
        forall|i: int| 0 <= i < a.len() ==> json_view(a[i]) == #[trigger] b[i],
    ensures
        items_view(a) == b,
{
    lemma_items_view(a);
    assert(items_view(a) =~= b);
}

/// An array decreases to each of its items.
pub proof fn lemma_item_smaller(v: JsonValue, i: int)
    requires
        v is Array,
        0 <= i < v->Array_0@.len(),
    ensures
        decreases_to!(v => v->Array_0@[i]),
{
    match v {
        JsonValue::Array(items) => {
            assert(decreases_to!(v => items@));
        },
        _ => {},
    }
}

/// An object decreases to each of its values.
pub proof fn lemma_entry_smaller(v: JsonValue, i: int)
    requires
        v is Object,
        0 <= i < v->Object_0@.len(),
    ensures
        decreases_to!(v => v->Object_0@[i].1),
{
    match v {
        JsonValue::Object(entries) => {
            assert(decreases_to!(v => entries@));
            assert(decreases_to!(entries@ => entries@[i]));
        },
        _ => {},
    }
}

/// A copy of a JSON value.
pub fn copy_json(v: &JsonValue) -> (r: JsonValue)
    ensures
        json_view(r) == json_view(*v),
    decreases v,
{
    match v {
        JsonValue::Null => JsonValue::Null,
        JsonValue::Bool(b) => JsonValue::Bool(*b),
        JsonValue::Number(n) => JsonValue::Number(n.clone()),
        JsonValue::Str(t) => JsonValue::Str(t.clone()),
        JsonValue::Array(items) => {
            let mut out: Vec<JsonValue> = Vec::new();
            let mut i: usize = 0;
            while i < items.len()
                invariant
                    *v == JsonValue::Array(*items),
                    i <= items@.len(),
                    out@.len() == i,
                    forall|k: int| 0 <= k < i ==> json_view(#[trigger] out@[k]) == json_view(items@[k]),
                decreases items.len() - i,
            {
                proof {
                    lemma_item_smaller(*v, i as int);
                }
                let c = copy_json(&items[i]);
                out.push(c);
                i = i + 1;
            }
            proof {
                lemma_items_view(items@);
                lemma_items_view_ext(out@, items_view(items@));
            }
            JsonValue::Array(out)
        },
        JsonValue::Object(entries) => {
            let mut out: Vec<(String, JsonValue)> = Vec::new();
            let mut i: usize = 0;
            while i < entries.len()
                invariant
                    *v == JsonValue::Object(*entries),
                    i <= entries@.len(),
                    out@.len() == i,
                    forall|k: int| 0 <= k < i ==> (#[trigger] out@[k]).0@ == entries@[k].0@
                        && json_view(out@[k].1) == json_view(entries@[k].1),
                decreases entries.len() - i,
            {
                proof {
                    lemma_entry_smaller(*v, i as int);
                }
                let c = copy_json(&entries[i].1);
                out.push((entries[i].0.clone(), c));
                i = i + 1;
            }
            proof {
                lemma_entries_view(entries@);
                lemma_entries_view_ext(out@, entries_view(entries@));
            }
            JsonValue::Object(out)
        },
    }
}

/// The value of the first entry with key `k`.
pub fn lookup_entry<'a>(es: &'a Vec<(String, JsonValue)>, k: &String) -> (r: Option<&'a JsonValue>)
    ensures
        match r {
            Some(x) => lookup(entries_view(es@), k@) == Some(json_view(*x)),
            None => lookup(entries_view(es@), k@) is None,
        },
{
    let ghost ev = entries_view(es@);
    proof {
        lemma_entries_view(es@);
    }
    let mut i: usize = 0;
    while i < es.len()
        invariant
            i <= es@.len(),
            ev == entries_view(es@),
            ev.len() == es@.len(),
            forall|j: int| 0 <= j < es@.len() ==> #[trigger] ev[j] == (es@[j].0@, json_view(es@[j].1)),
            lookup(ev.take(i as int), k@) is None,
        decreases es.len() - i,
    {
        proof {
            assert(ev.take(i + 1).drop_last() =~= ev.take(i as int));
            assert(ev.take(i + 1).last() == ev[i as int]);
        }
        if es[i].0 == *k {
            proof {
                lemma_lookup_prefix(ev, i + 1, k@);
            }
            return Some(&es[i].1);
        }
        i = i + 1;
    }
    proof {
        assert(ev.take(i as int) =~= ev);
    }
    None
}

/// The value under key `k` of an object (its first entry with that key);
/// none for a missing key or a value that is not an object.
pub open spec fn get_view(j: JsonView, k: Seq<char>) -> Option<JsonView> {
    match j {
        JsonView::Object(es) => lookup(es, k),
        _ => None,
    }
}

/// The text of a value that is a string.
pub open spec fn str_of(j: Option<JsonView>) -> Option<Seq<char>> {
    match j {
        Some(JsonView::Str(s)) => Some(s),
        _ => None,
    }
}

/// The value of a number written as plain digits that fits in `u64`
/// (what `as_u64` gives of a parsed number).
pub open spec fn u64_of(j: Option<JsonView>) -> Option<u64> {
    match j {
        Some(JsonView::Number(t)) => if t.len() > 0 && is_digit(t[0]) {
            parse_u64_spec(t)
        } else {
            None
        },
        _ => None,
    }
}

/// The value under key `k` of an object (see `get_view`).
pub fn json_get<'a>(v: &'a JsonValue, k: &String) -> (r: Option<&'a JsonValue>)
    ensures
        match r {
            Some(x) => get_view(json_view(*v), k@) == Some(json_view(*x)),
            None => get_view(json_view(*v), k@) is None,
        },
{
    match v {
        JsonValue::Object(es) => lookup_entry(es, k),
        _ => None,
    }
}

/// The text of a value that is a string (see `str_of`).
pub fn json_str(v: Option<&JsonValue>) -> (r: Option<String>)
    ensures
        match r {
            Some(s) => str_of(match v { Some(x) => Some(json_view(*x)), None => None }) == Some(s@),
            None => str_of(match v { Some(x) => Some(json_view(*x)), None => None }) is None,
        },
{
    match v {
        Some(JsonValue::Str(s)) => Some(s.clone()),
        _ => None,
    }
}

/// The value of a plain-digit number that fits in `u64` (see `u64_of`).
pub fn json_u64(v: Option<&JsonValue>) -> (r: Option<u64>)
    ensures
        r == u64_of(match v { Some(x) => Some(json_view(*x)), None => None }),
{
    match v {
        Some(JsonValue::Number(t)) => {
            let cs = chars_of(t.as_str());
            if cs.len() > 0 && '0' <= cs[0] && cs[0] <= '9' {
                parse_u64(&cs)
            } else {
                None
            }
        },
        _ => None,
    }
}

/// Looking a key up in two runs of entries: the first run's entry wins.
pub proof fn lemma_lookup_concat(a: Seq<(Seq<char>, JsonView)>, b: Seq<(Seq<char>, JsonView)>, k: Seq<char>)
    ensures
        lookup(a + b, k) == (if lookup(a, k) is Some { lookup(a, k) } else { lookup(b, k) }),
    decreases b.len(),
{
    if b.len() == 0 {
        assert(a + b =~= a);
    } else {
        assert((a + b).drop_last() =~= a + b.drop_last());
        assert((a + b).last() == b.last());
        lemma_lookup_concat(a, b.drop_last(), k);
    }
}

/// Looking a key up in one entry.
pub proof fn lemma_lookup_single(k0: Seq<char>, v: JsonView, k: Seq<char>)
    ensures
        lookup(seq![(k0, v)], k) == (if k0 == k { Some(v) } else { None }),
{
    let s = seq![(k0, v)];
    assert(s.drop_last() =~= Seq::<(Seq<char>, JsonView)>::empty());
    assert(lookup(s.drop_last(), k) is None);
    assert(s.last() == (k0, v));
}

/// Adding an entry at the end adds its plain form at the end.
pub proof fn lemma_entries_view_push(s: Seq<(String, JsonValue)>, e: (String, JsonValue))
    ensures
        entries_view(s.push(e)) == entries_view(s).push((e.0@, json_view(e.1))),
{
    assert(s.push(e).subrange(0, s.len() as int) =~= s);
}

} // verus!
