//! Navigation in JSON documents the way `serde_json::Value` indexing reads them: a missing key
//! reads as null, and values compare structurally.

use vstd::prelude::*;

use crate::json::{at, entries_view, items_view, jv, jv_entries, jv_items, lemma_entries, lemma_items, Json, JsonV};

verus! {

broadcast use vstd::std_specs::vec::axiom_vec_index_decreases, vstd::std_specs::vec::axiom_vec_decreases_to_view;

/// The value an optional reference denotes: null when there is none.
pub open spec fn ov(x: Option<&Json>) -> JsonV {
    match x {
        Some(j) => j@,
        None => JsonV::Null,
    }
}

/// The value under `key`, as `value[key]` reads it.
pub fn field<'a>(x: Option<&'a Json>, key: &str) -> (r: Option<&'a Json>)
    ensures
        ov(r) == at(ov(x), key@),
{
    match x {
        Some(j) => j.get(key),
        None => None,
    }
}

/// Whether two documents are the same value.
pub fn json_eq(a: &Json, b: &Json) -> (r: bool)
    ensures
        r == (a@ == b@),
    decreases a,
{
    match (a, b) {
        (Json::Null, Json::Null) => true,
        (Json::Bool(x), Json::Bool(y)) => *x == *y,
        (Json::UInt(x), Json::UInt(y)) => *x == *y,
        (Json::NegInt(x), Json::NegInt(y)) => *x == *y,
        (Json::Float(x), Json::Float(y)) => crate::text::str_eq(x.as_str(), y.as_str()),
        (Json::Str(x), Json::Str(y)) => crate::text::str_eq(x.as_str(), y.as_str()),
        (Json::Array(x), Json::Array(y)) => {
            proof {
                lemma_items(x@, x@.len());
                lemma_items(y@, y@.len());
            }
            if x.len() != y.len() {
                proof {
                    assert(items_view(x@).len() != items_view(y@).len());
                }
                return false;
            }
            let mut i: usize = 0;
            while i < x.len()
                invariant
                    i <= x@.len(),
                    x@.len() == y@.len(),
                    *a == Json::Array(*x),
                    a@ == JsonV::Array(items_view(x@)),
                    b@ == JsonV::Array(items_view(y@)),
                    items_view(x@).len() == x@.len(),
                    items_view(y@).len() == y@.len(),
                    forall|k: int| 0 <= k < x@.len() ==> #[trigger] items_view(x@)[k] == jv(x@[k]),
                    forall|k: int| 0 <= k < y@.len() ==> #[trigger] items_view(y@)[k] == jv(y@[k]),
                    forall|k: int| 0 <= k < i ==> jv(x@[k]) == jv(y@[k]),
                decreases x@.len() - i,
            {
                proof {
                    assert(decreases_to!(*a => (*a)->Array_0));
                    assert(decreases_to!(*x => x[i as int]));
                    assert(decreases_to!(*a => x@[i as int]));
                }
                if !json_eq(&x[i], &y[i]) {
                    proof {
                        assert(items_view(x@)[i as int] != items_view(y@)[i as int]);
                    }
                    return false;
                }
                i = i + 1;
            }
            proof {
                assert(items_view(x@) =~= items_view(y@));
            }
            true
        },
        (Json::Object(x), Json::Object(y)) => {
            proof {
                lemma_entries(x@, x@.len());
                lemma_entries(y@, y@.len());
            }
            if x.len() != y.len() {
                proof {
                    assert(entries_view(x@).len() != entries_view(y@).len());
                }
                return false;
            }
            let mut i: usize = 0;
            while i < x.len()
                invariant
                    i <= x@.len(),
                    x@.len() == y@.len(),
                    *a == Json::Object(*x),
                    a@ == JsonV::Object(entries_view(x@)),
                    b@ == JsonV::Object(entries_view(y@)),
                    entries_view(x@).len() == x@.len(),
                    entries_view(y@).len() == y@.len(),
                    forall|k: int| 0 <= k < x@.len() ==> #[trigger] entries_view(x@)[k] == (x@[k].0@, jv(x@[k].1)),
                    forall|k: int| 0 <= k < y@.len() ==> #[trigger] entries_view(y@)[k] == (y@[k].0@, jv(y@[k].1)),
                    forall|k: int| 0 <= k < i ==> x@[k].0@ == y@[k].0@ && jv(x@[k].1) == jv(y@[k].1),
                decreases x@.len() - i,
            {
                proof {
                    assert(decreases_to!(*a => (*a)->Object_0));
                    assert(decreases_to!(*x => x[i as int]));
                    assert(decreases_to!(x[i as int] => x[i as int].1));
                    assert(decreases_to!(*a => x@[i as int].1));
                }
                if !crate::text::str_eq(x[i].0.as_str(), y[i].0.as_str()) || !json_eq(&x[i].1, &y[i].1) {
                    proof {
                        assert(entries_view(x@)[i as int] != entries_view(y@)[i as int]);
                    }
                    return false;
                }
                i = i + 1;
            }
            proof {
                assert(entries_view(x@) =~= entries_view(y@));
            }
            true
        },
        _ => false,
    }
}

/// Whether two optional references denote the same value.
pub fn ov_eq(a: Option<&Json>, b: Option<&Json>) -> (r: bool)
    ensures
        r == (ov(a) == ov(b)),
{
    match (a, b) {
        (Some(x), Some(y)) => json_eq(x, y),
        (Some(x), None) => x.is_null(),
        (None, Some(y)) => y.is_null(),
        (None, None) => true,
    }
}

/// Whether the value is `true`.
pub fn is_true(x: Option<&Json>) -> (r: bool)
    ensures
        r == (ov(x) == JsonV::Bool(true)),
{
    match x {
        Some(j) => match j.as_bool() {
            Some(b) => b,
            None => false,
        },
        None => false,
    }
}

/// Whether the value is null.
pub fn is_null(x: Option<&Json>) -> (r: bool)
    ensures
        r == (ov(x) == JsonV::Null),
{
    match x {
        Some(j) => j.is_null(),
        None => true,
    }
}

/// Whether the value is the given string.
pub fn is_text(x: Option<&Json>, s: &str) -> (r: bool)
    ensures
        r == (ov(x) == JsonV::Str(s@)),
{
    match x {
        Some(j) => match j.as_str() {
            Some(t) => crate::text::str_eq(t, s),
            None => false,
        },
        None => false,
    }
}

/// The text of a string value.
pub fn text<'a>(x: Option<&'a Json>) -> (r: Option<&'a str>)
    ensures
        r matches Some(s) ==> ov(x) == JsonV::Str(s@),
        r is None ==> !(ov(x) is Str),
{
    match x {
        Some(j) => j.as_str(),
        None => None,
    }
}

/// The items of an array value.
pub fn items<'a>(x: Option<&'a Json>) -> (r: Option<&'a Vec<Json>>)
    ensures
        r matches Some(v) ==> ov(x) == JsonV::Array(items_view(v@)),
        r is None ==> !(ov(x) is Array),
{
    match x {
        Some(j) => j.as_array(),
        None => None,
    }
}

/// The entries of an object value.
pub fn entries<'a>(x: Option<&'a Json>) -> (r: Option<&'a Vec<(String, Json)>>)
    ensures
        r matches Some(v) ==> ov(x) == JsonV::Object(entries_view(v@)),
        r is None ==> !(ov(x) is Object),
{
    match x {
        Some(j) => j.as_object(),
        None => None,
    }
}

/// The value of a non-negative integer.
pub fn uint(x: Option<&Json>) -> (r: Option<u64>)
    ensures
        r matches Some(n) ==> ov(x) == JsonV::UInt(n),
        r is None ==> !(ov(x) is UInt),
{
    match x {
        Some(j) => j.as_u64(),
        None => None,
    }
}

/// Whether the value is the given count.
pub fn is_count(x: Option<&Json>, n: usize) -> (r: bool)
    ensures
        r == (ov(x) == JsonV::UInt(n as u64)),
{
    match uint(x) {
        Some(v) => v == n as u64,
        None => false,
    }
}

/// The value of the first entry with the key.
pub fn entry_value<'a>(es: &'a Vec<(String, Json)>, key: &str) -> (r: Option<&'a Json>)
    ensures
        r matches Some(v) ==> crate::json::find(entries_view(es@), key@) == Some(v@),
        r is None ==> crate::json::find(entries_view(es@), key@) is None,
{
    let ghost values = entries_view(es@);
    proof {
        lemma_entries(es@, es@.len());
    }
    let mut i: usize = 0;
    while i < es.len()
        invariant
            i <= es@.len(),
            values == entries_view(es@),
            values.len() == es@.len(),
            forall|k: int| 0 <= k < es@.len() ==> #[trigger] values[k] == (es@[k].0@, jv(es@[k].1)),
            forall|j: int| 0 <= j < i ==> values[j].0 != key@,
        decreases es@.len() - i,
    {
        if crate::text::str_eq(es[i].0.as_str(), key) {
            proof {
                crate::json::lemma_find_skip(values, key@, i as int);
                assert(values.skip(i as int)[0] == values[i as int]);
            }
            return Some(&es[i].1);
        }
        i = i + 1;
    }
    proof {
        crate::json::lemma_find_skip(values, key@, i as int);
        assert(values.skip(i as int).len() == 0);
    }
    None
}

/// Copies of the items, with the same values.
pub fn clone_items(v: &Vec<Json>) -> (r: Vec<Json>)
    ensures
        items_view(r@) == items_view(v@),
{
    let mut out: Vec<Json> = Vec::new();
    let mut i: usize = 0;
    while i < v.len()
        invariant
            i <= v@.len(),
            out@.len() == i,
            forall|k: int| 0 <= k < i ==> #[trigger] jv(out@[k]) == jv(v@[k]),
        decreases v@.len() - i,
    {
        out.push(crate::json::clone_json(&v[i]));
        i = i + 1;
    }
    proof {
        lemma_items(out@, out@.len());
        lemma_items(v@, v@.len());
        assert(items_view(out@) =~= items_view(v@));
    }
    out
}

} // verus!
