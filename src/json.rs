//! JSON values as a closed tagged union, with structural equality. Text is
//! parsed and printed by `serde_json`; everything in between is this library's.
use vstd::prelude::*;
use crate::record::{index_of_name, lemma_find_name_bounds, lemma_name_found, name_index};
use serde_json::Value;
use crate::text::{
    chars_of, keyed, keys_ordered, lemma_sorted_by_key, lemma_text_order, sort_keyed,
    sorted_by_key, text_lt, Keyed,
};

verus! {

broadcast use vstd::std_specs::vec::group_vec_axioms;

/// A JSON value. A number is held as the text that `serde_json` prints for it.
/// An object is a list of `(key, value)` members; a key is looked up at its
/// first member.
#[derive(Debug)]
pub enum JsonValue {
    Null,
    Bool(bool),
    Number(String),
    Str(String),
    Array(Vec<JsonValue>),
    Object(Vec<(String, JsonValue)>),
}

/// Structural equality; objects are compared as maps from key to value.
pub open spec fn json_eq(a: JsonValue, b: JsonValue) -> bool
    decreases a,
{
    match a {
        JsonValue::Null => b is Null,
        JsonValue::Bool(x) => b matches JsonValue::Bool(y) && x == y,
        JsonValue::Number(x) => b matches JsonValue::Number(y) && x@ == y@,
        JsonValue::Str(x) => b matches JsonValue::Str(y) && x@ == y@,
        JsonValue::Array(x) => match b {
            JsonValue::Array(y) => x.len() == y.len() && forall|i: int|
                0 <= i < x.len() ==> json_eq(#[trigger] x@[i], y@[i]),
            _ => false,
        },
        JsonValue::Object(x) => match b {
            JsonValue::Object(y) => (forall|i: int|
                0 <= i < x.len() && name_index(x@, (#[trigger] x@[i]).0@) == i ==> {
                    let j = name_index(y@, x@[i].0@);
                    j >= 0 && json_eq(x@[i].1, y@[j].1)
                }) && (forall|j: int|
                0 <= j < y.len() ==> name_index(x@, (#[trigger] y@[j]).0@) >= 0),
            _ => false,
        },
    }
}

/// An object with a key that the other object lacks is not equal to it.
proof fn lemma_missing_key_unequal(a: JsonValue, b: JsonValue, j: int)
    requires
        a is Object,
        b is Object,
        0 <= j < b->Object_0.len(),
        name_index(a->Object_0@, b->Object_0@[j].0@) == -1,
    ensures
        !json_eq(a, b),
{
    let y = b->Object_0;
    assert(y@[j] == y@[j]);
}

/// Whether `a` and `b` are equal as JSON values.
pub fn json_equal(a: &JsonValue, b: &JsonValue) -> (r: bool)
    ensures
        r == json_eq(*a, *b),
    decreases a,
{
    match (a, b) {
        (JsonValue::Null, JsonValue::Null) => true,
        (JsonValue::Bool(x), JsonValue::Bool(y)) => *x == *y,
        (JsonValue::Number(x), JsonValue::Number(y)) => *x == *y,
        (JsonValue::Str(x), JsonValue::Str(y)) => *x == *y,
        (JsonValue::Array(x), JsonValue::Array(y)) => {
            if x.len() != y.len() {
                return false;
            }
            let mut i: usize = 0;
            while i < x.len()
                invariant
                    *a == JsonValue::Array(*x),
                    *b == JsonValue::Array(*y),
                    x@.len() == y@.len(),
                    i <= x@.len(),
                    forall|k: int| 0 <= k < i ==> json_eq(#[trigger] x@[k], y@[k]),
                decreases x@.len() - i,
            {
                proof {
                    let ghost whole = *a;
                    assert(decreases_to!(whole => whole->Array_0));
                    assert(decreases_to!(*x => x[i as int]));
                }
                if !json_equal(&x[i], &y[i]) {
                    return false;
                }
                i = i + 1;
            }
            true
        },
        (JsonValue::Object(x), JsonValue::Object(y)) => {
            let mut i: usize = 0;
            while i < x.len()
                invariant
                    *a == JsonValue::Object(*x),
                    *b == JsonValue::Object(*y),
                    i <= x@.len(),
                    forall|k: int|
                        0 <= k < i && name_index(x@, (#[trigger] x@[k]).0@) == k ==> {
                            let j = name_index(y@, x@[k].0@);
                            j >= 0 && json_eq(x@[k].1, y@[j].1)
                        },
                decreases x@.len() - i,
            {
                let first = index_of_name(x, &x[i].0);
                let is_first = match first {
                    Some(f) => f == i,
                    None => false,
                };
                if !is_first {
                    i = i + 1;
                    continue;
                }
                let found = index_of_name(y, &x[i].0);
                proof {
                    let ghost whole = *a;
                    assert(decreases_to!(whole => whole->Object_0));
                    assert(decreases_to!(*x => x[i as int]));
                    assert(decreases_to!(x[i as int] => x[i as int].1));
                }
                match found {
                    Some(j) => {
                        if !json_equal(&x[i].1, &y[j].1) {
                            return false;
                        }
                    },
                    None => {
                        return false;
                    },
                }
                i = i + 1;
            }
            let mut j: usize = 0;
            while j < y.len()
                invariant
                    *a == JsonValue::Object(*x),
                    *b == JsonValue::Object(*y),
                    j <= y@.len(),
                    forall|k: int|
                        0 <= k < x@.len() && name_index(x@, (#[trigger] x@[k]).0@) == k ==> {
                            let m = name_index(y@, x@[k].0@);
                            m >= 0 && json_eq(x@[k].1, y@[m].1)
                        },
                    forall|k: int| 0 <= k < j ==> name_index(x@, (#[trigger] y@[k]).0@) >= 0,
                decreases y@.len() - j,
            {
                if index_of_name(x, &y[j].0).is_none() {
                    proof {
                        lemma_missing_key_unequal(*a, *b, j as int);
                    }
                    return false;
                }
                j = j + 1;
            }
            true
        },
        _ => false,
    }
}

/// Every value equals itself.
pub proof fn lemma_json_eq_refl(a: JsonValue)
    ensures
        json_eq(a, a),
    decreases a,
{
    match a {
        JsonValue::Array(x) => {
            assert forall|i: int| 0 <= i < x.len() implies json_eq(#[trigger] x@[i], x@[i]) by {
                assert(decreases_to!(x => x[i]));
                lemma_json_eq_refl(x@[i]);
            }
        },
        JsonValue::Object(x) => {
            assert forall|i: int|
                0 <= i < x.len() && name_index(x@, (#[trigger] x@[i]).0@) == i implies json_eq(
                x@[i].1,
                x@[name_index(x@, x@[i].0@)].1,
            ) by {
                assert(decreases_to!(x => x[i]));
                lemma_json_eq_refl(x@[i].1);
            }
            assert forall|j: int| 0 <= j < x.len() implies name_index(
                x@,
                (#[trigger] x@[j]).0@,
            ) >= 0 by {
                lemma_name_found(x@, x@[j].0@, j);
            }
        },
        _ => {},
    }
}

/// Object keys strictly increase in text order, at every depth.
pub open spec fn json_sorted(v: JsonValue) -> bool
    decreases v,
{
    match v {
        JsonValue::Array(x) => forall|i: int| 0 <= i < x.len() ==> json_sorted(#[trigger] x@[i]),
        JsonValue::Object(x) => (forall|i: int, j: int|
            0 <= i < j < x.len() ==> text_lt(#[trigger] x@[i].0@, #[trigger] x@[j].0@)) && (
        forall|i: int| 0 <= i < x.len() ==> json_sorted(#[trigger] x@[i].1)),
        _ => true,
    }
}

/// The members of `x` before index `upto` that are the first with their key,
/// each as its key and index, in order.
pub open spec fn first_members(x: Seq<(String, JsonValue)>, upto: int) -> Seq<Keyed>
    decreases upto,
{
    if upto <= 0 {
        Seq::empty()
    } else if name_index(x, x[upto - 1].0@) == upto - 1 {
        first_members(x, upto - 1).push((x[upto - 1].0@, upto - 1))
    } else {
        first_members(x, upto - 1)
    }
}

/// The first members are first occurrences, with their keys, in increasing order.
proof fn lemma_first_members(x: Seq<(String, JsonValue)>, upto: int)
    requires
        0 <= upto <= x.len(),
    ensures
        forall|t: int|
            0 <= t < first_members(x, upto).len() ==> {
                let e = #[trigger] first_members(x, upto)[t];
                &&& 0 <= e.1 < upto
                &&& name_index(x, x[e.1].0@) == e.1
                &&& e.0 == x[e.1].0@
            },
        forall|t1: int, t2: int|
            0 <= t1 < t2 < first_members(x, upto).len() ==> #[trigger] first_members(x, upto)[t1].1
                < #[trigger] first_members(x, upto)[t2].1,
        forall|k: int|
            0 <= k < upto && name_index(x, x[k].0@) == k ==> first_members(x, upto).contains(
                (x[k].0@, k),
            ),
    decreases upto,
{
    if upto > 0 {
        lemma_first_members(x, upto - 1);
        let prev = first_members(x, upto - 1);
        let cur = first_members(x, upto);
        assert forall|k: int|
            0 <= k < upto && name_index(x, x[k].0@) == k implies cur.contains((x[k].0@, k)) by {
            if k < upto - 1 {
                let t = choose|t: int| 0 <= t < prev.len() && prev[t] == (x[k].0@, k);
                assert(cur[t] == prev[t]);
            } else {
                assert(cur[cur.len() - 1] == (x[k].0@, k));
            }
        }
    }
}

/// A copy of `value` whose object keys are sorted, keeping for each key its
/// first member.
pub fn sort_json_keys(value: &JsonValue) -> (r: JsonValue)
    ensures
        json_sorted(r),
        json_eq(r, *value),
    decreases value,
{
    match value {
        JsonValue::Null => JsonValue::Null,
        JsonValue::Bool(b) => JsonValue::Bool(*b),
        JsonValue::Number(n) => JsonValue::Number(n.clone()),
        JsonValue::Str(t) => JsonValue::Str(t.clone()),
        JsonValue::Array(x) => {
            let mut out: Vec<JsonValue> = Vec::new();
            let mut i: usize = 0;
            while i < x.len()
                invariant
                    *value == JsonValue::Array(*x),
                    i <= x@.len(),
                    out@.len() == i,
                    forall|k: int|
                        0 <= k < i ==> json_sorted(#[trigger] out@[k]) && json_eq(out@[k], x@[k]),
                decreases x@.len() - i,
            {
                proof {
                    let ghost whole = *value;
                    assert(decreases_to!(whole => whole->Array_0));
                    assert(decreases_to!(*x => x[i as int]));
                }
                let child = sort_json_keys(&x[i]);
                out.push(child);
                i = i + 1;
            }
            JsonValue::Array(out)
        },
        JsonValue::Object(x) => {
            let ghost xs = x@;
            let mut entries: Vec<(Vec<char>, usize)> = Vec::new();
            let mut i: usize = 0;
            while i < x.len()
                invariant
                    *value == JsonValue::Object(*x),
                    xs == x@,
                    i <= x@.len(),
                    keyed(entries@) == first_members(xs, i as int),
                decreases x@.len() - i,
            {
                let first = index_of_name(x, &x[i].0);
                let is_first = match first {
                    Some(f) => f == i,
                    None => false,
                };
                let ghost before = entries@;
                if is_first {
                    entries.push((chars_of(x[i].0.as_str()), i));
                }
                proof {
                    assert(keyed(entries@) =~= first_members(xs, i + 1));
                }
                i = i + 1;
            }
            let ghost ents = keyed(entries@);
            let sorted = sort_keyed(entries);
            let ghost order = keyed(sorted@);
            proof {
                lemma_first_members(xs, xs.len() as int);
                lemma_sorted_by_key(ents);
            }
            let mut out: Vec<(String, JsonValue)> = Vec::new();
            let mut t: usize = 0;
            while t < sorted.len()
                invariant
                    *value == JsonValue::Object(*x),
                    xs == x@,
                    order == keyed(sorted@),
                    order == sorted_by_key(ents),
                    ents == first_members(xs, xs.len() as int),
                    forall|u: int|
                        0 <= u < ents.len() ==> {
                            let e = #[trigger] ents[u];
                            &&& 0 <= e.1 < xs.len()
                            &&& name_index(xs, xs[e.1].0@) == e.1
                            &&& e.0 == xs[e.1].0@
                        },
                    order.to_multiset() == ents.to_multiset(),
                    order.len() == ents.len(),
                    t <= sorted@.len(),
                    out@.len() == t,
                    forall|u: int|
                        0 <= u < t ==> {
                            let e = order[u];
                            &&& (#[trigger] out@[u]).0@ == e.0
                            &&& json_sorted(out@[u].1)
                            &&& json_eq(out@[u].1, xs[e.1].1)
                        },
                decreases sorted@.len() - t,
            {
                let idx = sorted[t].1;
                proof {
                    assert(order[t as int] == (sorted@[t as int].0@, idx as int));
                    assert(order.to_multiset().count(order[t as int]) > 0) by {
                        broadcast use vstd::seq_lib::to_multiset_contains;

                        assert(order.contains(order[t as int]));
                    }
                    assert(ents.contains(order[t as int])) by {
                        broadcast use vstd::seq_lib::to_multiset_contains;

                    }
                    let ghost whole = *value;
                    assert(decreases_to!(whole => whole->Object_0));
                    assert(decreases_to!(*x => x[idx as int]));
                    assert(decreases_to!(x[idx as int] => x[idx as int].1));
                }
                let child = sort_json_keys(&x[idx].1);
                let key = x[idx].0.clone();
                out.push((key, child));
                t = t + 1;
            }
            proof {
                lemma_sorted_object(*x, out, ents, order);
            }
            JsonValue::Object(out)
        },
    }
}

/// The object made of the sorted first members of `x` is sorted and equal to `x`.
proof fn lemma_sorted_object(
    x: Vec<(String, JsonValue)>,
    out: Vec<(String, JsonValue)>,
    ents: Seq<Keyed>,
    order: Seq<Keyed>,
)
    requires
        ents == first_members(x@, x@.len() as int),
        order.to_multiset() == ents.to_multiset(),
        order.len() == ents.len(),
        keys_ordered(order),
        out@.len() == order.len(),
        forall|u: int|
            0 <= u < out@.len() ==> {
                let e = order[u];
                &&& (#[trigger] out@[u]).0@ == e.0
                &&& json_sorted(out@[u].1)
                &&& json_eq(out@[u].1, x@[e.1].1)
            },
    ensures
        json_sorted(JsonValue::Object(out)),
        json_eq(JsonValue::Object(out), JsonValue::Object(x)),
{
    broadcast use vstd::seq_lib::to_multiset_contains;

    let xs = x@;
    lemma_first_members(xs, xs.len() as int);
    assert(ents.no_duplicates());
    ents.lemma_multiset_has_no_duplicates();
    order.lemma_multiset_has_no_duplicates_conv();
    assert forall|u: int| 0 <= u < order.len() implies ents.contains(#[trigger] order[u]) by {
        assert(order.contains(order[u]));
        assert(order.to_multiset().count(order[u]) > 0);
        assert(ents.to_multiset().count(order[u]) > 0);
    }
    assert forall|u1: int, u2: int|
        0 <= u1 < u2 < order.len() implies text_lt(
        #[trigger] out@[u1].0@,
        #[trigger] out@[u2].0@,
    ) by {
        assert(ents.contains(order[u1]) && ents.contains(order[u2]));
        let t1 = choose|t: int| 0 <= t < ents.len() && ents[t] == order[u1];
        let t2 = choose|t: int| 0 <= t < ents.len() && ents[t] == order[u2];
        assert(ents[t1].0 != ents[t2].0 || t1 == t2);
        lemma_text_order(order[u1].0, order[u2].0, order[u1].0);
    }
    assert forall|i: int|
        0 <= i < out@.len() && name_index(out@, (#[trigger] out@[i]).0@) == i implies {
        let j = name_index(xs, out@[i].0@);
        j >= 0 && json_eq(out@[i].1, xs[j].1)
    } by {
        assert(ents.contains(order[i]));
    }
    assert forall|j: int| 0 <= j < xs.len() implies name_index(out@, (#[trigger] xs[j]).0@) >= 0 by {
        let k = xs[j].0@;
        lemma_name_found(xs, k, j);
        let f = name_index(xs, k);
        lemma_find_name_bounds(xs, k, 0);
        assert(ents.contains((xs[f].0@, f)));
        assert(order.to_multiset().count((xs[f].0@, f)) > 0);
        assert(order.contains((xs[f].0@, f)));
        let u = choose|u: int| 0 <= u < order.len() && order[u] == (xs[f].0@, f);
        lemma_name_found(out@, k, u);
    }
}

/// What `serde_json` parses a text into: `None` where the text is not JSON.
pub uninterp spec fn parsed_json(text: Seq<char>) -> Option<JsonValue>;

#[verifier::external_type_specification]
#[verifier::external_body]
pub struct ExJsonValue(serde_json::Value);

/// Relies on `serde_json::Value`: moves each variant into the matching variant of
/// `JsonValue`, a number as its `Display` text, an object member by member.
#[verifier::external_body]
fn json_from_serde(v: &Value) -> JsonValue {
    match v {
        Value::Null => JsonValue::Null,
        Value::Bool(b) => JsonValue::Bool(*b),
        Value::Number(n) => JsonValue::Number(n.to_string()),
        Value::String(s) => JsonValue::Str(s.clone()),
        Value::Array(a) => JsonValue::Array(a.iter().map(json_from_serde).collect()),
        Value::Object(m) => JsonValue::Object(m.iter().map(|(k, x)| (k.clone(), json_from_serde(x))).collect()),
    }
}

/// Relies on `serde_json::from_str::<serde_json::Value>`: the parsed value, or
/// `None` where the text is not JSON.
#[verifier::external_body]
pub(crate) fn parse_json(text: &str) -> (r: Option<JsonValue>)
    ensures
        r == parsed_json(text@),
{
    serde_json::from_str::<Value>(text).ok().map(|v| json_from_serde(&v))
}

/// What `serde_json` prints for a value, indented: `None` where printing fails.
pub uninterp spec fn pretty_json(v: JsonValue) -> Option<Seq<char>>;

/// Relies on `serde_json::Value`: moves each variant of `JsonValue` into the
/// matching variant, a number through `serde_json::Number`'s `FromStr` (kept as a
/// string where that fails), an object member by member.
#[verifier::external_body]
fn json_to_serde(v: &JsonValue) -> Value {
    match v {
        JsonValue::Null => Value::Null,
        JsonValue::Bool(b) => Value::Bool(*b),
        JsonValue::Number(n) => n.parse::<serde_json::Number>().map_or_else(|_| Value::String(n.clone()), Value::Number),
        JsonValue::Str(t) => Value::String(t.clone()),
        JsonValue::Array(a) => Value::Array(a.iter().map(json_to_serde).collect()),
        JsonValue::Object(m) => Value::Object(m.iter().map(|(k, x)| (k.clone(), json_to_serde(x))).collect()),
    }
}

/// Relies on `serde_json::to_string_pretty`: the indented text of the value, or
/// `None` where printing fails.
#[verifier::external_body]
pub(crate) fn pretty_print(v: &JsonValue) -> (r: Option<String>)
    ensures
        r matches Some(t) ==> pretty_json(*v) == Some(t@),
        r is None ==> pretty_json(*v) is None,
{
    serde_json::to_string_pretty(&json_to_serde(v)).ok()
}

/// `r` is the canonical form of text `s`: where `s` is JSON, the indented print
/// of its value with object keys sorted at every depth (or `s` itself where
/// printing fails); otherwise `s` unchanged.
pub open spec fn formats_as(s: Seq<char>, r: Seq<char>) -> bool {
    match parsed_json(s) {
        None => r == s,
        Some(v) => exists|c: JsonValue|
            json_sorted(c) && json_eq(c, v) && r == match pretty_json(c) {
                Some(t) => t,
                None => s,
            },
    }
}

/// The canonical form of a text: see `formats_as`.
pub fn format_json_string(json_str: &str) -> (r: String)
    ensures
        formats_as(json_str@, r@),
{
    match parse_json(json_str) {
        Some(parsed) => {
            let sorted = sort_json_keys(&parsed);
            match pretty_print(&sorted) {
                Some(t) => t,
                None => json_str.to_owned(),
            }
        },
        None => json_str.to_owned(),
    }
}

} // verus!
