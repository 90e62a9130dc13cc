//! Reading fields of a JSON document: members by key, absent or null
//! optionals, lists of texts.
use vstd::prelude::*;
use crate::json::JsonValue;
use crate::record::{index_of_name, name_index};

verus! {

/// Why a document could not be read as a whole.
#[derive(Debug, Clone, Copy, PartialEq, Eq, Structural)]
pub enum ParseError {
    /// The text is not JSON.
    NotJson,
    /// The JSON does not have the document's shape.
    BadStructure,
}

/// The value of the first member named `k` of an object (`None` for other values).
pub open spec fn field(v: JsonValue, k: Seq<char>) -> Option<JsonValue> {
    match v {
        JsonValue::Object(x) => {
            let i = name_index(x@, k);
            if i >= 0 {
                Some(x@[i].1)
            } else {
                None
            }
        },
        _ => None,
    }
}

/// An optional field that is missing or null.
pub open spec fn absent(o: Option<JsonValue>) -> bool {
    match o {
        None => true,
        Some(v) => v is Null,
    }
}

/// An optional text field: missing or null reads as `None`, a string as its text.
pub open spec fn opt_text_field_ok(o: Option<JsonValue>) -> bool {
    absent(o) || o matches Some(JsonValue::Str(_))
}

/// `r` is what an optional text field reads as.
pub open spec fn opt_text_field_is(o: Option<JsonValue>, r: Option<String>) -> bool {
    if absent(o) {
        r is None
    } else {
        o matches Some(JsonValue::Str(t)) && r matches Some(s) && s@ == t@
    }
}

/// A present field that holds a string.
pub open spec fn is_text_field(o: Option<JsonValue>) -> bool {
    o matches Some(JsonValue::Str(_))
}

/// A text field that must be present.
pub open spec fn text_field_is(o: Option<JsonValue>, r: String) -> bool {
    o matches Some(JsonValue::Str(t)) && r@ == t@
}

/// An array of strings.
pub open spec fn texts_json_ok(v: JsonValue) -> bool {
    v matches JsonValue::Array(a) && forall|i: int| 0 <= i < a.len() ==> (#[trigger] a@[i]) is Str
}

/// The JSON value is a string with the text of `s`.
pub open spec fn text_item_is(j: JsonValue, s: String) -> bool {
    j matches JsonValue::Str(t) && s@ == t@
}

/// `r` holds the strings of the array `v`, in order.
pub open spec fn texts_json_is(v: JsonValue, r: Vec<String>) -> bool {
    v matches JsonValue::Array(a) && r@.len() == a.len() && forall|i: int|
        0 <= i < a.len() ==> text_item_is(#[trigger] a@[i], r@[i])
}

/// An optional list of texts: missing or null reads as `None`.
pub open spec fn opt_texts_ok(o: Option<JsonValue>) -> bool {
    absent(o) || (o matches Some(v) && texts_json_ok(v))
}

/// `r` is what an optional list of texts reads as.
pub open spec fn opt_texts_is(o: Option<JsonValue>, r: Option<Vec<String>>) -> bool {
    if absent(o) {
        r is None
    } else {
        o matches Some(v) && r matches Some(t) && texts_json_is(v, t)
    }
}

/// The first member of an object named `k`.
pub fn field_of<'a>(v: &'a JsonValue, k: &str) -> (r: Option<&'a JsonValue>)
    ensures
        r matches Some(x) ==> field(*v, k@) == Some(*x),
        r is None ==> field(*v, k@) is None,
{
    match v {
        JsonValue::Object(x) => {
            let key = k.to_owned();
            match index_of_name(x, &key) {
                Some(i) => Some(&x[i].1),
                None => None,
            }
        },
        _ => None,
    }
}

/// Whether an optional field is missing or null.
pub fn is_absent(o: Option<&JsonValue>) -> (r: bool)
    ensures
        r == absent(
            match o {
                Some(v) => Some(*v),
                None => None,
            },
        ),
{
    match o {
        None => true,
        Some(JsonValue::Null) => true,
        _ => false,
    }
}

/// Reads an optional text field; `Err` where it is neither absent nor a string.
pub fn read_opt_text(o: Option<&JsonValue>) -> (r: Result<Option<String>, ()>)
    ensures
        ({
            let f = match o {
                Some(v) => Some(*v),
                None => None,
            };
            &&& r is Ok <==> opt_text_field_ok(f)
            &&& match r {
                Ok(t) => opt_text_field_is(f, t),
                Err(_) => true,
            }
        }),
{
    if is_absent(o) {
        return Ok(None);
    }
    match o {
        Some(JsonValue::Str(t)) => Ok(Some(t.clone())),
        _ => Err(()),
    }
}

/// Reads a text field that must be present.
pub fn read_text(o: Option<&JsonValue>) -> (r: Option<String>)
    ensures
        ({
            let f = match o {
                Some(v) => Some(*v),
                None => None,
            };
            &&& r is Some <==> is_text_field(f)
            &&& match r {
                Some(t) => text_field_is(f, t),
                None => true,
            }
        }),
{
    match o {
        Some(JsonValue::Str(t)) => Some(t.clone()),
        _ => None,
    }
}

/// Reads an array of strings.
pub fn read_texts(v: &JsonValue) -> (r: Option<Vec<String>>)
    ensures
        r is Some <==> texts_json_ok(*v),
        r matches Some(t) ==> texts_json_is(*v, t),
{
    match v {
        JsonValue::Array(a) => {
            let mut out: Vec<String> = Vec::new();
            let mut i: usize = 0;
            while i < a.len()
                invariant
                    *v == JsonValue::Array(*a),
                    i <= a@.len(),
                    out@.len() == i,
                    forall|k: int|
                        0 <= k < i ==> text_item_is(#[trigger] a@[k], out@[k]),
                decreases a@.len() - i,
            {
                match &a[i] {
                    JsonValue::Str(t) => {
                        out.push(t.clone());
                    },
                    _ => {
                        return None;
                    },
                }
                i = i + 1;
            }
            Some(out)
        },
        _ => None,
    }
}

/// Reads an optional list of texts; `Err` where it is neither absent nor an
/// array of strings.
pub fn read_opt_texts(o: Option<&JsonValue>) -> (r: Result<Option<Vec<String>>, ()>)
    ensures
        ({
            let f = match o {
                Some(v) => Some(*v),
                None => None,
            };
            &&& r is Ok <==> opt_texts_ok(f)
            &&& match r {
                Ok(t) => opt_texts_is(f, t),
                Err(_) => true,
            }
        }),
{
    if is_absent(o) {
        return Ok(None);
    }
    match o {
        Some(v) => match read_texts(v) {
            Some(t) => Ok(Some(t)),
            None => Err(()),
        },
        None => Err(()),
    }
}

} // verus!
