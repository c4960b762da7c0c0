//! JSON values as the TargetProcess replies and the marker file carry them,
//! parsed by serde_json, and the reads the logic makes of them (a field of an
//! object, a value as an integer, float, text, flag or array).
use crate::text::same_text;
use vstd::prelude::*;

verus! {

/// A parsed JSON value. A number keeps what serde_json reads it as: an
/// `i64` when it is an integer in range, and its text (serde_json's
/// rendering, which reads back as the same floating-point value).
#[derive(Debug)]
pub enum Json {
    Null,
    Bool(bool),
    Number { integer: Option<i64>, text: String },
    Str(String),
    Array(Vec<Json>),
    /// The members of an object, one per key.
    Object(Vec<(String, Json)>),
}

#[verifier::external_type_specification]
#[verifier::external_body]
pub struct ExValue(serde_json::Value);

/// What serde_json's `from_str::<Value>` reads from `text`, as a [`Json`];
/// `None` when the text is not JSON.
pub uninterp spec fn json_parsed(text: Seq<char>) -> Option<Json>;

/// serde_json `from_str::<serde_json::Value>`; the value it gives is
/// converted variant by variant into a [`Json`]. The result is named.
#[verifier::external_body]
fn parse_json(text: &str) -> (r: Option<Json>)
    ensures
        r == json_parsed(text@),
{
    match serde_json::from_str::<serde_json::Value>(text) {
        Ok(v) => Some(json_of_value(&v)),
        Err(_) => None,
    }
}

/// Converts a serde_json value into a [`Json`], one variant for one variant
/// (serde_json `Number::as_i64` and its `Display` text for numbers; an object's
/// members in the order its map yields them).
#[verifier::external_body]
fn json_of_value(v: &serde_json::Value) -> Json {
    match v {
        serde_json::Value::Null => Json::Null,
        serde_json::Value::Bool(b) => Json::Bool(*b),
        serde_json::Value::Number(n) => Json::Number { integer: n.as_i64(), text: n.to_string() },
        serde_json::Value::String(s) => Json::Str(s.clone()),
        serde_json::Value::Array(a) => Json::Array(a.iter().map(json_of_value).collect()),
        serde_json::Value::Object(o) => Json::Object(o.iter().map(|(k, x)| (k.clone(), json_of_value(x))).collect()),
    }
}

/// Parses a JSON text.
pub fn parse(text: &str) -> (r: Option<Json>)
    ensures
        r == json_parsed(text@),
{
    parse_json(text)
}

// ---------------------------------------------------------------------------
// Reading values
// ---------------------------------------------------------------------------

/// The value of the first member named `key`.
pub open spec fn lookup(es: Seq<(String, Json)>, key: Seq<char>) -> Option<Json>
    decreases es.len(),
{
    if es.len() == 0 {
        None
    } else if es[0].0@ == key {
        Some(es[0].1)
    } else {
        lookup(es.drop_first(), key)
    }
}

/// The member `key` of an object (`None` for anything else, as serde_json's
/// `Value::get` with a text key).
pub open spec fn get(j: Json, key: Seq<char>) -> Option<Json> {
    match j {
        Json::Object(es) => lookup(es@, key),
        _ => None,
    }
}

/// The member `key` of a value that may be absent.
pub open spec fn get_in(o: Option<Json>, key: Seq<char>) -> Option<Json> {
    match o {
        Some(j) => get(j, key),
        None => None,
    }
}

/// serde_json `Value::as_i64`.
pub open spec fn as_i64(o: Option<Json>) -> Option<i64> {
    match o {
        Some(Json::Number { integer, text }) => integer,
        _ => None,
    }
}

/// The text of a number (what serde_json's `Value::as_f64` reads, before
/// it is made a floating-point value).
pub open spec fn number_text(o: Option<Json>) -> Option<String> {
    match o {
        Some(Json::Number { integer, text }) => Some(text),
        _ => None,
    }
}

/// serde_json `Value::as_str`.
pub open spec fn as_str(o: Option<Json>) -> Option<String> {
    match o {
        Some(Json::Str(s)) => Some(s),
        _ => None,
    }
}

/// serde_json `Value::as_bool`.
pub open spec fn as_bool(o: Option<Json>) -> Option<bool> {
    match o {
        Some(Json::Bool(b)) => Some(b),
        _ => None,
    }
}

pub open spec fn deref_opt(o: Option<&Json>) -> Option<Json> {
    match o {
        Some(j) => Some(*j),
        None => None,
    }
}

/// The member `key` of `j`, if `j` is an object that has it.
pub fn field<'a>(j: &'a Json, key: &str) -> (r: Option<&'a Json>)
    ensures
        deref_opt(r) == get(*j, key@),
{
    match j {
        Json::Object(es) => {
            let mut i: usize = 0;
            assert(es@.subrange(0, es@.len() as int) =~= es@);
            while i < es.len()
                invariant
                    i <= es@.len(),
                    get(*j, key@) == lookup(es@, key@),
                    lookup(es@.subrange(i as int, es@.len() as int), key@) == lookup(es@, key@),
                decreases es.len() - i,
            {
                let ghost sub = es@.subrange(i as int, es@.len() as int);
                assert(sub[0] == es@[i as int]);
                if same_text(es[i].0.as_str(), key) {
                    assert(lookup(sub, key@) == Some(es@[i as int].1));
                    let r = &es[i].1;
                    assert(*r == es@[i as int].1);
                    return Some(r);
                }
                assert(sub.drop_first() =~= es@.subrange(i + 1, es@.len() as int));
                i = i + 1;
            }
            assert(es@.subrange(i as int, es@.len() as int) =~= Seq::<(String, Json)>::empty());
            None
        },
        _ => None,
    }
}

/// The member `key` of a value that may be absent.
pub fn field_in<'a>(o: Option<&'a Json>, key: &str) -> (r: Option<&'a Json>)
    ensures
        deref_opt(r) == get_in(deref_opt(o), key@),
{
    match o {
        Some(j) => field(j, key),
        None => None,
    }
}

/// The value as an `i64`.
pub fn int_of(o: Option<&Json>) -> (r: Option<i64>)
    ensures
        r == as_i64(deref_opt(o)),
{
    match o {
        Some(Json::Number { integer, text }) => *integer,
        _ => None,
    }
}

/// The text of a number.
pub fn number_text_of(o: Option<&Json>) -> (r: Option<String>)
    ensures
        r == number_text(deref_opt(o)),
{
    match o {
        Some(Json::Number { integer, text }) => Some(text.clone()),
        _ => None,
    }
}

/// The value as a text.
pub fn text_of(o: Option<&Json>) -> (r: Option<String>)
    ensures
        r == as_str(deref_opt(o)),
{
    match o {
        Some(Json::Str(s)) => Some(s.clone()),
        _ => None,
    }
}

/// The value as a flag.
pub fn bool_of(o: Option<&Json>) -> (r: Option<bool>)
    ensures
        r == as_bool(deref_opt(o)),
{
    match o {
        Some(Json::Bool(b)) => Some(*b),
        _ => None,
    }
}

} // verus!
