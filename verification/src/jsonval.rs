//! The library's model of a parsed JSON document, and the trusted bridge to
//! the `json` crate that produces it.
//!
//! A `JsonVal` holds as plain values everything the configuration loader
//! reads: object entries in document order, array elements, strings, and each
//! number already reduced to the port it can denote.

use vstd::prelude::*;

verus! {

/// A parsed JSON value.
///
/// A number is kept as `Num(Some(p))` when it is a non-negative integer that
/// fits a port, and `Num(None)` otherwise; the loader reads numbers only as
/// ports.
pub enum JsonVal {
    Null,
    Bool(bool),
    Num(Option<u16>),
    Str(String),
    Arr(Vec<JsonVal>),
    Obj(Vec<(String, JsonVal)>),
}

/// Declares json::JsonValue, the json crate's parsed value, so that the
/// trusted conversion below can take it; its values are opaque here.
#[verifier::external_type_specification]
#[verifier::external_body]
pub struct ExJsonValue(json::JsonValue);

/// The value that the `json` crate's parser yields for a text, as a `JsonVal`,
/// or `None` where the text is rejected. Parsing depends on the characters
/// alone.
pub uninterp spec fn json_parse_of(s: Seq<char>) -> Option<JsonVal>;

/// Relies on json::JsonValue::as_u16 (`Some` exactly for a non-negative
/// integer that fits sixteen bits) and on the enum's variants, which are
/// moved over field by field.
#[verifier::external_body]
fn jv_of(v: &json::JsonValue) -> JsonVal {
    match v {
        json::JsonValue::Null => JsonVal::Null,
        json::JsonValue::Boolean(b) => JsonVal::Bool(*b),
        json::JsonValue::Number(_) => JsonVal::Num(v.as_u16()),
        json::JsonValue::Short(s) => JsonVal::Str(s.as_str().to_string()),
        json::JsonValue::String(s) => JsonVal::Str(s.clone()),
        json::JsonValue::Array(a) => JsonVal::Arr(a.iter().map(jv_of).collect()),
        json::JsonValue::Object(o) => JsonVal::Obj(
            o.iter().map(|(k, x)| (k.to_string(), jv_of(x))).collect(),
        ),
    }
}

/// Relies on json::parse: it accepts or rejects a text, and the value it
/// yields, as a function of the characters alone. A rejection's message is
/// the crate's own and nothing is claimed of it.
#[verifier::external_body]
pub fn parse_json_text(s: &str) -> (r: Result<JsonVal, String>)
    ensures
        r is Ok <==> json_parse_of(s@) is Some,
        (r matches Ok(v) ==> json_parse_of(s@) == Some(v)),
{
    match json::parse(s) {
        Ok(v) => Ok(jv_of(&v)),
        Err(e) => Err(e.to_string()),
    }
}

/// The value stored under `key`: the first entry whose name matches.
pub open spec fn spec_obj_get(o: Seq<(String, JsonVal)>, key: Seq<char>) -> Option<JsonVal>
    decreases o.len(),
{
    if o.len() == 0 {
        None
    } else if o[0].0@ == key {
        Some(o[0].1)
    } else {
        spec_obj_get(o.drop_first(), key)
    }
}

/// The port a value denotes, if it is a number holding one.
pub open spec fn spec_num(v: JsonVal) -> Option<u16> {
    match v {
        JsonVal::Num(n) => n,
        _ => None,
    }
}

/// Looks up `key` among an object's entries.
pub fn obj_get<'a>(o: &'a Vec<(String, JsonVal)>, key: &String) -> (r: Option<&'a JsonVal>)
    ensures
        match r {
            Some(v) => spec_obj_get(o@, key@) == Some(*v),
            None => spec_obj_get(o@, key@) is None,
        },
{
    let mut i: usize = 0;
    proof {
        assert(o@.subrange(0, o@.len() as int) =~= o@);
    }
    while i < o.len()
        invariant
            i <= o@.len(),
            spec_obj_get(o@, key@) == spec_obj_get(o@.subrange(i as int, o@.len() as int), key@),
        decreases o@.len() - i,
    {
        let ghost rest = o@.subrange(i as int, o@.len() as int);
        proof {
            assert(rest[0] == o@[i as int]);
            assert(rest.drop_first() =~= o@.subrange(i + 1, o@.len() as int));
        }
        if o[i].0 == *key {
            return Some(&o[i].1);
        }
        i += 1;
    }
    None
}

/// Reads a value as the port it denotes.
pub fn as_port(v: &JsonVal) -> (r: Option<u16>)
    ensures
        r == spec_num(*v),
{
    match v {
        JsonVal::Num(n) => *n,
        _ => None,
    }
}

} // verus!
