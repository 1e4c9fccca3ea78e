//! A plain model of JSON documents, and the trusted bridge that parses text
//! into it.
//!
//! The model keeps exactly what the rest of the library reads: strings whole,
//! numbers reduced to "an unsigned integer value, if it has one", arrays and
//! objects as vectors.  Everything downstream of the parse is verified against
//! this model.

use vstd::prelude::*;

verus! {

/// One JSON value.
pub enum JsonValue {
    Null,
    Bool(bool),
    /// A number; `Some` exactly when the number is an integer in `0 ..= u64::MAX`.
    Num(Option<u64>),
    Str(String),
    Arr(Vec<JsonValue>),
    /// The members of an object, in the order the parser hands them out.
    Obj(Vec<(String, JsonValue)>),
}

#[verifier::external_type_specification]
#[verifier::external_body]
pub struct ExValue(serde_json::Value);

/// The model that a parsed `serde_json::Value` denotes.
pub uninterp spec fn jmodel(v: serde_json::Value) -> JsonValue;

/// What parsing a text as JSON yields: `None` when the text is not accepted,
/// otherwise the model of the document it denotes.
pub uninterp spec fn json_of(s: Seq<char>) -> Option<JsonValue>;

/// Relies on `serde_json::from_str::<serde_json::Value>`: whether a text is
/// accepted, and the document it denotes, depend on the characters alone.
#[verifier::external_body]
fn parse_json_value(s: &str) -> (r: Option<serde_json::Value>)
    ensures
        (match r {
            Some(v) => json_of(s@) == Some(jmodel(v)),
            None => json_of(s@) is None,
        }),
{
    serde_json::from_str::<serde_json::Value>(s).ok()
}

/// Relies on `serde_json::Value` (a finite tree of JSON data) and
/// `serde_json::Number::as_u64` (`Some` exactly for unsigned integers): each
/// variant is carried over one for one, fields moved, nothing dropped.
#[verifier::external_body]
fn value_to_json(v: serde_json::Value) -> (r: JsonValue)
    ensures
        r == jmodel(v),
{
    match v {
        serde_json::Value::Null => JsonValue::Null,
        serde_json::Value::Bool(b) => JsonValue::Bool(b),
        serde_json::Value::Number(n) => JsonValue::Num(n.as_u64()),
        serde_json::Value::String(t) => JsonValue::Str(t),
        serde_json::Value::Array(a) => JsonValue::Arr(a.into_iter().map(value_to_json).collect()),
        serde_json::Value::Object(m) => JsonValue::Obj(
            m.into_iter().map(|p| (p.0, value_to_json(p.1))).collect(),
        ),
    }
}

/// Parse a text as one JSON document.
pub fn parse_document(s: &str) -> (r: Option<JsonValue>)
    ensures
        (match r {
            Some(v) => json_of(s@) == Some(v),
            None => json_of(s@) is None,
        }),
{
    match parse_json_value(s) {
        Some(v) => Some(value_to_json(v)),
        None => None,
    }
}

/// The members of an object; any other value has none.
pub open spec fn fields_of(v: JsonValue) -> Seq<(String, JsonValue)> {
    match v {
        JsonValue::Obj(fs) => fs@,
        _ => Seq::empty(),
    }
}

/// The value of the first member with the given name, if any.
pub open spec fn lookup_field(fs: Seq<(String, JsonValue)>, name: Seq<char>) -> Option<JsonValue>
    decreases fs.len(),
{
    if fs.len() == 0 {
        None
    } else if fs[0].0@ == name {
        Some(fs[0].1)
    } else {
        lookup_field(fs.drop_first(), name)
    }
}

/// Whether the named member is present and holds a string.
pub open spec fn field_is_string(fs: Seq<(String, JsonValue)>, name: Seq<char>) -> bool {
    lookup_field(fs, name) matches Some(JsonValue::Str(_))
}

/// The text of a string-valued member.
pub open spec fn str_field(fs: Seq<(String, JsonValue)>, name: Seq<char>) -> Seq<char> {
    match lookup_field(fs, name) {
        Some(JsonValue::Str(t)) => t@,
        _ => Seq::empty(),
    }
}

/// String comparison against a literal, stated over the views.
fn string_eq_str(a: &String, b: &str) -> (r: bool)
    ensures
        r == (a@ == b@),
{
    let t = String::from_str(b);
    *a == t
}

/// Find the first member with the given name.
pub fn get_field<'a>(fields: &'a Vec<(String, JsonValue)>, name: &str) -> (r: Option<
    &'a JsonValue,
>)
    ensures
        (match r {
            Some(v) => lookup_field(fields@, name@) == Some(*v),
            None => lookup_field(fields@, name@) is None,
        }),
{
    let n = fields.len();
    let mut i: usize = 0;
    assert(fields@.skip(0) =~= fields@);
    while i < n
        invariant
            n == fields@.len(),
            i <= n,
            lookup_field(fields@, name@) == lookup_field(fields@.skip(i as int), name@),
        decreases n - i,
    {
        assert(fields@.skip(i as int)[0] == fields@[i as int]);
        if string_eq_str(&fields[i].0, name) {
            return Some(&fields[i].1);
        }
        assert(fields@.skip(i as int).drop_first() =~= fields@.skip(i as int + 1));
        i += 1;
    }
    None
}

} // verus!
