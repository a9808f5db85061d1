//! A parsed JSON document and lookups in it.
use vstd::prelude::*;
use serde_json::Value;

verus! {

/// A JSON number, as serde_json holds it.
#[derive(Clone, Copy, Debug, PartialEq, Eq, Structural)]
pub enum JsonNumber {
    /// A non-negative integer.
    PosInt(u64),
    /// A negative integer.
    NegInt(i64),
    /// A number written with a fraction or an exponent.
    Fraction,
}

/// A JSON value. Object members keep the order that the parser gave them.
pub enum JsonValue {
    Null,
    Bool(bool),
    Number(JsonNumber),
    Str(String),
    Array(Vec<JsonValue>),
    Object(Vec<JsonMember>),
}

/// One `"key": value` member of an object.
pub struct JsonMember {
    pub key: String,
    pub value: JsonValue,
}

/// The value of the first member named `key`.
pub open spec fn member(ms: Seq<JsonMember>, key: Seq<char>) -> Option<JsonValue>
    decreases ms.len(),
{
    if ms.len() == 0 {
        None
    } else if ms[0].key@ == key {
        Some(ms[0].value)
    } else {
        member(ms.drop_first(), key)
    }
}

/// A member found by name is one of the members.
pub proof fn lemma_member_in(ms: Seq<JsonMember>, key: Seq<char>)
    requires
        member(ms, key) is Some,
    ensures
        exists|k: int| 0 <= k < ms.len() && ms[k].key@ == key && ms[k].value == member(ms, key)->0,
    decreases ms.len(),
{
    if ms[0].key@ != key {
        lemma_member_in(ms.drop_first(), key);
        let k = choose|k: int| 0 <= k < ms.drop_first().len() && ms.drop_first()[k].key@ == key && ms.drop_first()[k].value == member(ms.drop_first(), key)->0;
        assert(ms[k + 1] == ms.drop_first()[k]);
    }
}

/// The members of `v` if it is an object.
pub open spec fn members(v: JsonValue) -> Option<Seq<JsonMember>> {
    match v {
        JsonValue::Object(ms) => Some(ms@),
        _ => None,
    }
}

/// The field `key` of `v`, if `v` is an object that has it.
pub open spec fn field(v: JsonValue, key: Seq<char>) -> Option<JsonValue> {
    match v {
        JsonValue::Object(ms) => member(ms@, key),
        _ => None,
    }
}

/// `v` as a `u32`: a non-negative integer that fits.
pub open spec fn as_u32(v: JsonValue) -> Option<u32> {
    match v {
        JsonValue::Number(JsonNumber::PosInt(n)) => if n <= u32::MAX {
            Some(n as u32)
        } else {
            None
        },
        _ => None,
    }
}

/// `v` as a string.
pub open spec fn as_text(v: JsonValue) -> Option<Seq<char>> {
    match v {
        JsonValue::Str(s) => Some(s@),
        _ => None,
    }
}

/// The member named `key` of an object's members.
pub fn find_member<'a>(ms: &'a Vec<JsonMember>, key: &str) -> (r: Option<&'a JsonValue>)
    ensures
        match r {
            Some(v) => member(ms@, key@) == Some(*v),
            None => member(ms@, key@) is None,
        },
{
    let wanted = key.to_owned();
    let mut i: usize = 0;
    assert(ms@.subrange(0, ms@.len() as int) =~= ms@);
    while i < ms.len()
        invariant
            i <= ms.len(),
            wanted@ == key@,
            member(ms@, key@) == member(ms@.subrange(i as int, ms@.len() as int), key@),
        decreases ms.len() - i,
    {
        let ghost t = ms@.subrange(i as int, ms@.len() as int);
        assert(t[0] == ms@[i as int]);
        assert(t.drop_first() =~= ms@.subrange(i + 1, ms@.len() as int));
        if ms[i].key == wanted {
            assert(member(t, key@) == Some(ms@[i as int].value));
            return Some(&ms[i].value);
        }
        i = i + 1;
    }
    None
}

/// The field `key` of `v`, if `v` is an object that has it.
pub fn get_field<'a>(v: &'a JsonValue, key: &str) -> (r: Option<&'a JsonValue>)
    ensures
        match r {
            Some(x) => field(*v, key@) == Some(*x),
            None => field(*v, key@) is None,
        },
{
    match v {
        JsonValue::Object(ms) => find_member(ms, key),
        _ => None,
    }
}

/// `v` as a `u32`.
pub fn get_u32(v: &JsonValue) -> (r: Option<u32>)
    ensures
        r == as_u32(*v),
{
    match v {
        JsonValue::Number(JsonNumber::PosInt(n)) => if *n <= 0xffff_ffffu64 {
            Some(*n as u32)
        } else {
            None
        },
        _ => None,
    }
}

/// `v` as a string.
pub fn get_text(v: &JsonValue) -> (r: Option<&String>)
    ensures
        match r {
            Some(s) => as_text(*v) == Some(s@),
            None => as_text(*v) is None,
        },
{
    match v {
        JsonValue::Str(s) => Some(s),
        _ => None,
    }
}

#[verifier::external_type_specification]
#[verifier::external_body]
pub struct ExJsonValue(serde_json::Value);

#[verifier::external_type_specification]
#[verifier::external_body]
pub struct ExJsonError(serde_json::Error);

/// The document that serde_json reads from a text, if the text is JSON.
pub uninterp spec fn parsed_json(text: Seq<char>) -> Option<JsonValue>;

/// Copies a serde_json value into a `JsonValue`, keeping the order of
/// array elements and object members.
#[verifier::external_body]
fn json_from_value(v: &Value) -> JsonValue {
    match v {
        Value::Null => JsonValue::Null,
        Value::Bool(b) => JsonValue::Bool(*b),
        Value::Number(n) => JsonValue::Number(match (n.as_u64(), n.as_i64()) {
            (Some(u), _) => JsonNumber::PosInt(u),
            (None, Some(i)) => JsonNumber::NegInt(i),
            _ => JsonNumber::Fraction,
        }),
        Value::String(s) => JsonValue::Str(s.clone()),
        Value::Array(a) => JsonValue::Array(a.iter().map(json_from_value).collect()),
        Value::Object(m) => JsonValue::Object(m.iter().map(|(k, x)| JsonMember { key: k.clone(), value: json_from_value(x) }).collect()),
    }
}

/// Relies on serde_json::from_str into serde_json::Value: it fails when the
/// text is not JSON or nests deeper than serde_json allows, and its outcome
/// depends on the text alone.
#[verifier::external_body]
pub(crate) fn parse_json(text: &str) -> (r: Result<JsonValue, serde_json::Error>)
    ensures
        match r {
            Ok(v) => parsed_json(text@) == Some(v),
            Err(_) => parsed_json(text@) is None,
        },
{
    serde_json::from_str::<Value>(text).map(|v| json_from_value(&v))
}

/// Relies on serde_json::Error's Display: a description of the error.
#[verifier::external_body]
pub(crate) fn describe_json_error(e: &serde_json::Error) -> String {
    e.to_string()
}

} // verus!
