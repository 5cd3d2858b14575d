//! JSON documents, as far as the library reads them.
use crate::text::same;
use vstd::prelude::*;

verus! {

/// A JSON value. Of a number only its value as a `u64` is kept, where it has one. The entries of
/// an object have different names.
#[derive(Debug)]
pub enum Json {
    Null,
    Bool(bool),
    Number(Option<u64>),
    Text(String),
    Array(Vec<Json>),
    Object(Vec<(String, Json)>),
}

/// The value that `serde_json` holds a document in.
#[verifier::external_type_specification]
#[verifier::external_body]
pub struct ExValue(serde_json::Value);

/// What a `serde_json::Value` holds.
pub uninterp spec fn json_contents(v: serde_json::Value) -> Json;

/// The document that `serde_json::from_str` reads from a text, or its message.
pub uninterp spec fn json_document(s: Seq<char>) -> Result<Json, Seq<char>>;

/// Calls `serde_json::from_str`, whose result, or the message of its error, is a function of the
/// text.
#[verifier::external_body]
fn parse_value(s: &str) -> (r: Result<serde_json::Value, String>)
    ensures
        match r {
            Ok(v) => json_document(s@) == Ok::<Json, Seq<char>>(json_contents(v)),
            Err(e) => json_document(s@) == Err::<Json, Seq<char>>(e@),
        },
{
    serde_json::from_str(s).map_err(|e| e.to_string())
}

/// Takes a `serde_json::Value` apart, variant by variant; a number is read with
/// `serde_json::Number::as_u64`.
#[verifier::external_body]
fn take_apart(v: serde_json::Value) -> (r: Json)
    ensures
        r == json_contents(v),
{
    match v {
        serde_json::Value::Null => Json::Null,
        serde_json::Value::Bool(b) => Json::Bool(b),
        serde_json::Value::Number(n) => Json::Number(n.as_u64()),
        serde_json::Value::String(s) => Json::Text(s),
        serde_json::Value::Array(a) => Json::Array(a.into_iter().map(take_apart).collect()),
        serde_json::Value::Object(o) => {
            Json::Object(o.into_iter().map(|(k, v)| (k, take_apart(v))).collect())
        },
    }
}

/// Reads a JSON document.
pub fn parse_json(s: &str) -> (r: Result<Json, String>)
    ensures
        match r {
            Ok(j) => json_document(s@) == Ok::<Json, Seq<char>>(j),
            Err(e) => json_document(s@) == Err::<Json, Seq<char>>(e@),
        },
{
    match parse_value(s) {
        Ok(v) => Ok(take_apart(v)),
        Err(e) => Err(e),
    }
}

/// A text as a JSON string, as `serde_json` writes it.
pub uninterp spec fn json_string(s: Seq<char>) -> Seq<char>;

/// Calls `serde_json::to_string` on a text: its result is a function of the text, and it does
/// not fail on one.
#[verifier::external_body]
pub(crate) fn quote_json(s: &str) -> (r: String)
    ensures
        r@ == json_string(s@),
{
    serde_json::to_string(s).unwrap()
}

/// The value under a name.
pub open spec fn lookup(entries: Seq<(String, Json)>, key: Seq<char>) -> Option<Json>
    decreases entries.len(),
{
    if entries.len() == 0 {
        None
    } else if entries[0].0@ == key {
        Some(entries[0].1)
    } else {
        lookup(entries.drop_first(), key)
    }
}

/// The value under a name of an object.
pub open spec fn member(j: Json, key: Seq<char>) -> Option<Json> {
    match j {
        Json::Object(entries) => lookup(entries@, key),
        _ => None,
    }
}

/// The value under a name, or null.
pub open spec fn at(j: Json, key: Seq<char>) -> Json {
    match member(j, key) {
        Some(v) => v,
        None => Json::Null,
    }
}

/// The value at a position of an array.
pub open spec fn element(j: Json, n: int) -> Option<Json> {
    match j {
        Json::Array(items) => if 0 <= n < items@.len() {
            Some(items@[n])
        } else {
            None
        },
        _ => None,
    }
}

/// The text of a string.
pub open spec fn text_of(j: Json) -> Option<Seq<char>> {
    match j {
        Json::Text(s) => Some(s@),
        _ => None,
    }
}

/// The text under a name.
pub open spec fn text_at(j: Json, key: Seq<char>) -> Option<Seq<char>> {
    text_of(at(j, key))
}

/// The truth value of a boolean.
pub open spec fn bool_of(j: Json) -> Option<bool> {
    match j {
        Json::Bool(b) => Some(b),
        _ => None,
    }
}

/// The truth value under a name.
pub open spec fn bool_at(j: Json, key: Seq<char>) -> Option<bool> {
    bool_of(at(j, key))
}

/// The value of a number.
pub open spec fn number_of(j: Json) -> Option<u64> {
    match j {
        Json::Number(n) => n,
        _ => None,
    }
}

/// The number under a name.
pub open spec fn number_at(j: Json, key: Seq<char>) -> Option<u64> {
    number_of(at(j, key))
}

/// The elements of an array.
pub open spec fn items_of(j: Json) -> Option<Seq<Json>> {
    match j {
        Json::Array(items) => Some(items@),
        _ => None,
    }
}

/// The array under a name.
pub open spec fn items_at(j: Json, key: Seq<char>) -> Option<Seq<Json>> {
    items_of(at(j, key))
}

/// The entries of an object.
pub open spec fn entries_of(j: Json) -> Option<Seq<(String, Json)>> {
    match j {
        Json::Object(entries) => Some(entries@),
        _ => None,
    }
}

/// The value under a name of an object.
pub fn get<'a>(j: &'a Json, key: &str) -> (r: Option<&'a Json>)
    ensures
        match r {
            Some(v) => member(*j, key@) == Some(*v),
            None => member(*j, key@) is None,
        },
{
    match j {
        Json::Object(entries) => {
            let mut i: usize = 0;
            assert(entries@.skip(0) =~= entries@);
            while i < entries.len()
                invariant
                    i <= entries@.len(),
                    member(*j, key@) == lookup(entries@, key@),
                    lookup(entries@.skip(i as int), key@) == lookup(entries@, key@),
                decreases entries@.len() - i,
            {
                let e = &entries[i];
                assert(entries@.skip(i as int)[0] == *e);
                assert(entries@.skip(i as int).drop_first() =~= entries@.skip(i + 1));
                if same(e.0.as_str(), key) {
                    return Some(&e.1);
                }
                i += 1;
            }
            None
        },
        _ => None,
    }
}

/// The value at a position of an array.
pub fn nth(j: &Json, n: usize) -> (r: Option<&Json>)
    ensures
        match r {
            Some(v) => element(*j, n as int) == Some(*v),
            None => element(*j, n as int) is None,
        },
{
    match j {
        Json::Array(items) => if n < items.len() {
            Some(&items[n])
        } else {
            None
        },
        _ => None,
    }
}

/// The text under a name.
pub fn text_under(j: &Json, key: &str) -> (r: Option<String>)
    ensures
        r is Some <==> text_at(*j, key@) is Some,
        r is Some ==> r->0@ == text_at(*j, key@)->0,
{
    match get(j, key) {
        Some(Json::Text(s)) => Some(s.clone()),
        _ => None,
    }
}

/// The text under a name, or a given one.
pub open spec fn text_or(t: Option<Seq<char>>, other: Seq<char>) -> Seq<char> {
    match t {
        Some(s) => s,
        None => other,
    }
}

/// The text under a name, or a given one.
pub fn text_under_or(j: &Json, key: &str, other: &str) -> (r: String)
    ensures
        r@ == text_or(text_at(*j, key@), other@),
{
    match text_under(j, key) {
        Some(s) => s,
        None => other.to_owned(),
    }
}

/// Whether the value under a name is a given text.
pub fn is_text(j: &Json, key: &str, t: &str) -> (r: bool)
    ensures
        r == (text_at(*j, key@) == Some(t@)),
{
    match text_under(j, key) {
        Some(s) => same(s.as_str(), t),
        None => false,
    }
}

/// The truth value under a name.
pub fn bool_under(j: &Json, key: &str) -> (r: Option<bool>)
    ensures
        r == bool_at(*j, key@),
{
    match get(j, key) {
        Some(Json::Bool(b)) => Some(*b),
        _ => None,
    }
}

/// The number under a name.
pub fn number_under(j: &Json, key: &str) -> (r: Option<u64>)
    ensures
        r == number_at(*j, key@),
{
    match get(j, key) {
        Some(Json::Number(n)) => *n,
        _ => None,
    }
}

/// The array under a name.
pub fn array_under<'a>(j: &'a Json, key: &str) -> (r: Option<&'a Vec<Json>>)
    ensures
        match r {
            Some(v) => items_at(*j, key@) == Some(v@),
            None => items_at(*j, key@) is None,
        },
{
    match get(j, key) {
        Some(Json::Array(items)) => Some(items),
        _ => None,
    }
}

} // verus!
