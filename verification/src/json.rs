//! JSON documents, parsed by `serde_json` and read by verified code.
//!
//! What a JSON parser makes of a given text takes pages to state, so the
//! parse is given a name, [`json_document`]; everything the library reads
//! out of a document is defined over the [`Json`] value and proved.
use vstd::prelude::*;
use crate::service::opt_text;
use crate::text::{chars_equal, chars_of};

verus! {

#[verifier::external_type_specification]
#[verifier::external_body]
pub struct ExJsonValue(serde_json::Value);

/// A JSON value as `serde_json` parses it: numbers as `serde_json` writes
/// them back (so `1e3` becomes `1000.0`), object members in the order the
/// parser keeps them.
#[derive(Debug)]
pub enum Json {
    Null,
    Bool(bool),
    Number(String),
    Text(String),
    Array(Vec<Json>),
    Object(Vec<(String, Json)>),
}

/// What `serde_json::from_str::<serde_json::Value>` makes of `raw`: `None`
/// when `raw` is not one JSON document.
pub uninterp spec fn json_document(raw: Seq<char>) -> Option<Json>;

/// Parses `raw` with `serde_json::from_str` into a [`Json`] value.
#[verifier::external_body]
pub(crate) fn parse_json(raw: &str) -> (r: Option<Json>)
    ensures
        r == json_document(raw@),
{
    serde_json::from_str::<serde_json::Value>(raw).ok().map(json_of_value)
}

/// Moves a `serde_json::Value` into a [`Json`], variant for variant.
#[verifier::external_body]
fn json_of_value(v: serde_json::Value) -> Json {
    match v {
        serde_json::Value::Null => Json::Null,
        serde_json::Value::Bool(b) => Json::Bool(b),
        serde_json::Value::Number(n) => Json::Number(n.to_string()),
        serde_json::Value::String(s) => Json::Text(s),
        serde_json::Value::Array(a) => Json::Array(a.into_iter().map(json_of_value).collect()),
        serde_json::Value::Object(m) => Json::Object(
            m.into_iter().map(|(k, x)| (k, json_of_value(x))).collect(),
        ),
    }
}

/// The value of the first member of `fields` named `key`.
pub open spec fn field_value(fields: Seq<(String, Json)>, key: Seq<char>) -> Option<Json>
    decreases fields.len(),
{
    if fields.len() == 0 {
        None
    } else if fields[0].0@ == key {
        Some(fields[0].1)
    } else {
        field_value(fields.drop_first(), key)
    }
}

/// Member `key` of `doc`, when `doc` is an object that has one.
pub open spec fn json_member(doc: Option<Json>, key: Seq<char>) -> Option<Json> {
    match doc {
        Some(Json::Object(fields)) => field_value(fields@, key),
        _ => None,
    }
}

/// The text of `doc`, when it is a JSON string.
pub open spec fn json_text(doc: Option<Json>) -> Option<Seq<char>> {
    match doc {
        Some(Json::Text(s)) => Some(s@),
        _ => None,
    }
}

/// The value an optional reference points to.
pub open spec fn deref_opt(o: Option<&Json>) -> Option<Json> {
    match o {
        Some(d) => Some(*d),
        None => None,
    }
}

/// Reads member `key` of `doc`.
pub fn member_of<'a>(doc: Option<&'a Json>, key: &str) -> (r: Option<&'a Json>)
    ensures
        deref_opt(r) == json_member(deref_opt(doc), key@),
{
    let fields = match doc {
        Some(Json::Object(fields)) => fields,
        _ => return None,
    };
    let k = chars_of(key);
    let mut i: usize = 0;
    assert(fields@.skip(0) =~= fields@);
    while i < fields.len()
        invariant
            i <= fields.len(),
            k@ == key@,
            doc == Some(&Json::Object(*fields)),
            field_value(fields@, key@) == field_value(fields@.skip(i as int), key@),
        decreases fields.len() - i,
    {
        assert(fields@.skip(i as int).drop_first() =~= fields@.skip(i + 1));
        if chars_equal(&chars_of(fields[i].0.as_str()), &k) {
            return Some(&fields[i].1);
        }
        i += 1;
    }
    None
}

/// Takes member `key` out of `doc`.
pub fn into_member(doc: Option<Json>, key: &str) -> (r: Option<Json>)
    ensures
        r == json_member(doc, key@),
{
    let ghost d = doc;
    let mut fields = match doc {
        Some(Json::Object(fields)) => fields,
        _ => return None,
    };
    assert(json_member(d, key@) == field_value(fields@, key@));
    let k = chars_of(key);
    let mut i: usize = 0;
    assert(fields@.skip(0) =~= fields@);
    while i < fields.len()
        invariant
            i <= fields.len(),
            k@ == key@,
            d == doc,
            json_member(d, key@) == field_value(fields@.skip(i as int), key@),
        decreases fields.len() - i,
    {
        assert(fields@.skip(i as int).drop_first() =~= fields@.skip(i + 1));
        if chars_equal(&chars_of(fields[i].0.as_str()), &k) {
            let ghost f = fields@[i as int];
            assert(fields@.skip(i as int)[0] == f);
            assert(json_member(d, key@) == Some(f.1));
            let (_, v) = fields.remove(i);
            assert(v == f.1);
            return Some(v);
        }
        i += 1;
    }
    None
}

/// Reads `doc` as a JSON string.
pub fn text_of(doc: Option<&Json>) -> (r: Option<String>)
    ensures
        opt_text(r) == json_text(deref_opt(doc)),
{
    match doc {
        Some(Json::Text(s)) => Some(s.clone()),
        _ => None,
    }
}

} // verus!
