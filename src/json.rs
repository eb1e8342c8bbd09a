//! The structured documents that the linter writes one per line, as plain
//! values, and the reading of one line of text into such a document.

use vstd::prelude::*;
use crate::text::same_text;

verus! {

/// A JSON document as the diagnostic parser reads it.
pub enum Json {
    Null,
    Bool(bool),
    /// A number, with its value where it is written as a non-negative
    /// integer, without fraction or exponent, that fits in `u64`.
    Number(Option<u64>),
    Str(String),
    Array(Vec<Json>),
    /// The members of an object, each key once.
    Object(Vec<(String, Json)>),
}

/// The value of the first member named `key`.
pub open spec fn member(fields: Seq<(String, Json)>, key: Seq<char>) -> Option<Json>
    decreases fields.len(),
{
    if fields.len() == 0 {
        None
    } else if fields[0].0@ == key {
        Some(fields[0].1)
    } else {
        member(fields.drop_first(), key)
    }
}

/// The member `key` of `v`, where `v` is an object that has one that is not
/// `null`; a missing member and a `null` one are both absent.
pub open spec fn get(v: Json, key: Seq<char>) -> Option<Json> {
    match v {
        Json::Object(fields) => {
            let m = member(fields@, key);
            if m == Some(Json::Null) {
                None
            } else {
                m
            }
        },
        _ => None,
    }
}

/// What `serde_json` reads from a line of text: the document, or nothing
/// where the text is not valid JSON.
pub uninterp spec fn json_of(text: Seq<char>) -> Option<Json>;

#[verifier::external_type_specification]
#[verifier::external_body]
pub struct ExValue(serde_json::Value);

/// Relies on the variants of serde_json::Value: each becomes the variant of
/// the same name with its fields moved over, a number through
/// serde_json::Number::as_u64. Only `parse_json` calls it.
#[verifier::external_body]
fn from_value(v: serde_json::Value) -> Json {
    match v {
        serde_json::Value::Null => Json::Null,
        serde_json::Value::Bool(b) => Json::Bool(b),
        serde_json::Value::Number(n) => Json::Number(n.as_u64()),
        serde_json::Value::String(s) => Json::Str(s),
        serde_json::Value::Array(a) => Json::Array(a.into_iter().map(from_value).collect()),
        serde_json::Value::Object(m) => Json::Object(
            m.into_iter().map(|(k, x)| (k, from_value(x))).collect(),
        ),
    }
}

/// Relies on serde_json::from_str into serde_json::Value: it reads one JSON
/// document, or fails, and what it returns depends on the text alone.
#[verifier::external_body]
pub(crate) fn parse_json(text: &str) -> (r: Option<Json>)
    ensures
        r == json_of(text@),
{
    match serde_json::from_str::<serde_json::Value>(text) {
        Ok(v) => Some(from_value(v)),
        Err(_) => None,
    }
}

/// The value that an optional reference points to.
pub open spec fn opt_value(r: Option<&Json>) -> Option<Json> {
    match r {
        Some(x) => Some(*x),
        None => None,
    }
}

/// The member `key` of `v`, as [`get`] defines it.
pub fn get_member<'a>(v: &'a Json, key: &str) -> (r: Option<&'a Json>)
    ensures
        opt_value(r) == get(*v, key@),
{
    match v {
        Json::Object(fields) => {
            let mut i: usize = 0;
            assert(fields@.subrange(0, fields@.len() as int) =~= fields@);
            while i < fields.len()
                invariant
                    *v == Json::Object(*fields),
                    i <= fields@.len(),
                    member(fields@, key@) == member(fields@.subrange(i as int, fields@.len() as int), key@),
                decreases fields@.len() - i,
            {
                assert(fields@.subrange(i as int, fields@.len() as int).drop_first()
                    =~= fields@.subrange(i + 1, fields@.len() as int));
                assert(fields@.subrange(i as int, fields@.len() as int)[0] == fields@[i as int]);
                if same_text(fields[i].0.as_str(), key) {
                    let x = &fields[i].1;
                    assert(member(fields@, key@) == Some(*x));
                    if let Json::Null = x {
                        return None;
                    }
                    return Some(x);
                }
                i = i + 1;
            }
            None
        },
        _ => None,
    }
}

} // verus!
