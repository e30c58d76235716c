//! The JSON documents that the chunk decoder reads, and the calls into
//! `simd_json` that produce and inspect them.

use simd_json::prelude::{
    TypedObjectValue, TypedScalarValue, ValueAsArray, ValueAsScalar, ValueObjectAccess,
};
use vstd::prelude::*;

verus! {

/// A JSON document as a mathematical value.
///
/// Integers of every width are one variant; a floating point number keeps no
/// payload, since nothing in this library reads one. An object is the map
/// from each name to the member that a lookup of that name gives.
pub enum JsonModel {
    Null,
    Bool(bool),
    Int(int),
    Float,
    Text(Seq<char>),
    Array(Seq<JsonModel>),
    Object(Map<Seq<char>, JsonModel>),
}

/// `simd_json::OwnedValue`, a parsed document. It is carried through as it
/// is and read through the calls below only.
#[verifier::external_type_specification]
#[verifier::external_body]
pub struct ExOwnedValue(simd_json::OwnedValue);

/// `simd_json::Error`, the parser's account of bytes that it rejects.
#[verifier::external_type_specification]
#[verifier::external_body]
pub struct ExJsonError(simd_json::Error);

/// The document that `simd_json::to_owned_value` reads from `bytes`, or
/// `None` where it rejects them.
pub uninterp spec fn parsed_json(bytes: Seq<u8>) -> Option<JsonModel>;

/// The document that a `simd_json::OwnedValue` holds: what the calls below
/// find in it.
pub uninterp spec fn json_of(value: simd_json::OwnedValue) -> JsonModel;

/// The documents that a sequence of owned values holds, in order.
pub open spec fn documents(items: Seq<simd_json::OwnedValue>) -> Seq<JsonModel> {
    Seq::new(items.len(), |i: int| json_of(items[i]))
}

/// What looking up `key` in the document `doc` yields: the member of that
/// name if `doc` is an object that has one.
pub open spec fn member_of(doc: JsonModel, key: Seq<char>) -> Option<JsonModel> {
    match doc {
        JsonModel::Object(members) => if members.contains_key(key) {
            Some(members[key])
        } else {
            None
        },
        _ => None,
    }
}

/// `simd_json::to_owned_value`: parses `bytes` as one JSON document. The
/// outcome is a function of the bytes alone, named `parsed_json`; on success
/// the value returned holds that document.
#[verifier::external_body]
pub(crate) fn parse_document(bytes: Vec<u8>) -> (r: Result<simd_json::OwnedValue, simd_json::Error>)
    ensures
        match r {
            Ok(value) => parsed_json(bytes@) == Some(json_of(value)),
            Err(_) => parsed_json(bytes@) is None,
        },
{
    let mut bytes = bytes;
    simd_json::to_owned_value(&mut bytes)
}

/// `ValueObjectAccess::get` on an owned value: the member named `key`, or
/// `None` if the value is no object or has no such member.
#[verifier::external_body]
pub(crate) fn member<'a>(value: &'a simd_json::OwnedValue, key: &str) -> (r: Option<
    &'a simd_json::OwnedValue,
>)
    ensures
        match r {
            Some(found) => member_of(json_of(*value), key@) == Some(json_of(*found)),
            None => member_of(json_of(*value), key@) is None,
        },
{
    value.get(key)
}

/// `ValueAsScalar::as_str` on an owned value: the text of a JSON string, or
/// `None` for any other kind of value.
#[verifier::external_body]
pub(crate) fn text_of(value: &simd_json::OwnedValue) -> (r: Option<String>)
    ensures
        match r {
            Some(text) => json_of(*value) == JsonModel::Text(text@),
            None => !(json_of(*value) is Text),
        },
{
    value.as_str().map(String::from)
}

/// `ValueAsScalar::as_u64` on an owned value: the number, if the value is an
/// integer that fits in 64 bits without a sign.
#[verifier::external_body]
pub(crate) fn unsigned_of(value: &simd_json::OwnedValue) -> (r: Option<u64>)
    ensures
        match r {
            Some(n) => json_of(*value) == JsonModel::Int(n as int),
            None => !(json_of(*value) matches JsonModel::Int(n) && 0 <= n <= u64::MAX),
        },
{
    value.as_u64()
}

/// `TypedObjectValue::is_object` on an owned value.
#[verifier::external_body]
pub(crate) fn is_object(value: &simd_json::OwnedValue) -> (r: bool)
    ensures
        r == (json_of(*value) is Object),
{
    value.is_object()
}

/// `TypedScalarValue::is_null` on an owned value.
#[verifier::external_body]
pub(crate) fn is_null(value: &simd_json::OwnedValue) -> (r: bool)
    ensures
        r == (json_of(*value) is Null),
{
    value.is_null()
}

/// `ValueAsArray::as_array` on an owned value: the elements of a JSON array
/// in order, or `None` for any other kind of value.
#[verifier::external_body]
pub(crate) fn elements_of<'a>(value: &'a simd_json::OwnedValue) -> (r: Option<
    &'a Vec<simd_json::OwnedValue>,
>)
    ensures
        match r {
            Some(items) => json_of(*value) == JsonModel::Array(documents(items@)),
            None => !(json_of(*value) is Array),
        },
{
    value.as_array()
}

/// The `Display` text of a `simd_json::Error`.
#[verifier::external_body]
pub(crate) fn error_text(error: &simd_json::Error) -> (r: String) {
    error.to_string()
}

} // verus!
