//! The trusted boundary to the outside document parsers.
//!
//! Everything here either declares an outside type or wraps one outside
//! call; nothing else in the library is believed without proof.

use vstd::prelude::*;

verus! {

#[verifier::external_type_specification]
#[verifier::external_body]
pub struct ExJsonValue(serde_json::Value);

/// The generic value a well-formed property-list document denotes, or
/// nothing for a malformed one. The parse is a function of the bytes
/// alone.
pub uninterp spec fn parsed_descriptor_value(bytes: Seq<u8>) -> Option<crate::value::DocValue>;

/// The generic value a well-formed JSON document denotes, or nothing for
/// a malformed one. The parse is a function of the bytes alone.
pub uninterp spec fn parsed_json_value(bytes: Seq<u8>) -> Option<crate::value::DocValue>;

/// Relies on `serde_json::Value`'s variants: each arm moves one variant of
/// the parsed document into the library's own value, numbers keeping the
/// decimal rendering that `serde_json::Number::to_string` gives them.
#[verifier::external_body]
fn json_of(j: &serde_json::Value) -> crate::value::DocValue {
    match j {
        serde_json::Value::Null => crate::value::DocValue::Null,
        serde_json::Value::Bool(b) => crate::value::DocValue::Bool(*b),
        serde_json::Value::Number(n) => crate::value::DocValue::Num(n.to_string()),
        serde_json::Value::String(s) => crate::value::DocValue::Str(s.clone()),
        serde_json::Value::Array(a) => crate::value::DocValue::List(a.iter().map(json_of).collect()),
        serde_json::Value::Object(m) => crate::value::DocValue::Dict(
            m.iter().map(
                |(k, v)| crate::value::DictEntry { key: k.clone(), val: json_of(v) },
            ).collect(),
        ),
    }
}

/// Relies on `plist::Value::from_reader` to parse a property list of any
/// encoding and on `serde_json::to_value` to lower it to a generic
/// document value, which `json_of` then carries over.
#[verifier::external_body]
pub(crate) fn parse_plist_bytes(bytes: &[u8]) -> (r: Option<crate::value::DocValue>)
    ensures
        r == parsed_descriptor_value(bytes@),
{
    match plist::Value::from_reader(std::io::Cursor::new(bytes)) {
        Ok(p) => match serde_json::to_value(p) {
            Ok(j) => Some(json_of(&j)),
            Err(_) => None,
        },
        Err(_) => None,
    }
}

/// Relies on `serde_json::from_slice` to parse a JSON document, which
/// `json_of` then carries over.
#[verifier::external_body]
pub(crate) fn parse_json_bytes(bytes: &[u8]) -> (r: Option<crate::value::DocValue>)
    ensures
        r == parsed_json_value(bytes@),
{
    match serde_json::from_slice::<serde_json::Value>(bytes) {
        Ok(j) => Some(json_of(&j)),
        Err(_) => None,
    }
}

} // verus!
