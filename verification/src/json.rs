//! The boundary to the generic JSON value decoder.
//!
//! Delimiting array elements is this crate's own, verified work; turning
//! one element's bytes into a JSON value, and looking fields up inside
//! such a value, is `serde_json`'s. Each call into it sits behind one
//! small trusted function here.

use vstd::prelude::*;

verus! {

#[verifier::external_type_specification]
#[verifier::external_body]
pub struct ExValue(serde_json::Value);

#[verifier::external_type_specification]
#[verifier::external_body]
#[verifier::reject_recursive_types(K)]
#[verifier::reject_recursive_types(V)]
pub struct ExMap<K, V>(serde_json::Map<K, V>);

/// What parsing the first JSON value out of a byte range came to.
pub enum RawOutcome {
    /// A complete value, and how many bytes of the range it covered,
    /// leading whitespace included.
    Value(serde_json::Value, usize),
    /// The decoder reports that the range ended before a value was
    /// complete (or that it held only whitespace); appending bytes may
    /// settle it. Not every cut-off reads this way: one inside a bare
    /// number reads as malformed instead.
    NeedMore,
    /// The range does not start with well-formed JSON; the message says
    /// where and why.
    Invalid(String),
}

/// The shape of the longest JSON-value prefix of a byte sequence: how the
/// generic decoder reads a given byte range, as a pure fact of the bytes.
pub enum ParsedPrefix {
    /// The bytes begin (after optional whitespace) with one complete JSON
    /// value, ending after this many bytes.
    Complete(nat),
    /// The decoder reads the bytes as ending - possibly after only
    /// whitespace - before a value is complete.
    Incomplete,
    /// The decoder reads the bytes as not beginning with well-formed
    /// JSON.
    Malformed,
}

/// How `serde_json` parses the first value out of a byte sequence. The
/// outcome is a function of the bytes alone; its exact definition is the
/// JSON grammar, which this crate does not restate.
pub uninterp spec fn json_prefix(bytes: Seq<u8>) -> ParsedPrefix;

/// The number of entries a JSON object table holds.
pub uninterp spec fn table_size(m: serde_json::Map<String, serde_json::Value>) -> nat;

/// Relies on `serde_json::Deserializer::from_slice` with its
/// `StreamDeserializer`: parses the first JSON value in `buffer[offset..]`;
/// `byte_offset` reports where that value ends, and `Error::is_eof` tells
/// a truncated value apart from a malformed one. The outcome is
/// deterministic in the bytes, which `json_prefix` names.
#[verifier::external_body]
pub(crate) fn decode_first_value(buffer: &Vec<u8>, offset: usize) -> (r: RawOutcome)
    requires
        offset <= buffer@.len(),
    ensures
        r is Value <==> json_prefix(buffer@.skip(offset as int)) is Complete,
        r is NeedMore <==> json_prefix(buffer@.skip(offset as int)) is Incomplete,
        r is Invalid <==> json_prefix(buffer@.skip(offset as int)) is Malformed,
        r matches RawOutcome::Value(_, n) ==> json_prefix(buffer@.skip(offset as int))
            == ParsedPrefix::Complete(n as nat) && 1 <= n && offset + n <= buffer@.len(),
{
    let mut iter = serde_json::Deserializer::from_slice(&buffer[offset..]).into_iter::<
        serde_json::Value,
    >();
    match iter.next() {
        Some(Ok(v)) => RawOutcome::Value(v, iter.byte_offset()),
        Some(Err(e)) if e.is_eof() => RawOutcome::NeedMore,
        Some(Err(e)) => RawOutcome::Invalid(e.to_string()),
        None => RawOutcome::NeedMore,
    }
}

/// A field of a JSON object that is expected to hold a string.
pub enum StringField {
    /// The object has no such key.
    Missing,
    /// The key is there, but its value is not a string.
    WrongType,
    /// The key is there and holds this string.
    Text(String),
}

/// A field of a JSON object that is expected to hold an object.
pub enum TableField {
    /// The object has no such key.
    Missing,
    /// The key is there, but its value is not an object.
    WrongType,
    /// The key is there and holds this object.
    Table(serde_json::Map<String, serde_json::Value>),
}

/// Whether a JSON value is an object, as `serde_json::Value::is_object`
/// answers it: a function of the value alone.
pub uninterp spec fn object_shaped(v: serde_json::Value) -> bool;

/// What looking a key up in a JSON value and asking for a string yields:
/// a function of the value and the key alone.
pub uninterp spec fn string_field_of(v: serde_json::Value, key: Seq<char>) -> StringField;

/// What looking a key up in a JSON value and asking for an object yields:
/// a function of the value and the key alone.
pub uninterp spec fn table_field_of(v: serde_json::Value, key: Seq<char>) -> TableField;

/// Relies on `serde_json::Value::is_object`, which `object_shaped` names.
#[verifier::external_body]
pub(crate) fn value_is_object(v: &serde_json::Value) -> (r: bool)
    ensures
        r == object_shaped(*v),
{
    v.is_object()
}

/// Relies on `serde_json::Value::get` and `Value::as_str`: looks a key up
/// and keeps its value only when it is a string. The outcome is
/// deterministic in the value and the key, which `string_field_of` names.
#[verifier::external_body]
pub(crate) fn get_string_field(v: &serde_json::Value, key: &str) -> (r: StringField)
    ensures
        r == string_field_of(*v, key@),
{
    match v.get(key) {
        None => StringField::Missing,
        Some(val) => match val.as_str() {
            Some(s) => StringField::Text(s.to_owned()),
            None => StringField::WrongType,
        },
    }
}

/// Relies on `serde_json::Value::get` and `Value::as_object`: looks a key
/// up and keeps its value only when it is an object. The outcome is
/// deterministic in the value and the key, which `table_field_of` names.
#[verifier::external_body]
pub(crate) fn get_table_field(v: &serde_json::Value, key: &str) -> (r: TableField)
    ensures
        r == table_field_of(*v, key@),
{
    match v.get(key) {
        None => TableField::Missing,
        Some(val) => match val.as_object() {
            Some(m) => TableField::Table(m.clone()),
            None => TableField::WrongType,
        },
    }
}

/// Relies on `serde_json::Map::new`: the empty table.
#[verifier::external_body]
pub(crate) fn empty_table() -> (r: serde_json::Map<String, serde_json::Value>)
    ensures
        table_size(r) == 0,
{
    serde_json::Map::new()
}

} // verus!
