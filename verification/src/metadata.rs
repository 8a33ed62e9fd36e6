//! The key-value metadata of a GGUF file.

use vstd::prelude::*;

use crate::float::{widen, widened_single};
use crate::name_map::NameMap;

verus! {

/// One metadata value. The two fractions are held as the bit patterns of their
/// numbers.
#[derive(Debug)]
pub enum GgufMetadataValue {
    UInt8(u8),
    Int8(i8),
    UInt16(u16),
    Int16(i16),
    UInt32(u32),
    Int32(i32),
    Float32(u32),
    Bool(bool),
    String(String),
    Array(Vec<GgufMetadataValue>),
    UInt64(u64),
    Int64(i64),
    Float64(u64),
}

/// The metadata of a file, by its keys.
pub type GgufMetadata = NameMap<GgufMetadataValue>;

/// What metadata says, by its keys.
pub type MetadataView = Map<Seq<char>, GgufMetadataValue>;

/// The text under a key, where a text stands there.
pub open spec fn string_at(metadata: MetadataView, key: Seq<char>) -> Option<Seq<char>> {
    match metadata.get(key) {
        Some(GgufMetadataValue::String(text)) => Some(text@),
        _ => None,
    }
}

/// The count under a key, where a 32-bit or 64-bit unsigned number stands there.
pub open spec fn uint_at(metadata: MetadataView, key: Seq<char>) -> Option<u64> {
    match metadata.get(key) {
        Some(GgufMetadataValue::UInt32(value)) => Some(value as u64),
        Some(GgufMetadataValue::UInt64(value)) => Some(value),
        _ => None,
    }
}

/// The fraction under a key, in double precision, where one stands there.
pub open spec fn float_at(metadata: MetadataView, key: Seq<char>) -> Option<u64> {
    match metadata.get(key) {
        Some(GgufMetadataValue::Float32(bits)) => Some(widened_single(bits)),
        Some(GgufMetadataValue::Float64(bits)) => Some(bits),
        _ => None,
    }
}

/// The texts among values, in order.
pub open spec fn texts_among(values: Seq<GgufMetadataValue>) -> Seq<Seq<char>>
    decreases values.len(),
{
    if values.len() == 0 {
        Seq::empty()
    } else {
        let before = texts_among(values.drop_last());
        match values.last() {
            GgufMetadataValue::String(text) => before.push(text@),
            _ => before,
        }
    }
}

/// The texts of the array under a key, where an array stands there.
pub open spec fn texts_at(metadata: MetadataView, key: Seq<char>) -> Option<Seq<Seq<char>>> {
    match metadata.get(key) {
        Some(GgufMetadataValue::Array(values)) => Some(texts_among(values@)),
        _ => None,
    }
}

/// Borrowed texts by their views.
pub open spec fn text_views(texts: Seq<&str>) -> Seq<Seq<char>> {
    Seq::new(texts.len(), |at: int| texts[at]@)
}

/// The text under `key`.
pub fn string_value<'a>(metadata: &'a GgufMetadata, key: &str) -> (text: Option<&'a str>)
    ensures
        text is Some <==> string_at(metadata@, key@) is Some,
        text matches Some(text) ==> Some(text@) == string_at(metadata@, key@),
{
    match metadata.get(key) {
        Some(GgufMetadataValue::String(text)) => Some(text.as_str()),
        _ => None,
    }
}

/// The count under `key`: a 32-bit or a 64-bit unsigned number.
pub fn uint_value(metadata: &GgufMetadata, key: &str) -> (count: Option<u64>)
    ensures
        count == uint_at(metadata@, key@),
{
    match metadata.get(key) {
        Some(GgufMetadataValue::UInt32(value)) => Some(*value as u64),
        Some(GgufMetadataValue::UInt64(value)) => Some(*value),
        _ => None,
    }
}

/// The fraction under `key`, in double precision.
pub fn float_value(metadata: &GgufMetadata, key: &str) -> (bits: Option<u64>)
    ensures
        bits == float_at(metadata@, key@),
{
    match metadata.get(key) {
        Some(GgufMetadataValue::Float32(bits)) => Some(widen(*bits)),
        Some(GgufMetadataValue::Float64(bits)) => Some(*bits),
        _ => None,
    }
}

/// The texts of the array under `key`; what is no text is passed over.
pub fn string_array<'a>(metadata: &'a GgufMetadata, key: &str) -> (texts: Option<Vec<&'a str>>)
    ensures
        texts is Some <==> texts_at(metadata@, key@) is Some,
        texts matches Some(texts) ==> Some(text_views(texts@)) == texts_at(metadata@, key@),
{
    match metadata.get(key) {
        Some(GgufMetadataValue::Array(values)) => {
            let mut texts: Vec<&'a str> = Vec::new();
            let mut at: usize = 0;
            assert(text_views(texts@) =~= texts_among(values@.take(0)));
            while at < values.len()
                invariant
                    at <= values@.len(),
                    text_views(texts@) == texts_among(values@.take(at as int)),
                decreases values@.len() - at,
            {
                let ghost before = texts@;
                proof {
                    assert(values@.take(at + 1).drop_last() =~= values@.take(at as int));
                    assert(values@.take(at + 1).last() == values@[at as int]);
                }
                match &values[at] {
                    GgufMetadataValue::String(text) => {
                        texts.push(text.as_str());
                        assert(text_views(texts@) =~= text_views(before).push(text@));
                    },
                    _ => {},
                }
                at += 1;
            }
            assert(values@.take(at as int) =~= values@);
            Some(texts)
        },
        _ => None,
    }
}

} // verus!
