//! The JSON boundary: the one outside crate the codec leans on. The values
//! themselves are opaque here; what the engine proves about them is phrased
//! over the names below.

use vstd::prelude::*;

verus! {

#[verifier::external_type_specification]
#[verifier::external_body]
pub struct ExValue(serde_json::Value);

#[verifier::external_type_specification]
#[verifier::external_body]
pub struct ExJsonError(serde_json::Error);

/// The byte serialization `serde_json::to_vec` gives a JSON value: a function
/// of the value alone (maps are ordered, so the compact bytes are canonical).
pub uninterp spec fn json_bytes(v: serde_json::Value) -> Seq<u8>;

/// The JSON value `serde_json::from_slice` reads from a byte string, if any:
/// a function of the bytes alone.
pub uninterp spec fn json_value_of(b: Seq<u8>) -> Option<serde_json::Value>;

/// Whether a value nests within the recursion limit of serde_json's parser.
/// The serializer has no depth limit, but the parser refuses input nested
/// deeper than its fixed limit, so only a value within it is owed a round
/// trip. Every value the parser itself produced is within the limit.
pub uninterp spec fn within_parse_depth(v: serde_json::Value) -> bool;

/// Relies on serde_json::to_vec: serializing a `serde_json::Value` cannot
/// fail (failure would need a failing `Serialize` impl or a non-string map
/// key, and writing to a `Vec` cannot fail), and the compact serialization is
/// a function of the value alone. The round trip relies on
/// serde_json::from_slice with the `float_roundtrip` feature this crate
/// enables, under which parsing a serialized float gives back the identical
/// value; it holds of every value that nests within the parser's recursion
/// limit.
#[verifier::external_body]
pub(crate) fn to_json_bytes(v: &serde_json::Value) -> (r: Result<Vec<u8>, serde_json::Error>)
    ensures
        r is Ok,
        r matches Ok(b) ==> b@ == json_bytes(*v),
        r matches Ok(b) ==> (within_parse_depth(*v) ==> json_value_of(b@) == Some(*v)),
{
    serde_json::to_vec(v)
}

/// Relies on serde_json::from_slice: the value a byte string parses to, or
/// the refusal, is a function of the bytes alone, and any value it returns
/// nests within the parser's own recursion limit, which it enforces.
#[verifier::external_body]
pub(crate) fn from_json_bytes(b: &[u8]) -> (r: Result<serde_json::Value, serde_json::Error>)
    ensures
        match r {
            Ok(v) => json_value_of(b@) == Some(v) && within_parse_depth(v),
            Err(_) => json_value_of(b@) is None,
        },
{
    serde_json::from_slice(b)
}

} // verus!
