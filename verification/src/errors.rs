//! The failures that framing a request or a response can produce.

use vstd::prelude::*;

verus! {

/// A malformed request head.
#[derive(Clone, Copy, Debug, PartialEq, Eq, Structural)]
pub enum ParseError {
    /// The first token of the request line is not a recognized method.
    UnknownMethod,
    /// The request line has a method but no target.
    MissingTarget,
    /// A header line has fewer than two tokens.
    MalformedHeader,
    /// The content-length value is not a plain decimal that fits in `usize`.
    InvalidContentLength,
}

/// A body that could not be decoded.
#[derive(Clone, Copy, Debug, PartialEq, Eq, Structural)]
pub enum DecodeError {
    /// A body read was asked for before any request head was read.
    NoRequest,
    /// The body bytes are not the JSON of any value.
    Malformed,
}

/// A value that could not be encoded. The engine's own JSON writer never
/// produces this — serializing a JSON value cannot fail — but the failure
/// stays representable for the handler's sake.
#[derive(Clone, Copy, Debug, PartialEq, Eq, Structural)]
pub enum EncodeError {
    /// Serialization itself failed.
    Serialize,
}

} // verus!
