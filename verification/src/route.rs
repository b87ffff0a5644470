//! Dispatch on the request target: which of the engine's endpoints a target
//! names.

use vstd::prelude::*;
use vstd::string::StringSliceAdditionalSpecFns;

use crate::ascii::bytes_eq;

verus! {

/// Where a request target leads: the move endpoint, which reads a body; a
/// plain acknowledgement endpoint; or nowhere.
#[derive(Clone, Copy, Debug, PartialEq, Eq, Structural)]
pub enum Route {
    Move,
    Ack,
    NotFound,
}

/// The route a raw target names.
pub open spec fn spec_route(url: Seq<u8>) -> Route {
    if url == "/move".spec_bytes() {
        Route::Move
    } else if url == "/start".spec_bytes() || url == "/end".spec_bytes() || url
        == "/ping".spec_bytes() {
        Route::Ack
    } else {
        Route::NotFound
    }
}

/// Dispatch a raw request target.
pub fn route(url: &[u8]) -> (r: Route)
    ensures
        r == spec_route(url@),
{
    if bytes_eq(url, "/move".as_bytes()) {
        Route::Move
    } else if bytes_eq(url, "/start".as_bytes()) || bytes_eq(url, "/end".as_bytes()) || bytes_eq(
        url,
        "/ping".as_bytes(),
    ) {
        Route::Ack
    } else {
        Route::NotFound
    }
}

} // verus!
