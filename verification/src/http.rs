//! The health endpoint: what it answers to a request.

use vstd::prelude::*;
use crate::text::same;

verus! {

/// How many workers serve the health endpoint.
pub const MAX_WORKERS: usize = 4;

/// The path the health endpoint answers on.
pub const INDEX: &'static str = "/";

/// What the health endpoint says where all is well.
pub const INDEX_BODY: &'static str = "OK";

/// The status of the answer to a request: `200` to a `GET` of the index,
/// `404` to a `GET` of anything else, `405` to any other method.
pub open spec fn status_of(get: bool, path: Seq<char>) -> u16 {
    if !get {
        405
    } else if path == INDEX@ {
        200
    } else {
        404
    }
}

/// The status of the answer to a request for `path`, which is a `GET` or is
/// not.
pub fn status(get: bool, path: &str) -> (code: u16)
    ensures
        code == status_of(get, path@),
{
    if !get {
        405
    } else if same(path, INDEX) {
        200
    } else {
        404
    }
}

} // verus!
