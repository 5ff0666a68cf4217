//! Generation of fresh entity identifiers.

use vstd::prelude::*;

verus! {

/// Relies on uuid::Uuid::new_v4: a freshly drawn random 128-bit identifier,
/// rendered in its hyphenated form. Nothing is promised of the value; the
/// store itself checks it against the identifiers already present.
#[verifier::external_body]
pub(crate) fn fresh_uuid() -> (r: String) {
    uuid::Uuid::new_v4().to_string()
}

} // verus!
