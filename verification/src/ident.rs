//! Identifiers that nobody can guess.

use vstd::prelude::*;

verus! {

/// A fresh random identifier. Trusted: calls `uuid::Uuid::new_v4` and writes
/// the result in its hyphenated form; nothing is claimed of the value, which is
/// random.
#[verifier::external_body]
pub(crate) fn new_uuid() -> (id: String) {
    uuid::Uuid::new_v4().to_string()
}

} // verus!
