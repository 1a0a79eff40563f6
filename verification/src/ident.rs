//! Fresh identifiers.

use uuid::Uuid;
use vstd::prelude::*;

verus! {

/// `Uuid::new_v4`, read as a 128-bit integer with `Uuid::as_u128`. The
/// identifier is drawn at random, so nothing is claimed about it. Where
/// the operating system has no randomness to give, `Uuid::new_v4` does
/// not return, and neither does this wrapper.
#[verifier::external_body]
pub(crate) fn random_uuid() -> (id: u128) {
    Uuid::new_v4().as_u128()
}

} // verus!
