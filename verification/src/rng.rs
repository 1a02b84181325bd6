use vstd::prelude::*;

verus! {

/// Relies on rand::random: draws one byte from the thread-local
/// generator. Nothing is promised of the value; every caller states what
/// holds of each possible outcome.
#[verifier::external_body]
pub(crate) fn random_u8() -> u8 {
    rand::random::<u8>()
}

} // verus!
