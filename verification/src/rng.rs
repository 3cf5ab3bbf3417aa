//! The crate's single source of randomness: one trusted wrapper shared by
//! the sampler's probe draws and the flow model's precipitation draws.

use vstd::prelude::*;

verus! {

/// Relies on rand::random::<u64>: an arbitrary 64-bit draw; nothing is
/// assumed about its value.
#[verifier::external_body]
pub(crate) fn random_u64() -> u64 {
    rand::random::<u64>()
}

} // verus!
