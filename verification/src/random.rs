//! Numbers drawn at random.

use vstd::prelude::*;

verus! {

/// Draws a 32-bit number with `rand::random`, from the generator of the
/// calling thread. Nothing is claimed of the number: any may come.
#[verifier::external_body]
pub(crate) fn random_u32() -> u32 {
    rand::random::<u32>()
}

/// Draws a pointer-sized number with `rand::random`, from the generator of
/// the calling thread. Nothing is claimed of the number: any may come.
#[verifier::external_body]
pub(crate) fn random_usize() -> usize {
    rand::random::<usize>()
}

} // verus!
