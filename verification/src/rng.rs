//! The random-byte capability, drawn from the `rand` crate.
//!
//! Nothing is assumed of the bytes that come back: every caller is
//! verified for every value a draw may produce.

use vstd::prelude::*;

verus! {

/// The `rand` crate's thread-local generator, as an opaque type.
#[verifier::external_type_specification]
#[verifier::external_body]
pub struct ExThreadRng(rand::rngs::ThreadRng);

/// Relies on `rand::thread_rng`: a handle to the thread-local generator.
/// Nothing is assumed of the values it will produce.
#[verifier::external_body]
pub(crate) fn fresh_rng() -> rand::rngs::ThreadRng {
    rand::thread_rng()
}

/// Relies on `rand::Rng::gen::<u8>`: one byte, uniform over `[0, 255]`.
/// No contract pins the byte down; callers must hold for every outcome.
#[verifier::external_body]
pub(crate) fn random_byte(rng: &mut rand::rngs::ThreadRng) -> u8 {
    rand::Rng::gen::<u8>(rng)
}

} // verus!
