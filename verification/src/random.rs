//! The random source: the `StdRng` generator of the `rand` crate.

use rand::rngs::StdRng;
use vstd::prelude::*;

verus! {

/// `rand::rngs::StdRng`, carried through as an opaque value.
#[verifier::external_type_specification]
#[verifier::external_body]
pub struct ExStdRng(StdRng);

/// Overwrites `buf` with the generator's next bytes, by `RngCore::fill_bytes`.
/// Nothing is claimed of the bytes themselves: the call writes to every
/// position of the slice it is given and cannot change its length.
#[verifier::external_body]
pub(crate) fn fill_random(rng: &mut StdRng, buf: &mut Vec<u8>)
    ensures
        final(buf)@.len() == old(buf)@.len(),
{
    rand::RngCore::fill_bytes(rng, buf.as_mut_slice());
}

} // verus!
