//! The hash capability a filter consumes, and its MurmurHash3 implementation.
use vstd::prelude::*;

verus! {

/// A deterministic map from a seed and a byte sequence to a 32-bit value.
///
/// `spec_hash` names that map; `hash` must compute it. Because the result
/// depends on `(seed, bytes)` alone, a query re-derives exactly the positions
/// that an earlier insertion of the same bytes set.
pub trait BloomHasher {
    /// The value `hash` returns for `seed` and `bytes`.
    spec fn spec_hash(&self, seed: u32, bytes: Seq<u8>) -> u32;

    /// Returns the hashed value of the bytes given some seed.
    ///
    /// Inputs are at most `u32::MAX` bytes long: the MurmurHash3 variant
    /// counts the bytes it has processed in 32 bits.
    fn hash(&self, seed: u32, bytes: &[u8]) -> (r: u32)
        requires
            bytes@.len() <= u32::MAX,
        ensures
            r == self.spec_hash(seed, bytes@),
    ;
}

/// The 32-bit x86 variant of MurmurHash3 of `bytes` with `seed` as its salt.
pub uninterp spec fn murmur3_32_of(seed: u32, bytes: Seq<u8>) -> u32;

/// Relies on `murmur3::murmur3_32`: the hash of everything the reader yields,
/// which is a function of the seed and those bytes alone. Reading from a
/// cursor over a slice never fails, so the `Err` arm is never taken. Its
/// byte counter is a `u32`, which overflows on inputs of 2^32 bytes or more;
/// `requires` leaves those out.
#[verifier::external_body]
fn murmur3_32_of_slice(seed: u32, bytes: &[u8]) -> (r: u32)
    requires
        bytes@.len() <= u32::MAX,
    ensures
        r == murmur3_32_of(seed, bytes@),
{
    murmur3::murmur3_32(&mut std::io::Cursor::new(bytes), seed).expect("reading a slice cannot fail")
}

/// A unit struct for the murmur3 hash function.
pub struct Murmur3;

impl BloomHasher for Murmur3 {
    open spec fn spec_hash(&self, seed: u32, bytes: Seq<u8>) -> u32 {
        murmur3_32_of(seed, bytes)
    }

    fn hash(&self, seed: u32, bytes: &[u8]) -> (r: u32) {
        murmur3_32_of_slice(seed, bytes)
    }
}

} // verus!
