//! Content fingerprints: a fast, deterministic 64-bit hash of a window's
//! encoded image bytes, used as the sole change-detection key.

use vstd::prelude::*;

verus! {

/// The fingerprint of a byte sequence: the 64-bit MetroHash digest, seeded
/// with 0. Left uninterpreted here; it is a function of the bytes alone.
pub uninterp spec fn metro_of(bytes: Seq<u8>) -> u64;

/// Relies on metrohash::MetroHash64: `new` seeds the state with the constant
/// 0, and `write` followed by `finish` computes a digest that depends on the
/// written bytes alone — no per-process salt, no time-based seed — so equal
/// bytes give equal digests across runs and machines.
#[verifier::external_body]
pub(crate) fn metro64(bytes: &Vec<u8>) -> (h: u64)
    ensures
        h == metro_of(bytes@),
{
    let mut hasher = metrohash::MetroHash64::new();
    std::hash::Hasher::write(&mut hasher, bytes.as_slice());
    std::hash::Hasher::finish(&hasher)
}

/// Law: fingerprinting is deterministic — byte-identical content always
/// carries the same fingerprint, on every tick and every machine.
pub proof fn lemma_fingerprint_deterministic(a: Seq<u8>, b: Seq<u8>)
    requires
        a == b,
    ensures
        metro_of(a) == metro_of(b),
{
}

} // verus!
