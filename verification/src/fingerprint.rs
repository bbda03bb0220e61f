//! The 64-bit FNV-1a hash that fingerprints are made with. The hashing is
//! done by the `fnv_rs` crate.

use fnv_rs::Fnv64;
use std::hash::Hasher;
use vstd::prelude::*;

verus! {

/// `fnv_rs::Fnv64`, the hasher.
#[verifier::external_type_specification]
#[verifier::external_body]
pub struct ExFnv64(Fnv64);

/// The hash of no bytes.
pub const FNV_OFFSET_BASIS: u64 = 0xcbf2_9ce4_8422_2325;

/// The factor of each step.
pub const FNV_PRIME: u64 = 0x0000_0100_0000_01b3;

/// The bytes that a hasher has been fed so far, in order.
pub uninterp spec fn hashed_bytes(h: Fnv64) -> Seq<u8>;

/// The FNV-1a hash of `bytes`: starting from the offset basis, each byte is
/// xored into the hash, which is then multiplied by the prime, modulo 2^64.
pub open spec fn fnv1a(bytes: Seq<u8>) -> u64
    decreases bytes.len(),
{
    if bytes.len() == 0 {
        FNV_OFFSET_BASIS
    } else {
        (((fnv1a(bytes.drop_last()) ^ (bytes.last() as u64)) as int * FNV_PRIME as int)
            % 0x1_0000_0000_0000_0000) as u64
    }
}

/// `Fnv64::default`. Trusted: a new hasher has been fed nothing.
#[verifier::external_body]
pub(crate) fn hasher_new() -> (h: Fnv64)
    ensures
        hashed_bytes(h) == Seq::<u8>::empty(),
{
    Fnv64::default()
}

/// `Hasher::write` of `Fnv64`. Trusted: the bytes are taken in after those
/// already fed.
#[verifier::external_body]
pub(crate) fn hasher_write(h: &mut Fnv64, bytes: &[u8])
    ensures
        hashed_bytes(*final(h)) == hashed_bytes(*old(h)) + bytes@,
{
    h.write(bytes)
}

/// `Hasher::finish` of `Fnv64`. Trusted: the result is the FNV-1a hash of
/// all the bytes fed, and the hasher is left as it was.
#[verifier::external_body]
pub(crate) fn hasher_finish(h: &Fnv64) -> (r: u64)
    ensures
        r == fnv1a(hashed_bytes(*h)),
{
    h.finish()
}

} // verus!
