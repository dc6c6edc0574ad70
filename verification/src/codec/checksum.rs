//! CRC-32, as the `crc32fast` crate computes it.

use crc32fast::Hasher;
use vstd::prelude::*;

verus! {

/// A running checksum of the `crc32fast` crate.
#[verifier::external_type_specification]
#[verifier::external_body]
pub struct ExHasher(Hasher);

/// A running checksum that began with nothing taken in, and has taken in what was handed to it
/// since.
pub struct RunningCrc {
    hasher: Hasher,
}

/// The CRC-32 that `crc32fast::hash` gives for `data`.
pub uninterp spec fn crc32(data: Seq<u8>) -> u32;

/// The bytes that a running checksum has taken in.
pub uninterp spec fn hashed(h: RunningCrc) -> Seq<u8>;

/// `crc32fast::hash`: the checksum of a buffer, which depends on its bytes alone.
#[verifier::external_body]
pub(crate) fn crc32_of(data: &[u8]) -> (r: u32)
    ensures
        r == crc32(data@),
{
    crc32fast::hash(data)
}

/// `Hasher::new`: a running checksum that has taken in nothing.
#[verifier::external_body]
pub(crate) fn hasher_new() -> (r: RunningCrc)
    ensures
        hashed(r) == Seq::<u8>::empty(),
{
    RunningCrc { hasher: Hasher::new() }
}

/// `Hasher::update`: takes in the bytes of `data` behind the earlier ones. The crate counts them
/// in a `u64`.
#[verifier::external_body]
pub(crate) fn hasher_update(h: &mut RunningCrc, data: &[u8])
    requires
        hashed(*old(h)).len() + data@.len() <= u64::MAX,
    ensures
        hashed(*final(h)) == hashed(*old(h)) + data@,
{
    h.hasher.update(data);
}

/// `Hasher::finalize`: the checksum of all bytes that were taken in, as `crc32fast::hash` gives
/// it for them in one piece.
#[verifier::external_body]
pub(crate) fn hasher_finalize(h: RunningCrc) -> (r: u32)
    ensures
        r == crc32(hashed(h)),
{
    h.hasher.finalize()
}

} // verus!
