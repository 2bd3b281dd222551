//! CRC-32 checksums.

use vstd::prelude::*;

use crate::codec::push_bytes;

verus! {

/// The CRC-32 (IEEE) checksum of a byte string, as `crc32fast` computes it.
pub uninterp spec fn crc32(bytes: Seq<u8>) -> u32;

/// `crc32fast::hash`: the checksum of `bytes`. What the checksum of given bytes
/// is stays unsaid, only that it is a function of the bytes.
#[verifier::external_body]
pub(crate) fn crc32_of(bytes: &[u8]) -> (sum: u32)
    ensures
        sum == crc32(bytes@),
{
    crc32fast::hash(bytes)
}

/// The checksum of `head` followed by `tail`.
pub fn crc32_of_parts(head: &[u8], tail: &[u8]) -> (sum: u32)
    ensures
        sum == crc32(head@ + tail@),
{
    let mut bytes: Vec<u8> = Vec::new();
    push_bytes(&mut bytes, head);
    push_bytes(&mut bytes, tail);
    assert(bytes@ =~= head@ + tail@);
    crc32_of(bytes.as_slice())
}

} // verus!
