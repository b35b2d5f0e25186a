//! The CRC-32 checksum that guards every chunk.

use crc::{Crc, CRC_32_ISO_HDLC};
use vstd::prelude::*;

verus! {

/// The CRC-32/ISO-HDLC checksum of a byte string: the variant used by PNG and
/// zlib. Its value is whatever the `crc` crate computes; nothing else is
/// assumed of it.
pub uninterp spec fn crc32(bytes: Seq<u8>) -> u32;

/// Computes the CRC-32/ISO-HDLC checksum of `bytes`.
///
/// Trusted: calls `crc::Crc::<u32>::new(&CRC_32_ISO_HDLC)` and then
/// `Crc::checksum` on the result. The checksum is a function of the bytes
/// alone, and the contract does no more than give that function its name.
#[verifier::external_body]
pub(crate) fn calculate_crc(bytes: &[u8]) -> (sum: u32)
    ensures
        sum == crc32(bytes@),
{
    let crc_algo: Crc<u32> = Crc::<u32>::new(&CRC_32_ISO_HDLC);
    crc_algo.checksum(bytes)
}

} // verus!
