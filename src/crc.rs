//! The CRC-24Q checksum that protects each frame.

use vstd::prelude::*;

verus! {

/// CRC-24Q of a byte string: polynomial 0x1864CFB, initial register 0, no
/// reflection, no final XOR.
pub uninterp spec fn crc24q_of(data: Seq<u8>) -> u64;

/// Relies on crc_any::CRC (`create_crc`, `digest`, `get_crc`) for CRC-24Q:
/// a fresh instance per call, so the result depends on `data` alone, and
/// `get_crc` masks the register to its 24 bits.
#[verifier::external_body]
pub(crate) fn crc24q(data: &[u8]) -> (r: u64)
    ensures
        r == crc24q_of(data@),
        r < 0x100_0000,
{
    let mut crc = crc_any::CRC::create_crc(0x1864CFB, 24, 0, 0, false);
    crc.digest(data);
    crc.get_crc()
}

} // verus!
