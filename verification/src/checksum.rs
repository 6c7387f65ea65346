//! The checksums that guard programs and messages. They are computed by the
//! `crc` and `crc16` crates; this module gives their results a name.

use vstd::prelude::*;

verus! {

/// The CRC-16/XMODEM checksum of a byte string, as the `crc` crate computes
/// it: a function of the bytes alone.
pub uninterp spec fn crc16_xmodem(data: Seq<u8>) -> u16;

/// The XMODEM checksum of a byte string, as the `crc16` crate computes it: a
/// function of the bytes alone.
pub uninterp spec fn crc16_state_xmodem(data: Seq<u8>) -> u16;

/// Calls `crc::Crc::<u16>::checksum` for the algorithm `CRC_16_XMODEM`. The
/// contract only names the result: the same bytes give the same checksum.
#[verifier::external_body]
pub(crate) fn checksum_xmodem(data: &[u8]) -> (r: u16)
    ensures
        r == crc16_xmodem(data@),
{
    crc::Crc::<u16>::new(&crc::CRC_16_XMODEM).checksum(data)
}

/// Calls `crc16::State::<XMODEM>::calculate`. The contract only names the
/// result: the same bytes give the same checksum.
#[verifier::external_body]
pub(crate) fn calculate_xmodem(data: &[u8]) -> (r: u16)
    ensures
        r == crc16_state_xmodem(data@),
{
    crc16::State::<crc16::XMODEM>::calculate(data)
}

} // verus!
