//! The two cyclic redundancy checks that protect a package's payload.
//!
//! Both are computed by the `crc` crate. Their values are functions of the
//! bytes alone, so each gets a name that contracts can speak of; what the
//! polynomials do to the bytes is not restated here.

use vstd::prelude::*;

verus! {

/// The CRC-8/BLUETOOTH checksum of `bytes`, as the `crc` crate computes it.
pub uninterp spec fn crc8_bluetooth(bytes: Seq<u8>) -> u8;

/// The CRC-16/IBM-SDLC (X.25) checksum of `bytes`, as the `crc` crate
/// computes it.
pub uninterp spec fn crc16_ibm_sdlc(bytes: Seq<u8>) -> u16;

/// `Crc::<u8>::checksum` with the catalogue's `CRC_8_BLUETOOTH` algorithm.
/// The contract only gives the result its name.
#[verifier::external_body]
pub(crate) fn checksum8(bytes: &[u8]) -> (r: u8)
    ensures
        r == crc8_bluetooth(bytes@),
{
    crc::Crc::<u8>::new(&crc::CRC_8_BLUETOOTH).checksum(bytes)
}

/// `Crc::<u16>::checksum` with the catalogue's `CRC_16_IBM_SDLC` algorithm.
/// The contract only gives the result its name.
#[verifier::external_body]
pub(crate) fn checksum16(bytes: &[u8]) -> (r: u16)
    ensures
        r == crc16_ibm_sdlc(bytes@),
{
    crc::Crc::<u16>::new(&crc::CRC_16_IBM_SDLC).checksum(bytes)
}

} // verus!
