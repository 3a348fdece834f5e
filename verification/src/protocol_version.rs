use vstd::prelude::*;

use crate::net::constants::PROTOCOL_VERSION;
use vstd::string::StringSliceAdditionalSpecFns;

verus! {

/// One bit step of the reflected CRC-16/X-25 register (polynomial 0x8408).
pub open spec fn crc_bit_step(c: u16) -> u16 {
    if c & 1u16 == 1u16 {
        (c >> 1u16) ^ 0x8408u16
    } else {
        c >> 1u16
    }
}

/// The register after `n` bit steps from `c`.
pub open spec fn crc_bits(c: u16, n: nat) -> u16
    decreases n,
{
    if n == 0 {
        c
    } else {
        crc_bit_step(crc_bits(c, (n - 1) as nat))
    }
}

/// The register after feeding one byte.
pub open spec fn crc_byte_step(c: u16, b: u8) -> u16 {
    crc_bits(c ^ (b as u16), 8)
}

/// The register after feeding `bytes`, starting from all ones.
pub open spec fn crc_register(bytes: Seq<u8>) -> u16
    decreases bytes.len(),
{
    if bytes.len() == 0 {
        0xFFFFu16
    } else {
        crc_byte_step(crc_register(bytes.drop_last()), bytes.last())
    }
}

/// The CRC-16/X-25 checksum of `bytes`: the register, inverted.
pub open spec fn crc16_x25(bytes: Seq<u8>) -> u16 {
    !crc_register(bytes)
}

/// The checksum that stands for the current protocol version in every packet header.
pub open spec fn protocol_crc16() -> u16 {
    crc16_x25(PROTOCOL_VERSION.spec_bytes())
}

fn crc_step_byte(c: u16, b: u8) -> (r: u16)
    ensures
        r == crc_byte_step(c, b),
{
    let start = c ^ (b as u16);
    let mut reg = start;
    let mut k: u8 = 0;
    while k < 8
        invariant
            k <= 8,
            reg == crc_bits(start, k as nat),
        decreases 8 - k,
    {
        reg = if reg & 1u16 == 1u16 {
            (reg >> 1u16) ^ 0x8408u16
        } else {
            reg >> 1u16
        };
        k = k + 1;
    }
    reg
}

/// Computes the CRC-16/X-25 checksum of `bytes`.
pub fn checksum_x25(bytes: &[u8]) -> (crc: u16)
    ensures
        crc == crc16_x25(bytes@),
{
    let mut reg: u16 = 0xFFFF;
    let mut i: usize = 0;
    while i < bytes.len()
        invariant
            i <= bytes.len(),
            reg == crc_register(bytes@.take(i as int)),
        decreases bytes.len() - i,
    {
        proof {
            assert(bytes@.take(i + 1).drop_last() =~= bytes@.take(i as int));
        }
        reg = crc_step_byte(reg, bytes[i]);
        i = i + 1;
    }
    proof {
        assert(bytes@.take(bytes.len() as int) =~= bytes@);
    }
    !reg
}

/// Wrapper to provide some functions to perform with the current protocol version.
pub struct ProtocolVersion;

impl ProtocolVersion {
    /// Returns the current protocol version.
    pub fn get_version() -> (version: &'static str)
        ensures
            version@ == PROTOCOL_VERSION@,
    {
        PROTOCOL_VERSION
    }

    /// Returns the CRC-16/X-25 checksum of the current protocol version.
    pub fn get_crc16() -> (crc: u16)
        ensures
            crc == protocol_crc16(),
    {
        checksum_x25(PROTOCOL_VERSION.as_bytes())
    }

    /// Validates that the given checksum is the one of the current protocol version.
    pub fn valid_version(protocol_version_crc16: u16) -> (valid: bool)
        ensures
            valid == (protocol_version_crc16 == protocol_crc16()),
    {
        protocol_version_crc16 == ProtocolVersion::get_crc16()
    }
}

} // verus!
