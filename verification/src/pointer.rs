//! The packed form of a slot address: seven little-endian bytes, with the eighth byte
//! of the word left free.

use vstd::prelude::*;

verus! {

/// Number of addresses that the packed form can tell apart, `2^56`.
pub const ADDRESS_LIMIT: u64 = 0x0100_0000_0000_0000;

/// The address that seven little-endian bytes stand for.
pub open spec fn packed_address(bytes: Seq<u8>) -> nat
    recommends
        bytes.len() == 7,
{
    (bytes[0] as nat) + (bytes[1] as nat) * 0x100 + (bytes[2] as nat) * 0x1_0000 + (
    bytes[3] as nat) * 0x100_0000 + (bytes[4] as nat) * 0x1_0000_0000 + (bytes[5] as nat)
        * 0x100_0000_0000 + (bytes[6] as nat) * 0x1_0000_0000_0000
}

/// Splits a word into its seven low bytes, least significant first, and its high byte.
pub fn deconstruct_pointer(address: u64) -> (parts: ([u8; 7], u8))
    ensures
        packed_address(parts.0@) == address % 0x0100_0000_0000_0000,
        parts.1 == address / 0x0100_0000_0000_0000,
{
    let b0: u8 = (address & 0xff) as u8;
    let b1: u8 = ((address >> 8) & 0xff) as u8;
    let b2: u8 = ((address >> 16) & 0xff) as u8;
    let b3: u8 = ((address >> 24) & 0xff) as u8;
    let b4: u8 = ((address >> 32) & 0xff) as u8;
    let b5: u8 = ((address >> 40) & 0xff) as u8;
    let b6: u8 = ((address >> 48) & 0xff) as u8;
    let high: u8 = ((address >> 56) & 0xff) as u8;
    proof {
        assert(address & 0xff <= 0xff && (address >> 8) & 0xff <= 0xff && (address >> 16) & 0xff
            <= 0xff && (address >> 24) & 0xff <= 0xff && (address >> 32) & 0xff <= 0xff && (address
            >> 40) & 0xff <= 0xff && (address >> 48) & 0xff <= 0xff && (address >> 56) & 0xff
            <= 0xff) by (bit_vector);
        assert((address & 0xff) + ((address >> 8) & 0xff) * 0x100 + ((address >> 16) & 0xff)
            * 0x1_0000 + ((address >> 24) & 0xff) * 0x100_0000 + ((address >> 32) & 0xff)
            * 0x1_0000_0000 + ((address >> 40) & 0xff) * 0x100_0000_0000 + ((address >> 48) & 0xff)
            * 0x1_0000_0000_0000 == address % 0x0100_0000_0000_0000) by (bit_vector);
        assert((address >> 56) & 0xff == address / 0x0100_0000_0000_0000) by (bit_vector);
    }
    ([b0, b1, b2, b3, b4, b5, b6], high)
}

/// Puts a word together from its seven low bytes, least significant first, and its
/// high byte.
pub fn construct_pointer(pointer: [u8; 7], weight: u8) -> (address: u64)
    ensures
        address == packed_address(pointer@) + (weight as nat) * 0x0100_0000_0000_0000,
{
    let b0: u64 = pointer[0] as u64;
    let b1: u64 = pointer[1] as u64;
    let b2: u64 = pointer[2] as u64;
    let b3: u64 = pointer[3] as u64;
    let b4: u64 = pointer[4] as u64;
    let b5: u64 = pointer[5] as u64;
    let b6: u64 = pointer[6] as u64;
    let b7: u64 = weight as u64;
    proof {
        assert(b0 | (b1 << 8) | (b2 << 16) | (b3 << 24) | (b4 << 32) | (b5 << 40) | (b6 << 48) | (b7
            << 56) == b0 + b1 * 0x100 + b2 * 0x1_0000 + b3 * 0x100_0000 + b4 * 0x1_0000_0000 + b5
            * 0x100_0000_0000 + b6 * 0x1_0000_0000_0000 + b7 * 0x0100_0000_0000_0000)
            by (bit_vector)
            requires
                b0 <= 0xff,
                b1 <= 0xff,
                b2 <= 0xff,
                b3 <= 0xff,
                b4 <= 0xff,
                b5 <= 0xff,
                b6 <= 0xff,
                b7 <= 0xff,
        ;
    }
    b0 | (b1 << 8) | (b2 << 16) | (b3 << 24) | (b4 << 32) | (b5 << 40) | (b6 << 48) | (b7 << 56)
}

/// Seven bytes never reach the address limit.
pub proof fn lemma_packed_address_bound(bytes: Seq<u8>)
    requires
        bytes.len() == 7,
    ensures
        packed_address(bytes) < ADDRESS_LIMIT,
{
}

/// Taking a word apart and putting it together again gives the word back.
pub proof fn lemma_pointer_round_trip(address: u64, bytes: Seq<u8>, high: u8)
    requires
        bytes.len() == 7,
        packed_address(bytes) == address % 0x0100_0000_0000_0000,
        high == address / 0x0100_0000_0000_0000,
    ensures
        packed_address(bytes) + (high as nat) * 0x0100_0000_0000_0000 == address,
{
}

} // verus!
