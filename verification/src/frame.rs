//! Layout of the 32-bit sample frames that the device streams.
//!
//! From the least significant bit up: 14 bits of ADC value, 3 bits of
//! measurement range, one unused bit, a 6-bit sample counter, and 8 logic port
//! bits. Frames arrive in little-endian byte order.

use vstd::arithmetic::div_mod::lemma_truncate_middle;
use vstd::arithmetic::mul::lemma_mul_is_commutative;
use vstd::arithmetic::power2::{
    lemma2_to64, lemma_pow2_adds, lemma_pow2_pos, lemma_pow2_strictly_increases, pow2,
};
use vstd::bits::{lemma_u32_low_bits_mask_is_mod, lemma_u32_shl_is_mul, lemma_u32_shr_is_div};
use vstd::prelude::*;

verus! {

/// The `bits` bits of `raw` that start at bit `pos`, as a number.
pub open spec fn field(raw: u32, bits: nat, pos: nat) -> nat {
    raw as nat / pow2(pos) % pow2(bits)
}

/// ADC value of a frame: bits 0 to 13.
pub open spec fn frame_adc(raw: u32) -> nat {
    raw as nat % 0x4000
}

/// Measurement range of a frame as it is transmitted: bits 14 to 16.
pub open spec fn frame_range(raw: u32) -> nat {
    raw as nat / 0x4000 % 8
}

/// Sample counter of a frame: bits 18 to 23.
pub open spec fn frame_counter(raw: u32) -> nat {
    raw as nat / 0x4_0000 % 64
}

/// Logic port bits of a frame: bits 24 to 31.
pub open spec fn frame_logic(raw: u32) -> nat {
    raw as nat / 0x100_0000
}

/// The frame whose little-endian bytes stand in `bytes` from `at` on.
pub open spec fn frame_at(bytes: Seq<u8>, at: int) -> u32 {
    (bytes[at] + 0x100 * bytes[at + 1] + 0x1_0000 * bytes[at + 2] + 0x100_0000 * bytes[at
        + 3]) as u32
}

/// The whole frames at the front of `bytes`. Up to three bytes at the end belong
/// to a frame that is not complete yet.
pub open spec fn frames(bytes: Seq<u8>) -> Seq<u32> {
    Seq::new(bytes.len() / 4, |k: int| frame_at(bytes, 4 * k))
}

/// The bytes behind the last whole frame of `bytes`.
pub open spec fn remainder(bytes: Seq<u8>) -> Seq<u8> {
    bytes.skip(4 * (bytes.len() as int / 4))
}

/// A mask of `bits` ones that starts at bit `pos`. What would stand above bit 31
/// is cut off.
pub fn generate_mask(bits: u32, pos: u32) -> (r: u32)
    requires
        bits < 32,
        pos < 32,
    ensures
        r == (pow2(bits as nat) - 1) * pow2(pos as nat) % 0x1_0000_0000,
{
    proof {
        lemma2_to64();
        lemma_pow2_pos(bits as nat);
        lemma_pow2_strictly_increases(bits as nat, 32);
        lemma_u32_shl_is_mul(1, bits);
        lemma_shl_cuts_off(((1u32 << bits) - 1) as u32, pos);
    }
    ((1u32 << bits) - 1) << pos
}

/// Shifting left multiplies by a power of two and drops what leaves the word.
proof fn lemma_shl_cuts_off(x: u32, pos: u32)
    requires
        pos < 32,
    ensures
        (x << pos) == x * pow2(pos as nat) % 0x1_0000_0000,
{
    lemma2_to64();
    lemma_pow2_pos(pos as nat);
    if pos == 0 {
        assert(x << 0u32 == x) by (bit_vector);
        assert(x * 1 == x);
    } else {
        let rest = (32 - pos) as u32;
        let kept: u32 = x & ((1u32 << rest) - 1) as u32;
        assert(x << pos == kept << pos) by (bit_vector)
            requires
                0 < pos < 32,
                rest == 32 - pos,
                kept == x & ((1u32 << rest) - 1) as u32,
        ;
        lemma_pow2_pos(rest as nat);
        lemma_pow2_strictly_increases(rest as nat, 32);
        lemma_u32_shl_is_mul(1, rest);
        lemma_u32_low_bits_mask_is_mod(x, rest as nat);
        assert(kept == x as nat % pow2(rest as nat));
        lemma_pow2_adds(pos as nat, rest as nat);
        lemma_truncate_middle(x as int, pow2(pos as nat) as int, pow2(rest as nat) as int);
        lemma_mul_is_commutative(x as int, pow2(pos as nat) as int);
        lemma_mul_is_commutative(kept as int, pow2(pos as nat) as int);
        lemma_u32_shl_is_mul(kept, pos);
    }
}

/// The `bits` bits of `raw` that start at bit `pos`.
pub fn masked_value(raw: u32, bits: u32, pos: u32) -> (r: u32)
    requires
        bits < 32,
        pos < 32,
    ensures
        r == field(raw, bits as nat, pos as nat),
{
    let mask: u32 = generate_mask(bits, pos);
    proof {
        lemma_pow2_pos(bits as nat);
        lemma_pow2_pos(pos as nat);
        lemma2_to64();
        lemma_pow2_strictly_increases(bits as nat, 32);
        lemma_u32_shl_is_mul(1, bits);
        let ones: u32 = ((1u32 << bits) - 1) as u32;
        lemma_shl_cuts_off(ones, pos);
        assert(mask == ones << pos);
        assert((raw & (ones << pos)) >> pos == (raw >> pos) & ones) by (bit_vector)
            requires
                bits < 32,
                pos < 32,
                ones == ((1u32 << bits) - 1) as u32,
        ;
        lemma_u32_shr_is_div(raw, pos);
        lemma_u32_low_bits_mask_is_mod(raw >> pos, bits as nat);
    }
    (raw & mask) >> pos
}

/// ADC value of a frame.
pub fn get_adc(raw: u32) -> (r: u32)
    ensures
        r == frame_adc(raw),
{
    proof {
        lemma2_to64();
    }
    masked_value(raw, 14, 0)
}

/// Measurement range of a frame.
pub fn get_range(raw: u32) -> (r: u32)
    ensures
        r == frame_range(raw),
{
    proof {
        lemma2_to64();
    }
    masked_value(raw, 3, 14)
}

/// Sample counter of a frame.
pub fn get_counter(raw: u32) -> (r: u32)
    ensures
        r == frame_counter(raw),
{
    proof {
        lemma2_to64();
    }
    masked_value(raw, 6, 18)
}

/// Logic port bits of a frame.
pub fn get_logic(raw: u32) -> (r: u32)
    ensures
        r == frame_logic(raw),
{
    proof {
        lemma2_to64();
    }
    masked_value(raw, 8, 24)
}

/// The frame with the given little-endian bytes.
pub fn frame_from_le_bytes(b0: u8, b1: u8, b2: u8, b3: u8) -> (r: u32)
    ensures
        r == frame_at(seq![b0, b1, b2, b3], 0),
{
    b0 as u32 + 0x100 * b1 as u32 + 0x1_0000 * b2 as u32 + 0x100_0000 * b3 as u32
}

} // verus!
