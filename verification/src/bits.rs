//! Trusted access to single bits of unsigned integers, used to seed state
//! vectors from integer patterns.

use vstd::prelude::*;

verus! {

/// Bit `i` (least significant first) of a 64-bit value.
pub open spec fn u64_bit(v: u64, i: int) -> bool {
    (v >> (i as u64)) & 1u64 == 1u64
}

/// Bit `i` (least significant first) of a 32-bit value.
pub open spec fn u32_bit(v: u32, i: int) -> bool {
    (v >> (i as u32)) & 1u32 == 1u32
}

/// Bit `i` (least significant first) of a 16-bit value.
pub open spec fn u16_bit(v: u16, i: int) -> bool {
    (v >> (i as u16)) & 1u16 == 1u16
}

/// Relies on bit_field::BitField::get_bit for u64: it returns
/// `(v & (1 << bit)) != 0`, the bit at index `bit` counted from the least
/// significant end, and panics only when `bit` is not below the bit width.
#[verifier::external_body]
pub(crate) fn get_bit_u64(v: u64, bit: usize) -> (r: bool)
    requires
        bit < 64,
    ensures
        r == u64_bit(v, bit as int),
{
    bit_field::BitField::get_bit(&v, bit)
}

/// Relies on bit_field::BitField::get_bit for u32; see get_bit_u64.
#[verifier::external_body]
pub(crate) fn get_bit_u32(v: u32, bit: usize) -> (r: bool)
    requires
        bit < 32,
    ensures
        r == u32_bit(v, bit as int),
{
    bit_field::BitField::get_bit(&v, bit)
}

/// Relies on bit_field::BitField::get_bit for u16; see get_bit_u64.
#[verifier::external_body]
pub(crate) fn get_bit_u16(v: u16, bit: usize) -> (r: bool)
    requires
        bit < 16,
    ensures
        r == u16_bit(v, bit as int),
{
    bit_field::BitField::get_bit(&v, bit)
}

} // verus!
