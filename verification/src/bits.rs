//! Reading and writing bit fields of a byte.
//!
//! The flag bytes of the protocol pack several fields into one byte. The
//! functions here get and set one such field; the contracts say in plain
//! arithmetic which bits that is.

use vstd::arithmetic::power2::{lemma2_to64, pow2};
use vstd::prelude::*;

verus! {

/// Bits `lsb` to `msb` of `value`, both included, as a number: bit `lsb` of
/// `value` is bit 0 of the result.
pub open spec fn spec_bit_range(value: u8, msb: nat, lsb: nat) -> u8 {
    ((value as nat / pow2(lsb)) % pow2((msb - lsb + 1) as nat)) as u8
}

/// Whether bit `bit` of `value` is set.
pub open spec fn spec_bit(value: u8, bit: nat) -> bool {
    spec_bit_range(value, bit, bit) != 0
}

/// `value` with bits `lsb` to `msb` replaced by the low bits of `field`, and
/// every other bit as it was.
pub open spec fn spec_set_bit_range(value: u8, msb: nat, lsb: nat, field: u8) -> u8 {
    (value - spec_bit_range(value, msb, lsb) * pow2(lsb) + (field as nat % pow2(
        (msb - lsb + 1) as nat,
    )) * pow2(lsb)) as u8
}

/// Calls `bitfield::BitRange::<u8>::bit_range` on a `u8`. The contract claims
/// that it returns bits `lsb` to `msb` of `value`, shifted down to bit 0. The
/// call shifts by `7 - msb` and by `7 - msb + lsb`, so `lsb <= msb < 8` is
/// needed for it to return.
#[verifier::external_body]
pub(crate) fn bit_range(value: u8, msb: usize, lsb: usize) -> (r: u8)
    requires
        lsb <= msb < 8,
    ensures
        r == spec_bit_range(value, msb as nat, lsb as nat),
{
    bitfield::BitRange::<u8>::bit_range(&value, msb, lsb)
}

/// Calls `bitfield::BitRange::<u8>::set_bit_range` on a `u8`. The contract
/// claims that bits `lsb` to `msb` of `value` become the low bits of `field`
/// and that no other bit changes.
#[verifier::external_body]
pub(crate) fn set_bit_range(value: &mut u8, msb: usize, lsb: usize, field: u8)
    requires
        lsb <= msb < 8,
    ensures
        *final(value) == spec_set_bit_range(*old(value), msb as nat, lsb as nat, field),
{
    bitfield::BitRange::<u8>::set_bit_range(value, msb, lsb, field)
}

/// Calls `bitfield::Bit::bit` on a `u8`. The contract claims that it returns
/// whether bit `index` of `value` is set.
#[verifier::external_body]
pub(crate) fn bit(value: u8, index: usize) -> (r: bool)
    requires
        index < 8,
    ensures
        r == spec_bit(value, index as nat),
{
    bitfield::Bit::bit(&value, index)
}

/// Calls `bitfield::Bit::set_bit` on a `u8`. The contract claims that bit
/// `index` of `value` becomes `on` and that no other bit changes.
#[verifier::external_body]
pub(crate) fn set_bit(value: &mut u8, index: usize, on: bool)
    requires
        index < 8,
    ensures
        *final(value) == spec_set_bit_range(
            *old(value),
            index as nat,
            index as nat,
            if on {
                1u8
            } else {
                0u8
            },
        ),
{
    bitfield::Bit::set_bit(value, index, on)
}

/// One bit of a byte in plain arithmetic, for each of the eight bits.
pub proof fn lemma_bit(value: u8)
    ensures
        spec_bit(value, 0) == (value % 2 == 1),
        spec_bit(value, 1) == (value / 2 % 2 == 1),
        spec_bit(value, 2) == (value / 4 % 2 == 1),
        spec_bit(value, 3) == (value / 8 % 2 == 1),
        spec_bit(value, 4) == (value / 16 % 2 == 1),
        spec_bit(value, 5) == (value / 32 % 2 == 1),
        spec_bit(value, 6) == (value / 64 % 2 == 1),
        spec_bit(value, 7) == (value / 128 % 2 == 1),
{
    lemma2_to64();
}

/// The two-bit fields that the protocol uses, in plain arithmetic.
pub proof fn lemma_bit_range(value: u8)
    ensures
        spec_bit_range(value, 1, 0) == value % 4,
        spec_bit_range(value, 2, 1) == value / 2 % 4,
        spec_bit_range(value, 4, 3) == value / 8 % 4,
{
    lemma2_to64();
}

/// The weight of a flag in a byte: `weight` where the flag is set, else 0.
pub open spec fn spec_weight(on: bool, weight: int) -> int {
    if on {
        weight
    } else {
        0
    }
}

/// Setting one bit, in plain arithmetic: the byte loses the weight that the
/// bit had and gains the weight that it is given.
pub proof fn lemma_set_bit(value: u8, on: bool)
    ensures
        ({
            let field = if on {
                1u8
            } else {
                0u8
            };
            &&& spec_set_bit_range(value, 0, 0, field) == value - spec_weight(
                spec_bit(value, 0),
                1,
            ) + spec_weight(on, 1)
            &&& spec_set_bit_range(value, 1, 1, field) == value - spec_weight(
                spec_bit(value, 1),
                2,
            ) + spec_weight(on, 2)
            &&& spec_set_bit_range(value, 2, 2, field) == value - spec_weight(
                spec_bit(value, 2),
                4,
            ) + spec_weight(on, 4)
            &&& spec_set_bit_range(value, 3, 3, field) == value - spec_weight(
                spec_bit(value, 3),
                8,
            ) + spec_weight(on, 8)
            &&& spec_set_bit_range(value, 4, 4, field) == value - spec_weight(
                spec_bit(value, 4),
                16,
            ) + spec_weight(on, 16)
            &&& spec_set_bit_range(value, 5, 5, field) == value - spec_weight(
                spec_bit(value, 5),
                32,
            ) + spec_weight(on, 32)
            &&& spec_set_bit_range(value, 6, 6, field) == value - spec_weight(
                spec_bit(value, 6),
                64,
            ) + spec_weight(on, 64)
            &&& spec_set_bit_range(value, 7, 7, field) == value - spec_weight(
                spec_bit(value, 7),
                128,
            ) + spec_weight(on, 128)
        }),
{
    lemma2_to64();
    lemma_bit(value);
}

/// Setting a two-bit field to a number below four, in plain arithmetic.
pub proof fn lemma_set_bit_range(value: u8, field: u8)
    requires
        field < 4,
    ensures
        spec_set_bit_range(value, 1, 0, field) == value - value % 4 + field,
        spec_set_bit_range(value, 2, 1, field) == value - (value / 2 % 4) * 2 + field * 2,
        spec_set_bit_range(value, 4, 3, field) == value - (value / 8 % 4) * 8 + field * 8,
{
    lemma2_to64();
    lemma_bit_range(value);
    assert(field as nat % 4 == field);
}

} // verus!
