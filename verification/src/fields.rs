//! The bit fields of an instruction's first two bytes.
//!
//! The first byte carries the opcode together with a width bit and, for some
//! forms, a direction bit or a register code. The second byte, where a form
//! has one, is split into `mod` (bits 7-6), `reg` (bits 5-3) and `r/m`
//! (bits 2-0).

use vstd::prelude::*;

verus! {

/// Bits 7-6 of the second byte: the addressing mode.
pub open spec fn spec_mod_field(byte: u8) -> u8 {
    (byte & 0b1100_0000) >> 6
}

/// Bits 5-3 of the second byte: a register code.
pub open spec fn spec_reg_field(byte: u8) -> u8 {
    (byte & 0b0011_1000) >> 3
}

/// Bits 2-0 of a byte: a register code, or the base of a memory operand.
pub open spec fn spec_rm_field(byte: u8) -> u8 {
    byte & 0b0000_0111
}

/// Bit 0 of the opcode: 0 for byte operands, 1 for word operands.
pub open spec fn spec_width_bit(op: u8) -> u8 {
    op & 0b0000_0001
}

/// Bit 1 of the opcode: 1 when the `reg` field names the destination.
pub open spec fn spec_direction_bit(op: u8) -> u8 {
    (op & 0b0000_0010) >> 1
}

/// Bit 3 of the opcode: the width bit of the immediate-to-register form.
pub open spec fn spec_immediate_width_bit(op: u8) -> u8 {
    (op & 0b0000_1000) >> 3
}

/// Every field fits the number of bits it is cut from.
pub proof fn lemma_field_ranges(byte: u8)
    ensures
        spec_mod_field(byte) <= 3,
        spec_reg_field(byte) <= 7,
        spec_rm_field(byte) <= 7,
        spec_width_bit(byte) <= 1,
        spec_direction_bit(byte) <= 1,
        spec_immediate_width_bit(byte) <= 1,
{
    assert((byte & 0b1100_0000) >> 6 <= 3) by (bit_vector);
    assert((byte & 0b0011_1000) >> 3 <= 7) by (bit_vector);
    assert(byte & 0b0000_0111 <= 7) by (bit_vector);
    assert(byte & 0b0000_0001 <= 1) by (bit_vector);
    assert((byte & 0b0000_0010) >> 1 <= 1) by (bit_vector);
    assert((byte & 0b0000_1000) >> 3 <= 1) by (bit_vector);
}

/// The second byte is put together from its three fields, so that each
/// triple of a mode, a register code and an r/m code is the reading of
/// exactly one byte.
pub proof fn lemma_fields_determine_byte(byte: u8)
    ensures
        byte == 64 * spec_mod_field(byte) + 8 * spec_reg_field(byte) + spec_rm_field(byte),
{
    assert(byte == 64 * ((byte & 0b1100_0000) >> 6) + 8 * ((byte & 0b0011_1000) >> 3) + (byte
        & 0b0000_0111)) by (bit_vector);
}

#[verifier::when_used_as_spec(spec_mod_field)]
pub fn mod_field(byte: u8) -> (mode: u8)
    ensures
        mode == spec_mod_field(byte),
        mode <= 3,
{
    proof {
        lemma_field_ranges(byte);
    }
    (byte & 0b1100_0000) >> 6
}

#[verifier::when_used_as_spec(spec_reg_field)]
pub fn reg_field(byte: u8) -> (reg: u8)
    ensures
        reg == spec_reg_field(byte),
        reg <= 7,
{
    proof {
        lemma_field_ranges(byte);
    }
    (byte & 0b0011_1000) >> 3
}

#[verifier::when_used_as_spec(spec_rm_field)]
pub fn rm_field(byte: u8) -> (rm: u8)
    ensures
        rm == spec_rm_field(byte),
        rm <= 7,
{
    proof {
        lemma_field_ranges(byte);
    }
    byte & 0b0000_0111
}

#[verifier::when_used_as_spec(spec_width_bit)]
pub fn width_bit(op: u8) -> (w: u8)
    ensures
        w == spec_width_bit(op),
        w <= 1,
{
    proof {
        lemma_field_ranges(op);
    }
    op & 0b0000_0001
}

#[verifier::when_used_as_spec(spec_direction_bit)]
pub fn direction_bit(op: u8) -> (d: u8)
    ensures
        d == spec_direction_bit(op),
        d <= 1,
{
    proof {
        lemma_field_ranges(op);
    }
    (op & 0b0000_0010) >> 1
}

#[verifier::when_used_as_spec(spec_immediate_width_bit)]
pub fn immediate_width_bit(op: u8) -> (w: u8)
    ensures
        w == spec_immediate_width_bit(op),
        w <= 1,
{
    proof {
        lemma_field_ranges(op);
    }
    (op & 0b0000_1000) >> 3
}

} // verus!
