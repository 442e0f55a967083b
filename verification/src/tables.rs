//! The two fixed tables of the decoder: register names, and the base
//! expressions of memory operands.

use vstd::prelude::*;
use crate::error::DecodeError;
use crate::text::is_one_line;

verus! {

/// Whether `(code, w)` is one of the sixteen entries of the register table.
pub open spec fn is_register(code: u8, w: u8) -> bool {
    code <= 7 && w <= 1
}

/// The name of the register with the given three-bit code: the byte register
/// for `w == 0`, the word register for `w == 1`.
pub open spec fn register_name(code: u8, w: u8) -> Seq<char>
    recommends
        is_register(code, w),
{
    match (code, w) {
        (0, 0) => "al"@,
        (0, 1) => "ax"@,
        (1, 0) => "cl"@,
        (1, 1) => "cx"@,
        (2, 0) => "dl"@,
        (2, 1) => "dx"@,
        (3, 0) => "bl"@,
        (3, 1) => "bx"@,
        (4, 0) => "ah"@,
        (4, 1) => "sp"@,
        (5, 0) => "ch"@,
        (5, 1) => "bp"@,
        (6, 0) => "dh"@,
        (6, 1) => "si"@,
        (7, 0) => "bh"@,
        (7, 1) => "di"@,
        _ => Seq::empty(),
    }
}

/// The registers whose sum is the base of a memory operand with the given
/// three-bit r/m code.
pub open spec fn base_expr(rm: u8) -> Seq<char>
    recommends
        rm <= 7,
{
    match rm {
        0 => "bx + si"@,
        1 => "bx + di"@,
        2 => "bp + si"@,
        3 => "bp + di"@,
        4 => "si"@,
        5 => "di"@,
        6 => "bp"@,
        7 => "bx"@,
        _ => Seq::empty(),
    }
}

/// Every name in the two tables is a short word or sum of words on one
/// line.
pub proof fn lemma_names_are_one_line(code: u8, w: u8)
    requires
        code <= 7,
    ensures
        w <= 1 ==> is_one_line(register_name(code, w)) && register_name(code, w).len() == 2,
        is_one_line(base_expr(code)) && base_expr(code).len() >= 2,
{
    reveal_strlit("al");
    reveal_strlit("ax");
    reveal_strlit("cl");
    reveal_strlit("cx");
    reveal_strlit("dl");
    reveal_strlit("dx");
    reveal_strlit("bl");
    reveal_strlit("bx");
    reveal_strlit("ah");
    reveal_strlit("sp");
    reveal_strlit("ch");
    reveal_strlit("bp");
    reveal_strlit("dh");
    reveal_strlit("si");
    reveal_strlit("bh");
    reveal_strlit("di");
    reveal_strlit("bx + si");
    reveal_strlit("bx + di");
    reveal_strlit("bp + si");
    reveal_strlit("bp + di");
}

/// Looks a register up by code and width. A pair outside the table is
/// answered with `InvalidEncoding`.
pub fn decode_register(data: u8, w: u8) -> (result: Result<&'static str, DecodeError>)
    ensures
        is_register(data, w) ==> result is Ok && result->Ok_0@ == register_name(data, w),
        !is_register(data, w) ==> result == Err::<&'static str, DecodeError>(
            DecodeError::InvalidEncoding,
        ),
{
    match (data, w) {
        (0b000, 0b0) => Ok("al"),
        (0b000, 0b1) => Ok("ax"),
        (0b001, 0b0) => Ok("cl"),
        (0b001, 0b1) => Ok("cx"),
        (0b010, 0b0) => Ok("dl"),
        (0b010, 0b1) => Ok("dx"),
        (0b011, 0b0) => Ok("bl"),
        (0b011, 0b1) => Ok("bx"),
        (0b100, 0b0) => Ok("ah"),
        (0b100, 0b1) => Ok("sp"),
        (0b101, 0b0) => Ok("ch"),
        (0b101, 0b1) => Ok("bp"),
        (0b110, 0b0) => Ok("dh"),
        (0b110, 0b1) => Ok("si"),
        (0b111, 0b0) => Ok("bh"),
        (0b111, 0b1) => Ok("di"),
        _ => Err(DecodeError::InvalidEncoding),
    }
}

/// The base expression of a memory operand, by its three-bit r/m code.
pub fn effective_address_calculation(rm: u8) -> (base: &'static str)
    requires
        rm <= 7,
    ensures
        base@ == base_expr(rm),
{
    match rm {
        0b000 => "bx + si",
        0b001 => "bx + di",
        0b010 => "bp + si",
        0b011 => "bp + di",
        0b100 => "si",
        0b101 => "di",
        0b110 => "bp",
        _ => "bx",
    }
}

} // verus!
