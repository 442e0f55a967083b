//! Operands: what they are, how they are read from the instruction stream,
//! and how they are written.

use vstd::prelude::*;
use vstd::string::*;
use crate::decimal::{append_decimal, decimal, is_digit, lemma_decimal_is_canonical};
use crate::error::DecodeError;
use crate::reader::BytesReader;
use crate::tables::{
    base_expr,
    decode_register,
    effective_address_calculation,
    is_register,
    lemma_names_are_one_line,
    register_name,
};
use crate::text::is_one_line;

verus! {

/// One operand of an instruction.
#[derive(Clone, Copy, Debug, PartialEq, Eq)]
pub enum OperandSpec {
    /// A register, by name.
    Register(&'static str),
    /// The memory cell at an absolute sixteen-bit address.
    DirectMemory(u16),
    /// The memory cell at the sum of base registers plus a signed
    /// displacement.
    IndexedMemory(&'static str, i16),
}

/// An operand as a mathematical value: names are sequences of characters.
pub enum Operand {
    Register(Seq<char>),
    DirectMemory(u16),
    IndexedMemory(Seq<char>, i16),
}

impl View for OperandSpec {
    type V = Operand;

    open spec fn view(&self) -> Operand {
        match *self {
            OperandSpec::Register(name) => Operand::Register(name@),
            OperandSpec::DirectMemory(address) => Operand::DirectMemory(address),
            OperandSpec::IndexedMemory(base, displacement) => Operand::IndexedMemory(
                base@,
                displacement,
            ),
        }
    }
}

/// The term that a displacement adds to a base expression: nothing for
/// zero, otherwise a separator with the sign and then the magnitude.
pub open spec fn displacement_text(displacement: int) -> Seq<char> {
    if displacement == 0 {
        Seq::empty()
    } else if displacement > 0 {
        " + "@ + decimal(displacement as nat)
    } else {
        " - "@ + decimal((-displacement) as nat)
    }
}

impl Operand {
    /// The operand as it stands in a line of assembly.
    pub open spec fn text(self) -> Seq<char> {
        match self {
            Operand::Register(name) => name,
            Operand::DirectMemory(address) => "["@ + decimal(address as nat) + "]"@,
            Operand::IndexedMemory(base, displacement) => "["@ + base + displacement_text(
                displacement as int,
            ) + "]"@,
        }
    }
}

/// The sixteen-bit number whose low byte comes first.
pub open spec fn word_le(low: u8, high: u8) -> u16 {
    (low + 256 * high) as u16
}

/// A byte read as a two's complement number and widened.
pub open spec fn signed_byte(byte: u8) -> i16 {
    if byte <= 127 {
        byte as i16
    } else {
        (byte - 256) as i16
    }
}

/// A word read as a two's complement number.
pub open spec fn signed_word(word: u16) -> i16 {
    if word <= 32767 {
        word as i16
    } else {
        (word - 65536) as i16
    }
}

/// How many bytes after the second instruction byte belong to the operand
/// that `mode` and `rm` select.
pub open spec fn operand_len(rm: u8, mode: u8) -> nat {
    if mode == 0 && rm == 6 {
        2
    } else if mode == 1 {
        1
    } else if mode == 2 {
        2
    } else {
        0
    }
}

/// The memory operand that `mode` and `rm` select, its address or
/// displacement taken from the front of `rest`.
pub open spec fn memory_operand(rest: Seq<u8>, rm: u8, mode: u8) -> Operand
    recommends
        mode <= 2,
        rm <= 7,
        rest.len() >= operand_len(rm, mode),
{
    if mode == 0 && rm == 6 {
        Operand::DirectMemory(word_le(rest[0], rest[1]))
    } else if mode == 0 {
        Operand::IndexedMemory(base_expr(rm), 0)
    } else if mode == 1 {
        Operand::IndexedMemory(base_expr(rm), signed_byte(rest[0]))
    } else {
        Operand::IndexedMemory(base_expr(rm), signed_word(word_le(rest[0], rest[1])))
    }
}

/// What reading an operand from the front of `rest` comes to: the operand,
/// or the reason why there is none.
pub open spec fn operand_at(rest: Seq<u8>, rm: u8, mode: u8, w: u8) -> Result<
    Operand,
    DecodeError,
>
    recommends
        mode <= 2 ==> rm <= 7,
{
    if mode > 3 {
        Err(DecodeError::UnsupportedAddressingMode { mode })
    } else if mode == 3 {
        if is_register(rm, w) {
            Ok(Operand::Register(register_name(rm, w)))
        } else {
            Err(DecodeError::InvalidEncoding)
        }
    } else if rest.len() < operand_len(rm, mode) {
        Err(DecodeError::TruncatedInput)
    } else {
        Ok(memory_operand(rest, rm, mode))
    }
}

/// A displacement is written with its sign as a separator and its magnitude
/// as a numeral: nothing at all for zero, `" + N"` for a positive and
/// `" - N"` for a negative one, where `N` holds digits only.
pub proof fn lemma_displacement_rendering(base: Seq<char>, displacement: i16)
    ensures
        displacement == 0 ==> Operand::IndexedMemory(base, displacement).text() == "["@ + base
            + "]"@,
        displacement > 0 ==> Operand::IndexedMemory(base, displacement).text() == "["@ + base
            + " + "@ + decimal(displacement as nat) + "]"@,
        displacement < 0 ==> Operand::IndexedMemory(base, displacement).text() == "["@ + base
            + " - "@ + decimal((-displacement) as nat) + "]"@,
        displacement == 0 <==> displacement_text(displacement as int).len() == 0,
        displacement != 0 ==> {
            let term = displacement_text(displacement as int);
            &&& term.len() >= 4
            &&& term[0] == ' '
            &&& term[1] == (if displacement > 0 {
                '+'
            } else {
                '-'
            })
            &&& term[2] == ' '
            &&& forall|i: int| 3 <= i < term.len() ==> is_digit(#[trigger] term[i])
            &&& term[3] != '0'
        },
{
    reveal_strlit(" + ");
    reveal_strlit(" - ");
    let d = displacement as int;
    let term = displacement_text(d);
    if d == 0 {
        assert("["@ + base + term =~= "["@ + base);
    } else {
        let magnitude = (if d > 0 {
            d
        } else {
            -d
        }) as nat;
        lemma_decimal_is_canonical(magnitude);
        let sign = if d > 0 {
            " + "@
        } else {
            " - "@
        };
        assert(term == sign + decimal(magnitude));
        assert("["@ + base + term =~= "["@ + base + sign + decimal(magnitude));
        assert forall|i: int| 3 <= i < term.len() implies is_digit(#[trigger] term[i]) by {
            assert(term[i] == decimal(magnitude)[i - 3]);
        }
        assert(term[3] == decimal(magnitude)[0]);
    }
}

/// An operand is written on one line, and is never empty.
pub proof fn lemma_operand_is_one_line(rest: Seq<u8>, rm: u8, mode: u8, w: u8)
    requires
        mode <= 2 ==> rm <= 7,
        operand_at(rest, rm, mode, w) is Ok,
    ensures
        is_one_line(operand_at(rest, rm, mode, w)->Ok_0.text()),
        operand_at(rest, rm, mode, w)->Ok_0.text().len() >= 2,
{
    reveal_strlit("[");
    reveal_strlit("]");
    reveal_strlit(" + ");
    reveal_strlit(" - ");
    lemma_names_are_one_line(rm, w);
    match operand_at(rest, rm, mode, w)->Ok_0 {
        Operand::Register(name) => {},
        Operand::DirectMemory(address) => {
            lemma_decimal_is_canonical(address as nat);
        },
        Operand::IndexedMemory(base, displacement) => {
            let magnitude = (if displacement >= 0 {
                displacement as int
            } else {
                -displacement
            }) as nat;
            lemma_decimal_is_canonical(magnitude);
        },
    }
}

/// An operand that can be read is read from its own bytes alone: whatever
/// follows them in the buffer leaves it as it is.
pub proof fn lemma_operand_is_local(rest: Seq<u8>, tail: Seq<u8>, rm: u8, mode: u8, w: u8)
    requires
        operand_at(rest, rm, mode, w) is Ok,
    ensures
        operand_at(rest + tail, rm, mode, w) == operand_at(rest, rm, mode, w),
        operand_len(rm, mode) <= rest.len(),
{
}

/// An operand that can be read is still read, and is the same, when the
/// buffer is cut off anywhere behind its last byte.
pub proof fn lemma_operand_reads_own_bytes(rest: Seq<u8>, keep: int, rm: u8, mode: u8, w: u8)
    requires
        operand_at(rest, rm, mode, w) is Ok,
        operand_len(rm, mode) <= keep <= rest.len(),
    ensures
        operand_at(rest.take(keep), rm, mode, w) == operand_at(rest, rm, mode, w),
{
}

/// Reads two bytes as a word, low byte first.
pub fn read_word(bytes_reader: &mut BytesReader) -> (result: Result<u16, DecodeError>)
    ensures
        final(bytes_reader).bytes() == old(bytes_reader).bytes(),
        old(bytes_reader).remaining().len() >= 2 ==> result == Ok::<u16, DecodeError>(
            word_le(old(bytes_reader).remaining()[0], old(bytes_reader).remaining()[1]),
        ) && final(bytes_reader).position() == old(bytes_reader).position() + 2,
        old(bytes_reader).remaining().len() < 2 ==> result == Err::<u16, DecodeError>(
            DecodeError::TruncatedInput,
        ) && final(bytes_reader).position() == old(bytes_reader).bytes().len(),
{
    proof {
        use_type_invariant(&*bytes_reader);
    }
    let low: u8 = bytes_reader.read_byte()?;
    let high: u8 = bytes_reader.read_byte()?;
    Ok(low as u16 + 256 * (high as u16))
}

/// Reads a byte as a signed displacement.
fn to_signed_byte(byte: u8) -> (value: i16)
    ensures
        value == signed_byte(byte),
{
    if byte <= 127 {
        byte as i16
    } else {
        byte as i16 - 256
    }
}

/// Reads a word as a signed displacement.
fn to_signed_word(word: u16) -> (value: i16)
    ensures
        value == signed_word(word),
{
    if word <= 32767 {
        word as i16
    } else {
        (word as i32 - 65536) as i16
    }
}

/// Reads the operand that `mod_part` and `rm` select, consuming the address
/// or displacement bytes that the mode calls for, and no others.
pub fn read_operand(bytes_reader: &mut BytesReader, rm: u8, mod_part: u8, w: u8) -> (result:
    Result<OperandSpec, DecodeError>)
    requires
        mod_part <= 2 ==> rm <= 7,
    ensures
        final(bytes_reader).bytes() == old(bytes_reader).bytes(),
        match operand_at(old(bytes_reader).remaining(), rm, mod_part, w) {
            Ok(operand) => {
                &&& result is Ok
                &&& result->Ok_0@ == operand
                &&& final(bytes_reader).position() == old(bytes_reader).position() + operand_len(
                    rm,
                    mod_part,
                )
            },
            Err(error) => {
                &&& result == Err::<OperandSpec, DecodeError>(error)
                &&& final(bytes_reader).position() == if error == DecodeError::TruncatedInput {
                    old(bytes_reader).bytes().len() as int
                } else {
                    old(bytes_reader).position() as int
                }
            },
        },
{
    proof {
        use_type_invariant(&*bytes_reader);
    }
    if mod_part == 0b11 {
        match decode_register(rm, w) {
            Ok(name) => Ok(OperandSpec::Register(name)),
            Err(error) => Err(error),
        }
    } else if mod_part == 0b00 {
        if rm == 0b110 {
            match read_word(bytes_reader) {
                Ok(address) => Ok(OperandSpec::DirectMemory(address)),
                Err(error) => Err(error),
            }
        } else {
            Ok(OperandSpec::IndexedMemory(effective_address_calculation(rm), 0))
        }
    } else if mod_part == 0b01 {
        match bytes_reader.read_byte() {
            Ok(byte) => Ok(
                OperandSpec::IndexedMemory(effective_address_calculation(rm), to_signed_byte(byte)),
            ),
            Err(error) => Err(error),
        }
    } else if mod_part == 0b10 {
        match read_word(bytes_reader) {
            Ok(word) => Ok(
                OperandSpec::IndexedMemory(effective_address_calculation(rm), to_signed_word(word)),
            ),
            Err(error) => Err(error),
        }
    } else {
        Err(DecodeError::UnsupportedAddressingMode { mode: mod_part })
    }
}

/// Appends the term of a displacement to `out`.
fn append_displacement(out: &mut String, displacement: i16)
    ensures
        final(out)@ == old(out)@ + displacement_text(displacement as int),
{
    if displacement > 0 {
        out.append(" + ");
        append_decimal(out, displacement as u16);
    } else if displacement < 0 {
        out.append(" - ");
        append_decimal(out, (-(displacement as i32)) as u16);
    }
}

impl OperandSpec {
    /// Writes the operand as it stands in a line of assembly.
    pub fn render(&self) -> (text: String)
        ensures
            text@ == self@.text(),
    {
        match *self {
            OperandSpec::Register(name) => String::from_str(name),
            OperandSpec::DirectMemory(address) => {
                let mut text = String::from_str("[");
                append_decimal(&mut text, address);
                text.append("]");
                text
            },
            OperandSpec::IndexedMemory(base, displacement) => {
                let mut text = String::from_str("[");
                text.append(base);
                append_displacement(&mut text, displacement);
                text.append("]");
                text
            },
        }
    }
}

/// Reads the operand that `mod_part` and `rm` select and writes it out.
pub fn dis_effective_address(bytes_reader: &mut BytesReader, rm: u8, mod_part: u8, w: u8) -> (result:
    Result<String, DecodeError>)
    requires
        mod_part <= 2 ==> rm <= 7,
    ensures
        final(bytes_reader).bytes() == old(bytes_reader).bytes(),
        match operand_at(old(bytes_reader).remaining(), rm, mod_part, w) {
            Ok(operand) => {
                &&& result is Ok
                &&& result->Ok_0@ == operand.text()
                &&& final(bytes_reader).position() == old(bytes_reader).position() + operand_len(
                    rm,
                    mod_part,
                )
            },
            Err(error) => {
                &&& result is Err
                &&& result->Err_0 == error
                &&& final(bytes_reader).position() == if error == DecodeError::TruncatedInput {
                    old(bytes_reader).bytes().len() as int
                } else {
                    old(bytes_reader).position() as int
                }
            },
        },
{
    match read_operand(bytes_reader, rm, mod_part, w) {
        Ok(operand) => Ok(operand.render()),
        Err(error) => Err(error),
    }
}

} // verus!
