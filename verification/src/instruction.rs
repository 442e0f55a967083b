//! The five forms of MOV: how the first byte selects one, which bytes each
//! occupies, and the line of text each stands for.

use vstd::prelude::*;
use vstd::string::*;
use crate::decimal::{append_decimal, decimal, decimal_string, lemma_decimal_is_canonical};
use crate::error::DecodeError;
use crate::fields::{
    direction_bit,
    immediate_width_bit,
    lemma_field_ranges,
    mod_field,
    reg_field,
    rm_field,
    spec_direction_bit,
    spec_immediate_width_bit,
    spec_mod_field,
    spec_reg_field,
    spec_rm_field,
    spec_width_bit,
    width_bit,
};
use crate::operand::{
    dis_effective_address,
    lemma_operand_is_local,
    lemma_operand_is_one_line,
    lemma_operand_reads_own_bytes,
    operand_at,
    operand_len,
    read_word,
    word_le,
    Operand,
    OperandSpec,
};
use crate::reader::BytesReader;
use crate::tables::{decode_register, lemma_names_are_one_line, register_name};
use crate::text::{is_one_line, lemma_one_line_concat};

verus! {

/// The forms of the MOV instruction that the decoder knows.
#[derive(Clone, Copy, Debug, PartialEq, Eq, Structural)]
pub enum InstructionForm {
    /// Between a register and a register or memory operand, either way.
    RegisterOrMemoryToFromRegister,
    /// A constant into a register.
    ImmediateToRegister,
    /// A constant into a register or memory operand.
    ImmediateToRegisterOrMemory,
    /// From a direct address into the accumulator.
    MemoryToAccumulator,
    /// From the accumulator to a direct address.
    AccumulatorToMemory,
}

/// The form that an opcode selects, if any. The patterns are tried in a
/// fixed order, though no opcode matches two of them.
pub open spec fn form_of(op: u8) -> Option<InstructionForm> {
    if op & 0b1111_0000 == 0b1011_0000 {
        Some(InstructionForm::ImmediateToRegister)
    } else if op & 0b1111_1100 == 0b1000_1000 {
        Some(InstructionForm::RegisterOrMemoryToFromRegister)
    } else if op & 0b1111_1110 == 0b1010_0010 {
        Some(InstructionForm::AccumulatorToMemory)
    } else if op & 0b1111_1110 == 0b1010_0000 {
        Some(InstructionForm::MemoryToAccumulator)
    } else if op & 0b1111_1110 == 0b1100_0110 {
        Some(InstructionForm::ImmediateToRegisterOrMemory)
    } else {
        None
    }
}

/// No opcode matches the pattern of two forms, and each pattern is a range
/// of consecutive opcodes.
pub proof fn lemma_forms_are_disjoint(op: u8)
    ensures
        op & 0b1111_0000 == 0b1011_0000 <==> 0xB0 <= op <= 0xBF,
        op & 0b1111_1100 == 0b1000_1000 <==> 0x88 <= op <= 0x8B,
        op & 0b1111_1110 == 0b1010_0010 <==> 0xA2 <= op <= 0xA3,
        op & 0b1111_1110 == 0b1010_0000 <==> 0xA0 <= op <= 0xA1,
        op & 0b1111_1110 == 0b1100_0110 <==> 0xC6 <= op <= 0xC7,
        form_of(op) == Some(InstructionForm::ImmediateToRegister) <==> op & 0b1111_0000
            == 0b1011_0000,
        form_of(op) == Some(InstructionForm::RegisterOrMemoryToFromRegister) <==> op & 0b1111_1100
            == 0b1000_1000,
        form_of(op) == Some(InstructionForm::AccumulatorToMemory) <==> op & 0b1111_1110
            == 0b1010_0010,
        form_of(op) == Some(InstructionForm::MemoryToAccumulator) <==> op & 0b1111_1110
            == 0b1010_0000,
        form_of(op) == Some(InstructionForm::ImmediateToRegisterOrMemory) <==> op & 0b1111_1110
            == 0b1100_0110,
{
    assert(op & 0b1111_0000 == 0b1011_0000 <==> 0xB0 <= op <= 0xBF) by (bit_vector);
    assert(op & 0b1111_1100 == 0b1000_1000 <==> 0x88 <= op <= 0x8B) by (bit_vector);
    assert(op & 0b1111_1110 == 0b1010_0010 <==> 0xA2 <= op <= 0xA3) by (bit_vector);
    assert(op & 0b1111_1110 == 0b1010_0000 <==> 0xA0 <= op <= 0xA1) by (bit_vector);
    assert(op & 0b1111_1110 == 0b1100_0110 <==> 0xC6 <= op <= 0xC7) by (bit_vector);
}

/// Selects the form of an instruction by its first byte.
pub fn classify(op: u8) -> (result: Result<InstructionForm, DecodeError>)
    ensures
        result == match form_of(op) {
            Some(form) => Ok::<InstructionForm, DecodeError>(form),
            None => Err(DecodeError::UnsupportedOpcode { byte: op }),
        },
{
    if op & 0b1111_0000 == 0b1011_0000 {
        Ok(InstructionForm::ImmediateToRegister)
    } else if op & 0b1111_1100 == 0b1000_1000 {
        Ok(InstructionForm::RegisterOrMemoryToFromRegister)
    } else if op & 0b1111_1110 == 0b1010_0010 {
        Ok(InstructionForm::AccumulatorToMemory)
    } else if op & 0b1111_1110 == 0b1010_0000 {
        Ok(InstructionForm::MemoryToAccumulator)
    } else if op & 0b1111_1110 == 0b1100_0110 {
        Ok(InstructionForm::ImmediateToRegisterOrMemory)
    } else {
        Err(DecodeError::UnsupportedOpcode { byte: op })
    }
}

/// What a run of bytes decodes to: the text of the instruction without its
/// line break, and the number of bytes that were read for it.
pub struct Decoded {
    pub text: Seq<char>,
    pub len: nat,
}

/// A MOV with its operands in the order of the assembly dialect.
pub open spec fn mov_text(dst: Seq<char>, src: Seq<char>) -> Seq<char> {
    "mov "@ + dst + ", "@ + src
}

/// How many bytes an immediate of the given width occupies.
pub open spec fn immediate_len(w: u8) -> nat {
    if w == 1 {
        2
    } else {
        1
    }
}

/// The unsigned immediate of the given width at the front of `rest`.
pub open spec fn immediate_at(rest: Seq<u8>, w: u8) -> u16
    recommends
        rest.len() >= immediate_len(w),
{
    if w == 1 {
        word_le(rest[0], rest[1])
    } else {
        rest[0] as u16
    }
}

/// The keyword that tells the size of an immediate stored to memory.
pub open spec fn size_keyword(w: u8) -> Seq<char> {
    if w == 1 {
        "word "@
    } else {
        "byte "@
    }
}

/// Immediate to register: the opcode holds the width in bit 3 and the
/// register in its low three bits; the immediate follows.
pub open spec fn immediate_to_register_at(rest: Seq<u8>, op: u8) -> Result<Decoded, DecodeError> {
    let w = spec_immediate_width_bit(op);
    if rest.len() < immediate_len(w) {
        Err(DecodeError::TruncatedInput)
    } else {
        Ok(
            Decoded {
                text: mov_text(
                    register_name(spec_rm_field(op), w),
                    decimal(immediate_at(rest, w) as nat),
                ),
                len: immediate_len(w),
            },
        )
    }
}

/// Register or memory to or from register: the second byte names a
/// register and an operand, the direction bit tells which is written.
pub open spec fn mov_at(rest: Seq<u8>, op: u8) -> Result<Decoded, DecodeError> {
    if rest.len() < 1 {
        Err(DecodeError::TruncatedInput)
    } else {
        let w = spec_width_bit(op);
        let rm = spec_rm_field(rest[0]);
        let mode = spec_mod_field(rest[0]);
        match operand_at(rest.skip(1), rm, mode, w) {
            Ok(operand) => {
                let register = register_name(spec_reg_field(rest[0]), w);
                Ok(
                    Decoded {
                        text: if spec_direction_bit(op) == 1 {
                            mov_text(register, operand.text())
                        } else {
                            mov_text(operand.text(), register)
                        },
                        len: 1 + operand_len(rm, mode),
                    },
                )
            },
            Err(error) => Err(error),
        }
    }
}

/// Memory to accumulator: a direct address follows the opcode.
pub open spec fn memory_to_accumulator_at(rest: Seq<u8>) -> Result<Decoded, DecodeError> {
    if rest.len() < 2 {
        Err(DecodeError::TruncatedInput)
    } else {
        Ok(
            Decoded {
                text: mov_text("ax"@, Operand::DirectMemory(word_le(rest[0], rest[1])).text()),
                len: 2,
            },
        )
    }
}

/// Accumulator to memory: a direct address follows the opcode.
pub open spec fn accumulator_to_memory_at(rest: Seq<u8>) -> Result<Decoded, DecodeError> {
    if rest.len() < 2 {
        Err(DecodeError::TruncatedInput)
    } else {
        Ok(
            Decoded {
                text: mov_text(Operand::DirectMemory(word_le(rest[0], rest[1])).text(), "ax"@),
                len: 2,
            },
        )
    }
}

/// Immediate to register or memory: the second byte names the operand, the
/// immediate follows the operand's own bytes, and its size is spelled out.
pub open spec fn immediate_to_register_or_memory_at(rest: Seq<u8>, op: u8) -> Result<
    Decoded,
    DecodeError,
> {
    if rest.len() < 1 {
        Err(DecodeError::TruncatedInput)
    } else {
        let w = spec_width_bit(op);
        let rm = spec_rm_field(rest[0]);
        let mode = spec_mod_field(rest[0]);
        match operand_at(rest.skip(1), rm, mode, 0) {
            Ok(operand) => {
                let after = rest.skip(1 + operand_len(rm, mode) as int);
                if after.len() < immediate_len(w) {
                    Err(DecodeError::TruncatedInput)
                } else {
                    Ok(
                        Decoded {
                            text: mov_text(
                                operand.text(),
                                size_keyword(w) + decimal(immediate_at(after, w) as nat),
                            ),
                            len: 1 + operand_len(rm, mode) + immediate_len(w),
                        },
                    )
                }
            },
            Err(error) => Err(error),
        }
    }
}

/// What the bytes after an opcode of the given form decode to.
pub open spec fn form_at(form: InstructionForm, rest: Seq<u8>, op: u8) -> Result<
    Decoded,
    DecodeError,
> {
    match form {
        InstructionForm::RegisterOrMemoryToFromRegister => mov_at(rest, op),
        InstructionForm::ImmediateToRegister => immediate_to_register_at(rest, op),
        InstructionForm::ImmediateToRegisterOrMemory => immediate_to_register_or_memory_at(
            rest,
            op,
        ),
        InstructionForm::MemoryToAccumulator => memory_to_accumulator_at(rest),
        InstructionForm::AccumulatorToMemory => accumulator_to_memory_at(rest),
    }
}

/// What the instruction at the front of `bytes` decodes to. Its length
/// counts the opcode.
pub open spec fn instruction_at(bytes: Seq<u8>) -> Result<Decoded, DecodeError> {
    if bytes.len() < 1 {
        Err(DecodeError::TruncatedInput)
    } else {
        match form_of(bytes[0]) {
            Some(form) => match form_at(form, bytes.skip(1), bytes[0]) {
                Ok(decoded) => Ok(Decoded { text: decoded.text, len: 1 + decoded.len }),
                Err(error) => Err(error),
            },
            None => Err(DecodeError::UnsupportedOpcode { byte: bytes[0] }),
        }
    }
}

/// The number of bytes that an instruction of the given form occupies,
/// the opcode counted, as its first two bytes tell it. Only the forms with
/// an operand look at the second byte.
pub open spec fn encoding_len(form: InstructionForm, op: u8, second: u8) -> nat {
    match form {
        InstructionForm::RegisterOrMemoryToFromRegister => 2 + operand_len(
            spec_rm_field(second),
            spec_mod_field(second),
        ),
        InstructionForm::ImmediateToRegister => 1 + immediate_len(spec_immediate_width_bit(op)),
        InstructionForm::ImmediateToRegisterOrMemory => 2 + operand_len(
            spec_rm_field(second),
            spec_mod_field(second),
        ) + immediate_len(spec_width_bit(op)),
        InstructionForm::MemoryToAccumulator => 3,
        InstructionForm::AccumulatorToMemory => 3,
    }
}

/// An instruction occupies between two and six bytes.
pub proof fn lemma_encoding_len_bounds(form: InstructionForm, op: u8, second: u8)
    ensures
        2 <= encoding_len(form, op, second) <= 6,
{
}

/// An instruction with an opcode of the family decodes exactly when the
/// buffer holds all of its bytes, and is otherwise cut short; when it
/// decodes, as many bytes are read for it as its form lays down.
pub proof fn lemma_instruction_len(bytes: Seq<u8>)
    requires
        bytes.len() >= 1,
        form_of(bytes[0]) is Some,
    ensures
        ({
            let whole = bytes.len() >= 2 && bytes.len() >= encoding_len(
                form_of(bytes[0])->Some_0,
                bytes[0],
                bytes[1],
            );
            &&& whole ==> instruction_at(bytes) is Ok && instruction_at(bytes)->Ok_0.len
                == encoding_len(form_of(bytes[0])->Some_0, bytes[0], bytes[1])
            &&& !whole ==> instruction_at(bytes) == Err::<Decoded, DecodeError>(
                DecodeError::TruncatedInput,
            )
        }),
{
    if bytes.len() >= 2 {
        lemma_field_ranges(bytes[1]);
        lemma_field_ranges(bytes[0]);
        assert(bytes.skip(1)[0] == bytes[1]);
    }
}

/// An instruction that decodes occupies at least two bytes and never more
/// than the buffer holds.
pub proof fn lemma_instruction_fits(bytes: Seq<u8>)
    ensures
        instruction_at(bytes) matches Ok(decoded) ==> 2 <= decoded.len <= bytes.len(),
{
}

/// An instruction that decodes is decoded from its own bytes alone:
/// whatever follows them in the buffer changes neither its text nor its
/// length.
pub proof fn lemma_instruction_is_local(bytes: Seq<u8>, tail: Seq<u8>)
    requires
        instruction_at(bytes) is Ok,
    ensures
        instruction_at(bytes + tail) == instruction_at(bytes),
{
    let op = bytes[0];
    let rest = bytes.skip(1);
    assert((bytes + tail).skip(1) =~= rest + tail);
    match form_of(op)->Some_0 {
        InstructionForm::RegisterOrMemoryToFromRegister => {
            let rm = spec_rm_field(rest[0]);
            let mode = spec_mod_field(rest[0]);
            assert((rest + tail).skip(1) =~= rest.skip(1) + tail);
            lemma_operand_is_local(rest.skip(1), tail, rm, mode, spec_width_bit(op));
        },
        InstructionForm::ImmediateToRegisterOrMemory => {
            let rm = spec_rm_field(rest[0]);
            let mode = spec_mod_field(rest[0]);
            let used = 1 + operand_len(rm, mode) as int;
            assert((rest + tail).skip(1) =~= rest.skip(1) + tail);
            lemma_operand_is_local(rest.skip(1), tail, rm, mode, 0);
            assert((rest + tail).skip(used) =~= rest.skip(used) + tail);
        },
        _ => {},
    }
}

/// An instruction that decodes is still decoded, and is the same, when
/// the buffer is cut off behind its last byte: it reads no byte but its own.
pub proof fn lemma_instruction_reads_own_bytes(bytes: Seq<u8>)
    requires
        instruction_at(bytes) is Ok,
    ensures
        instruction_at(bytes.take(instruction_at(bytes)->Ok_0.len as int)) == instruction_at(
            bytes,
        ),
{
    let len = instruction_at(bytes)->Ok_0.len as int;
    let own = bytes.take(len);
    let op = bytes[0];
    let rest = bytes.skip(1);
    assert(own.skip(1) =~= rest.take(len - 1));
    match form_of(op)->Some_0 {
        InstructionForm::RegisterOrMemoryToFromRegister => {
            let rm = spec_rm_field(rest[0]);
            let mode = spec_mod_field(rest[0]);
            assert(rest.take(len - 1).skip(1) =~= rest.skip(1).take(len - 2));
            lemma_operand_reads_own_bytes(rest.skip(1), len - 2, rm, mode, spec_width_bit(op));
        },
        InstructionForm::ImmediateToRegisterOrMemory => {
            let rm = spec_rm_field(rest[0]);
            let mode = spec_mod_field(rest[0]);
            let used = 1 + operand_len(rm, mode) as int;
            assert(rest.take(len - 1).skip(1) =~= rest.skip(1).take(len - 2));
            lemma_operand_reads_own_bytes(rest.skip(1), len - 2, rm, mode, 0);
            assert(rest.take(len - 1).skip(used) =~= rest.skip(used).take(len - 1 - used));
        },
        _ => {},
    }
}

/// A MOV of two operands on one line each is itself on one line.
proof fn lemma_mov_text_is_one_line(dst: Seq<char>, src: Seq<char>)
    requires
        is_one_line(dst),
        is_one_line(src),
    ensures
        is_one_line(mov_text(dst, src)),
        mov_text(dst, src).len() == 6 + dst.len() + src.len(),
{
    reveal_strlit("mov ");
    reveal_strlit(", ");
}

/// The text of an instruction holds no line break and is never empty, so
/// that a listing has one line for each instruction.
pub proof fn lemma_instruction_is_one_line(bytes: Seq<u8>)
    requires
        instruction_at(bytes) is Ok,
    ensures
        is_one_line(instruction_at(bytes)->Ok_0.text),
        instruction_at(bytes)->Ok_0.text.len() > 0,
{
    let op = bytes[0];
    let rest = bytes.skip(1);
    lemma_field_ranges(op);
    reveal_strlit("ax");
    match form_of(op)->Some_0 {
        InstructionForm::RegisterOrMemoryToFromRegister => {
            let w = spec_width_bit(op);
            let rm = spec_rm_field(rest[0]);
            let mode = spec_mod_field(rest[0]);
            let operand = operand_at(rest.skip(1), rm, mode, w)->Ok_0;
            let register = register_name(spec_reg_field(rest[0]), w);
            lemma_field_ranges(rest[0]);
            lemma_operand_is_one_line(rest.skip(1), rm, mode, w);
            lemma_names_are_one_line(spec_reg_field(rest[0]), w);
            lemma_mov_text_is_one_line(register, operand.text());
            lemma_mov_text_is_one_line(operand.text(), register);
        },
        InstructionForm::ImmediateToRegister => {
            let w = spec_immediate_width_bit(op);
            lemma_names_are_one_line(spec_rm_field(op), w);
            lemma_decimal_is_canonical(immediate_at(rest, w) as nat);
            lemma_mov_text_is_one_line(
                register_name(spec_rm_field(op), w),
                decimal(immediate_at(rest, w) as nat),
            );
        },
        InstructionForm::ImmediateToRegisterOrMemory => {
            let w = spec_width_bit(op);
            let rm = spec_rm_field(rest[0]);
            let mode = spec_mod_field(rest[0]);
            let operand = operand_at(rest.skip(1), rm, mode, 0)->Ok_0;
            let after = rest.skip(1 + operand_len(rm, mode) as int);
            let value = decimal(immediate_at(after, w) as nat);
            lemma_field_ranges(rest[0]);
            lemma_operand_is_one_line(rest.skip(1), rm, mode, 0);
            lemma_decimal_is_canonical(immediate_at(after, w) as nat);
            reveal_strlit("word ");
            reveal_strlit("byte ");
            lemma_one_line_concat(size_keyword(w), value);
            lemma_mov_text_is_one_line(operand.text(), size_keyword(w) + value);
        },
        InstructionForm::MemoryToAccumulator => {
            let address = Operand::DirectMemory(word_le(rest[0], rest[1]));
            lemma_operand_is_one_line(rest, 6, 0, 0);
            lemma_mov_text_is_one_line("ax"@, address.text());
        },
        InstructionForm::AccumulatorToMemory => {
            let address = Operand::DirectMemory(word_le(rest[0], rest[1]));
            lemma_operand_is_one_line(rest, 6, 0, 0);
            lemma_mov_text_is_one_line(address.text(), "ax"@);
        },
    }
}

/// Whether a handler did what `outcome` asks of it: on success it has
/// stepped over exactly the instruction's bytes and appended its line; on
/// failure it has appended nothing, and where the input was too short it
/// has read all of it.
pub open spec fn handled(
    before: BytesReader,
    after: BytesReader,
    was: Seq<char>,
    now: Seq<char>,
    result: Result<(), DecodeError>,
    outcome: Result<Decoded, DecodeError>,
) -> bool {
    &&& after.bytes() == before.bytes()
    &&& match outcome {
        Ok(decoded) => {
            &&& result is Ok
            &&& now == was + decoded.text + "\n"@
            &&& after.position() == before.position() + decoded.len
        },
        Err(error) => {
            &&& result == Err::<(), DecodeError>(error)
            &&& now == was
            &&& error == DecodeError::TruncatedInput ==> after.position() == before.bytes().len()
        },
    }
}

/// Writes a MOV with the given operands.
pub fn emit_mov(dst: &str, src: &str) -> (line: String)
    ensures
        line@ == mov_text(dst@, src@),
{
    let mut line = String::from_str("mov ");
    line.append(dst);
    line.append(", ");
    line.append(src);
    line
}

/// Reads an immediate of the given width.
pub fn read_immediate(bytes_reader: &mut BytesReader, w: u8) -> (result: Result<u16, DecodeError>)
    ensures
        final(bytes_reader).bytes() == old(bytes_reader).bytes(),
        old(bytes_reader).remaining().len() >= immediate_len(w) ==> result == Ok::<
            u16,
            DecodeError,
        >(immediate_at(old(bytes_reader).remaining(), w)) && final(bytes_reader).position() == old(
            bytes_reader,
        ).position() + immediate_len(w),
        old(bytes_reader).remaining().len() < immediate_len(w) ==> result == Err::<
            u16,
            DecodeError,
        >(DecodeError::TruncatedInput) && final(bytes_reader).position() == old(
            bytes_reader,
        ).bytes().len(),
{
    proof {
        use_type_invariant(&*bytes_reader);
    }
    if w == 0b1 {
        read_word(bytes_reader)
    } else {
        let byte: u8 = bytes_reader.read_byte()?;
        Ok(byte as u16)
    }
}

/// Decodes a MOV between a register and a register or memory operand, the
/// opcode already read, and appends its line to `output`.
pub fn dis_mov(bytes_reader: &mut BytesReader, output: &mut String, op: u8) -> (result: Result<
    (),
    DecodeError,
>)
    ensures
        handled(
            *old(bytes_reader),
            *final(bytes_reader),
            old(output)@,
            final(output)@,
            result,
            mov_at(old(bytes_reader).remaining(), op),
        ),
{
    proof {
        use_type_invariant(&*bytes_reader);
    }
    let inst_part_2: u8 = bytes_reader.read_byte()?;

    let d: u8 = direction_bit(op);
    let w: u8 = width_bit(op);

    let mod_part: u8 = mod_field(inst_part_2);
    let reg: u8 = reg_field(inst_part_2);
    let rm: u8 = rm_field(inst_part_2);

    assert(bytes_reader.remaining() =~= old(bytes_reader).remaining().skip(1));
    let effective_address = dis_effective_address(bytes_reader, rm, mod_part, w)?;
    let register = decode_register(reg, w)?;

    let mov = if d == 0b1 {
        emit_mov(register, effective_address.as_str())
    } else {
        emit_mov(effective_address.as_str(), register)
    };

    output.append(mov.as_str());
    output.append("\n");
    Ok(())
}

/// Decodes a MOV of a constant into a register, the opcode already read,
/// and appends its line to `output`.
pub fn dis_mov_immediate_to_register(
    bytes_reader: &mut BytesReader,
    output: &mut String,
    op: u8,
) -> (result: Result<(), DecodeError>)
    ensures
        handled(
            *old(bytes_reader),
            *final(bytes_reader),
            old(output)@,
            final(output)@,
            result,
            immediate_to_register_at(old(bytes_reader).remaining(), op),
        ),
{
    let w: u8 = immediate_width_bit(op);
    let reg: u8 = rm_field(op);

    let register = decode_register(reg, w)?;
    let data = decimal_string(read_immediate(bytes_reader, w)?);

    let mov = emit_mov(register, data.as_str());
    output.append(mov.as_str());
    output.append("\n");
    Ok(())
}

/// Reads a direct address and writes it as a memory operand.
fn dis_direct_address(bytes_reader: &mut BytesReader) -> (result: Result<String, DecodeError>)
    ensures
        final(bytes_reader).bytes() == old(bytes_reader).bytes(),
        old(bytes_reader).remaining().len() >= 2 ==> result is Ok && result->Ok_0@
            == Operand::DirectMemory(
            word_le(old(bytes_reader).remaining()[0], old(bytes_reader).remaining()[1]),
        ).text() && final(bytes_reader).position() == old(bytes_reader).position() + 2,
        old(bytes_reader).remaining().len() < 2 ==> result is Err && result->Err_0
            == DecodeError::TruncatedInput && final(bytes_reader).position() == old(
            bytes_reader,
        ).bytes().len(),
{
    let address: u16 = read_word(bytes_reader)?;
    Ok(OperandSpec::DirectMemory(address).render())
}

/// Decodes a MOV from a direct address into the accumulator, the opcode
/// already read, and appends its line to `output`.
pub fn dis_mov_memory_to_accumulator(bytes_reader: &mut BytesReader, output: &mut String) -> (result:
    Result<(), DecodeError>)
    ensures
        handled(
            *old(bytes_reader),
            *final(bytes_reader),
            old(output)@,
            final(output)@,
            result,
            memory_to_accumulator_at(old(bytes_reader).remaining()),
        ),
{
    let address = dis_direct_address(bytes_reader)?;

    let mov = emit_mov("ax", address.as_str());
    output.append(mov.as_str());
    output.append("\n");
    Ok(())
}

/// Decodes a MOV from the accumulator to a direct address, the opcode
/// already read, and appends its line to `output`.
pub fn dis_mov_accumulator_to_memory(bytes_reader: &mut BytesReader, output: &mut String) -> (result:
    Result<(), DecodeError>)
    ensures
        handled(
            *old(bytes_reader),
            *final(bytes_reader),
            old(output)@,
            final(output)@,
            result,
            accumulator_to_memory_at(old(bytes_reader).remaining()),
        ),
{
    let address = dis_direct_address(bytes_reader)?;

    let mov = emit_mov(address.as_str(), "ax");
    output.append(mov.as_str());
    output.append("\n");
    Ok(())
}

/// Decodes a MOV of a constant into a register or memory operand, the
/// opcode already read, and appends its line to `output`.
pub fn dis_mov_immediate_to_register_or_memory(
    bytes_reader: &mut BytesReader,
    output: &mut String,
    op: u8,
) -> (result: Result<(), DecodeError>)
    ensures
        handled(
            *old(bytes_reader),
            *final(bytes_reader),
            old(output)@,
            final(output)@,
            result,
            immediate_to_register_or_memory_at(old(bytes_reader).remaining(), op),
        ),
{
    proof {
        use_type_invariant(&*bytes_reader);
    }
    let inst_part_2: u8 = bytes_reader.read_byte()?;

    let w: u8 = width_bit(op);

    let mod_part: u8 = mod_field(inst_part_2);
    let rm: u8 = rm_field(inst_part_2);

    assert(bytes_reader.remaining() =~= old(bytes_reader).remaining().skip(1));
    let effective_address = dis_effective_address(bytes_reader, rm, mod_part, 0b0)?;

    assert(bytes_reader.remaining() =~= old(bytes_reader).remaining().skip(
        1 + operand_len(rm, mod_part) as int,
    ));
    let data: u16 = read_immediate(bytes_reader, w)?;
    let mut value = if w == 0b1 {
        String::from_str("word ")
    } else {
        String::from_str("byte ")
    };
    append_decimal(&mut value, data);

    let mov = emit_mov(effective_address.as_str(), value.as_str());
    output.append(mov.as_str());
    output.append("\n");
    Ok(())
}

/// Decodes the instruction under the cursor, opcode and all, and appends
/// its line to `output`.
pub fn dis_instruction(bytes_reader: &mut BytesReader, output: &mut String) -> (result: Result<
    (),
    DecodeError,
>)
    ensures
        handled(
            *old(bytes_reader),
            *final(bytes_reader),
            old(output)@,
            final(output)@,
            result,
            instruction_at(old(bytes_reader).remaining()),
        ),
{
    proof {
        use_type_invariant(&*bytes_reader);
    }
    let op: u8 = bytes_reader.read_byte()?;
    assert(bytes_reader.remaining() =~= old(bytes_reader).remaining().skip(1));

    match classify(op)? {
        InstructionForm::ImmediateToRegister => dis_mov_immediate_to_register(
            bytes_reader,
            output,
            op,
        ),
        InstructionForm::RegisterOrMemoryToFromRegister => dis_mov(bytes_reader, output, op),
        InstructionForm::AccumulatorToMemory => dis_mov_accumulator_to_memory(
            bytes_reader,
            output,
        ),
        InstructionForm::MemoryToAccumulator => dis_mov_memory_to_accumulator(
            bytes_reader,
            output,
        ),
        InstructionForm::ImmediateToRegisterOrMemory => dis_mov_immediate_to_register_or_memory(
            bytes_reader,
            output,
            op,
        ),
    }
}

} // verus!
