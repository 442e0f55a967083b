//! The parts of the decoder, one by one.

use disasm::{
    append_decimal, classify, decimal_string, decode_register, direction_bit,
    dis_effective_address, dis_instruction, dis_instructions, dis_mov,
    dis_mov_accumulator_to_memory, dis_mov_immediate_to_register,
    dis_mov_immediate_to_register_or_memory, dis_mov_memory_to_accumulator,
    effective_address_calculation, emit_mov, immediate_width_bit, mod_field, read_immediate,
    read_operand, read_word, reg_field, rm_field, width_bit, BytesReader, DecodeError,
    InstructionForm, OperandSpec,
};

#[test]
fn reader_reads_bytes_in_order() {
    let data = [0x10u8, 0x20, 0x30];
    let mut reader = BytesReader::new(&data);
    assert_eq!(reader.position(), 0);
    assert!(!reader.has_reached_end());
    assert_eq!(reader.read_byte(), Ok(0x10));
    assert_eq!(reader.position(), 1);
    assert_eq!(reader.read_byte(), Ok(0x20));
    assert_eq!(reader.read_byte(), Ok(0x30));
    assert_eq!(reader.position(), 3);
    assert!(reader.has_reached_end());
}

#[test]
fn reader_fails_at_end_and_stays() {
    let data = [0x10u8];
    let mut reader = BytesReader::new(&data);
    assert_eq!(reader.read_byte(), Ok(0x10));
    assert_eq!(reader.read_byte(), Err(DecodeError::TruncatedInput));
    assert_eq!(reader.read_byte(), Err(DecodeError::TruncatedInput));
    assert_eq!(reader.position(), 1);
    assert!(reader.has_reached_end());
}

#[test]
fn reader_over_empty_buffer() {
    let mut reader = BytesReader::new(&[]);
    assert!(reader.has_reached_end());
    assert_eq!(reader.position(), 0);
    assert_eq!(reader.read_byte(), Err(DecodeError::TruncatedInput));
}

#[test]
fn register_table_is_complete() {
    let byte_names = ["al", "cl", "dl", "bl", "ah", "ch", "dh", "bh"];
    let word_names = ["ax", "cx", "dx", "bx", "sp", "bp", "si", "di"];
    for code in 0u8..8 {
        assert_eq!(decode_register(code, 0), Ok(byte_names[code as usize]));
        assert_eq!(decode_register(code, 1), Ok(word_names[code as usize]));
    }
}

#[test]
fn register_outside_table_is_invalid() {
    assert_eq!(decode_register(8, 0), Err(DecodeError::InvalidEncoding));
    assert_eq!(decode_register(8, 1), Err(DecodeError::InvalidEncoding));
    assert_eq!(decode_register(255, 0), Err(DecodeError::InvalidEncoding));
    assert_eq!(decode_register(0, 2), Err(DecodeError::InvalidEncoding));
    assert_eq!(decode_register(7, 255), Err(DecodeError::InvalidEncoding));
}

#[test]
fn base_expressions() {
    let expected = ["bx + si", "bx + di", "bp + si", "bp + di", "si", "di", "bp", "bx"];
    for rm in 0u8..8 {
        assert_eq!(effective_address_calculation(rm), expected[rm as usize]);
    }
}

#[test]
fn fields_of_second_byte() {
    assert_eq!(mod_field(0b1101_1001), 0b11);
    assert_eq!(reg_field(0b1101_1001), 0b011);
    assert_eq!(rm_field(0b1101_1001), 0b001);
    assert_eq!(mod_field(0b0100_0001), 0b01);
    assert_eq!(reg_field(0b0100_0001), 0b000);
    assert_eq!(rm_field(0b0100_0001), 0b001);
    assert_eq!(mod_field(0x00), 0);
    assert_eq!(mod_field(0xFF), 3);
    assert_eq!(reg_field(0xFF), 7);
    assert_eq!(rm_field(0xFF), 7);
    assert_eq!(mod_field(0b1000_0000), 2);
    assert_eq!(reg_field(0b0010_1000), 5);
    assert_eq!(rm_field(0b1111_1110), 6);
}

#[test]
fn fields_rebuild_every_byte() {
    for byte in 0u8..=255 {
        let rebuilt =
            64 * mod_field(byte) as u16 + 8 * reg_field(byte) as u16 + rm_field(byte) as u16;
        assert_eq!(rebuilt, byte as u16);
    }
}

#[test]
fn bits_of_opcode() {
    assert_eq!(width_bit(0x89), 1);
    assert_eq!(width_bit(0x88), 0);
    assert_eq!(direction_bit(0x89), 0);
    assert_eq!(direction_bit(0x8B), 1);
    assert_eq!(direction_bit(0x8A), 1);
    assert_eq!(immediate_width_bit(0xB8), 1);
    assert_eq!(immediate_width_bit(0xB1), 0);
    assert_eq!(immediate_width_bit(0xBF), 1);
    assert_eq!(width_bit(0xC6), 0);
    assert_eq!(width_bit(0xC7), 1);
}

#[test]
fn classify_by_first_byte() {
    for op in 0u8..=255 {
        let expected = match op {
            0xB0..=0xBF => Ok(InstructionForm::ImmediateToRegister),
            0x88..=0x8B => Ok(InstructionForm::RegisterOrMemoryToFromRegister),
            0xA2..=0xA3 => Ok(InstructionForm::AccumulatorToMemory),
            0xA0..=0xA1 => Ok(InstructionForm::MemoryToAccumulator),
            0xC6..=0xC7 => Ok(InstructionForm::ImmediateToRegisterOrMemory),
            _ => Err(DecodeError::UnsupportedOpcode { byte: op }),
        };
        assert_eq!(classify(op), expected);
    }
}

#[test]
fn decimal_numerals() {
    assert_eq!(decimal_string(0), "0");
    assert_eq!(decimal_string(7), "7");
    assert_eq!(decimal_string(9), "9");
    assert_eq!(decimal_string(10), "10");
    assert_eq!(decimal_string(99), "99");
    assert_eq!(decimal_string(100), "100");
    assert_eq!(decimal_string(256), "256");
    assert_eq!(decimal_string(4999), "4999");
    assert_eq!(decimal_string(10000), "10000");
    assert_eq!(decimal_string(32768), "32768");
    assert_eq!(decimal_string(65535), "65535");
}

#[test]
fn decimal_agrees_with_std_on_all_words() {
    for n in 0u16..=65535 {
        assert_eq!(decimal_string(n), n.to_string());
    }
}

#[test]
fn append_decimal_keeps_what_was_there() {
    let mut text = String::from("word ");
    append_decimal(&mut text, 347);
    assert_eq!(text, "word 347");
    append_decimal(&mut text, 0);
    assert_eq!(text, "word 3470");
}

#[test]
fn render_register() {
    assert_eq!(OperandSpec::Register("cx").render(), "cx");
}

#[test]
fn render_direct_memory() {
    assert_eq!(OperandSpec::DirectMemory(0).render(), "[0]");
    assert_eq!(OperandSpec::DirectMemory(256).render(), "[256]");
    assert_eq!(OperandSpec::DirectMemory(65535).render(), "[65535]");
}

#[test]
fn render_displacement_zero() {
    assert_eq!(OperandSpec::IndexedMemory("bp", 0).render(), "[bp]");
    assert_eq!(OperandSpec::IndexedMemory("bx + si", 0).render(), "[bx + si]");
}

#[test]
fn render_displacement_positive() {
    assert_eq!(OperandSpec::IndexedMemory("bx + di", 5).render(), "[bx + di + 5]");
    assert_eq!(OperandSpec::IndexedMemory("si", 1).render(), "[si + 1]");
    assert_eq!(OperandSpec::IndexedMemory("di", 901).render(), "[di + 901]");
    assert_eq!(OperandSpec::IndexedMemory("bx", 32767).render(), "[bx + 32767]");
}

#[test]
fn render_displacement_negative() {
    assert_eq!(OperandSpec::IndexedMemory("bx + di", -37).render(), "[bx + di - 37]");
    assert_eq!(OperandSpec::IndexedMemory("si", -300).render(), "[si - 300]");
    assert_eq!(OperandSpec::IndexedMemory("bx", -1).render(), "[bx - 1]");
    assert_eq!(OperandSpec::IndexedMemory("bx", -128).render(), "[bx - 128]");
    assert_eq!(OperandSpec::IndexedMemory("bx", -32768).render(), "[bx - 32768]");
}

#[test]
fn displacement_term_for_every_value() {
    for displacement in i16::MIN..=i16::MAX {
        let text = OperandSpec::IndexedMemory("bp", displacement).render();
        let expected = if displacement == 0 {
            String::from("[bp]")
        } else if displacement > 0 {
            format!("[bp + {}]", displacement)
        } else {
            format!("[bp - {}]", -(displacement as i32))
        };
        assert_eq!(text, expected);
    }
}

#[test]
fn read_word_is_little_endian() {
    let data = [0x34u8, 0x12, 0xFF];
    let mut reader = BytesReader::new(&data);
    assert_eq!(read_word(&mut reader), Ok(0x1234));
    assert_eq!(reader.position(), 2);
    assert_eq!(read_word(&mut reader), Err(DecodeError::TruncatedInput));
    assert!(reader.has_reached_end());
}

#[test]
fn read_word_on_empty_buffer() {
    let mut reader = BytesReader::new(&[]);
    assert_eq!(read_word(&mut reader), Err(DecodeError::TruncatedInput));
    assert_eq!(reader.position(), 0);
}

#[test]
fn read_immediate_by_width() {
    let data = [0xF4u8, 0xF4, 0xFF, 0x01];
    let mut reader = BytesReader::new(&data);
    assert_eq!(read_immediate(&mut reader, 0), Ok(244));
    assert_eq!(reader.position(), 1);
    assert_eq!(read_immediate(&mut reader, 1), Ok(65524));
    assert_eq!(reader.position(), 3);
    assert_eq!(read_immediate(&mut reader, 1), Err(DecodeError::TruncatedInput));
    assert!(reader.has_reached_end());
}

#[test]
fn read_operand_register_consumes_nothing() {
    let data = [0xAAu8];
    let mut reader = BytesReader::new(&data);
    assert_eq!(read_operand(&mut reader, 0b001, 0b11, 1), Ok(OperandSpec::Register("cx")));
    assert_eq!(read_operand(&mut reader, 0b001, 0b11, 0), Ok(OperandSpec::Register("cl")));
    assert_eq!(reader.position(), 0);
}

#[test]
fn read_operand_memory_modes() {
    let data = [0x05u8, 0x00, 0xDB, 0xD4, 0xFE];
    let mut reader = BytesReader::new(&data);
    assert_eq!(read_operand(&mut reader, 0b110, 0b00, 1), Ok(OperandSpec::DirectMemory(5)));
    assert_eq!(reader.position(), 2);
    assert_eq!(
        read_operand(&mut reader, 0b011, 0b00, 1),
        Ok(OperandSpec::IndexedMemory("bp + di", 0))
    );
    assert_eq!(reader.position(), 2);
    assert_eq!(
        read_operand(&mut reader, 0b001, 0b01, 1),
        Ok(OperandSpec::IndexedMemory("bx + di", -37))
    );
    assert_eq!(reader.position(), 3);
    assert_eq!(
        read_operand(&mut reader, 0b100, 0b10, 1),
        Ok(OperandSpec::IndexedMemory("si", -300))
    );
    assert_eq!(reader.position(), 5);
}

#[test]
fn bp_without_displacement_is_a_direct_address() {
    let data = [0x00u8, 0x00];
    let mut reader = BytesReader::new(&data);
    assert_eq!(dis_effective_address(&mut reader, 0b110, 0b00, 1), Ok(String::from("[0]")));
    let mut reader = BytesReader::new(&data);
    assert_eq!(dis_effective_address(&mut reader, 0b110, 0b01, 1), Ok(String::from("[bp]")));
    assert_eq!(reader.position(), 1);
}

#[test]
fn effective_address_text() {
    let data = [0x05u8, 0x87, 0x13];
    let mut reader = BytesReader::new(&data);
    assert_eq!(
        dis_effective_address(&mut reader, 0b001, 0b01, 1),
        Ok(String::from("[bx + di + 5]"))
    );
    assert_eq!(
        dis_effective_address(&mut reader, 0b000, 0b10, 0),
        Ok(String::from("[bx + si + 4999]"))
    );
    assert_eq!(dis_effective_address(&mut reader, 0b111, 0b00, 0), Ok(String::from("[bx]")));
    assert_eq!(dis_effective_address(&mut reader, 0b111, 0b11, 0), Ok(String::from("bh")));
    assert_eq!(dis_effective_address(&mut reader, 0b111, 0b11, 1), Ok(String::from("di")));
    assert!(reader.has_reached_end());
}

#[test]
fn unsupported_addressing_mode() {
    let data = [0x00u8, 0x00];
    let mut reader = BytesReader::new(&data);
    assert_eq!(
        dis_effective_address(&mut reader, 0b000, 4, 1),
        Err(DecodeError::UnsupportedAddressingMode { mode: 4 })
    );
    assert_eq!(
        read_operand(&mut reader, 0b000, 255, 0),
        Err(DecodeError::UnsupportedAddressingMode { mode: 255 })
    );
    assert_eq!(reader.position(), 0);
}

#[test]
fn register_operand_outside_table() {
    let data = [0x00u8];
    let mut reader = BytesReader::new(&data);
    assert_eq!(
        dis_effective_address(&mut reader, 8, 0b11, 1),
        Err(DecodeError::InvalidEncoding)
    );
    assert_eq!(read_operand(&mut reader, 0, 0b11, 2), Err(DecodeError::InvalidEncoding));
    assert_eq!(reader.position(), 0);
}

#[test]
fn truncated_operand() {
    let data = [0x05u8];
    let mut reader = BytesReader::new(&data);
    assert_eq!(
        dis_effective_address(&mut reader, 0b110, 0b00, 1),
        Err(DecodeError::TruncatedInput)
    );
    assert!(reader.has_reached_end());
    let mut reader = BytesReader::new(&[]);
    assert_eq!(
        dis_effective_address(&mut reader, 0b000, 0b01, 1),
        Err(DecodeError::TruncatedInput)
    );
}

#[test]
fn emit_mov_joins_operands() {
    assert_eq!(emit_mov("cx", "bx"), "mov cx, bx");
    assert_eq!(emit_mov("[bp + di]", "byte 7"), "mov [bp + di], byte 7");
    assert_eq!(emit_mov("", ""), "mov , ");
}

#[test]
fn dis_mov_appends_one_line() {
    let data = [0x41u8, 0x05, 0xD9];
    let mut reader = BytesReader::new(&data);
    let mut output = String::from("; before\n");
    assert_eq!(dis_mov(&mut reader, &mut output, 0x8B), Ok(()));
    assert_eq!(output, "; before\nmov ax, [bx + di + 5]\n");
    assert_eq!(reader.position(), 2);
    assert_eq!(dis_mov(&mut reader, &mut output, 0x89), Ok(()));
    assert_eq!(output, "; before\nmov ax, [bx + di + 5]\nmov cx, bx\n");
    assert_eq!(reader.position(), 3);
}

#[test]
fn dis_mov_failure_leaves_output() {
    let data = [0x41u8];
    let mut reader = BytesReader::new(&data);
    let mut output = String::from("; before\n");
    assert_eq!(dis_mov(&mut reader, &mut output, 0x8B), Err(DecodeError::TruncatedInput));
    assert_eq!(output, "; before\n");
    assert!(reader.has_reached_end());
}

#[test]
fn dis_mov_immediate_to_register_widths() {
    let data = [0x0Cu8, 0xF4, 0xFF, 0x01];
    let mut reader = BytesReader::new(&data);
    let mut output = String::new();
    assert_eq!(dis_mov_immediate_to_register(&mut reader, &mut output, 0xB1), Ok(()));
    assert_eq!(reader.position(), 1);
    assert_eq!(dis_mov_immediate_to_register(&mut reader, &mut output, 0xB9), Ok(()));
    assert_eq!(reader.position(), 3);
    assert_eq!(output, "mov cl, 12\nmov cx, 65524\n");
    assert_eq!(
        dis_mov_immediate_to_register(&mut reader, &mut output, 0xB9),
        Err(DecodeError::TruncatedInput)
    );
    assert_eq!(output, "mov cl, 12\nmov cx, 65524\n");
}

#[test]
fn dis_mov_accumulator_forms() {
    let data = [0xFBu8, 0x09, 0xFA, 0x09, 0x00];
    let mut reader = BytesReader::new(&data);
    let mut output = String::new();
    assert_eq!(dis_mov_memory_to_accumulator(&mut reader, &mut output), Ok(()));
    assert_eq!(reader.position(), 2);
    assert_eq!(dis_mov_accumulator_to_memory(&mut reader, &mut output), Ok(()));
    assert_eq!(reader.position(), 4);
    assert_eq!(output, "mov ax, [2555]\nmov [2554], ax\n");
    assert_eq!(
        dis_mov_memory_to_accumulator(&mut reader, &mut output),
        Err(DecodeError::TruncatedInput)
    );
    assert_eq!(output, "mov ax, [2555]\nmov [2554], ax\n");
    let mut reader = BytesReader::new(&[]);
    assert_eq!(
        dis_mov_accumulator_to_memory(&mut reader, &mut output),
        Err(DecodeError::TruncatedInput)
    );
}

#[test]
fn dis_mov_immediate_to_memory_sizes() {
    let data = [0x03u8, 0x07, 0x85, 0x85, 0x03, 0x5B, 0x01, 0x06, 0x00, 0x00, 0x07];
    let mut reader = BytesReader::new(&data);
    let mut output = String::new();
    assert_eq!(dis_mov_immediate_to_register_or_memory(&mut reader, &mut output, 0xC6), Ok(()));
    assert_eq!(reader.position(), 2);
    assert_eq!(dis_mov_immediate_to_register_or_memory(&mut reader, &mut output, 0xC7), Ok(()));
    assert_eq!(reader.position(), 7);
    assert_eq!(dis_mov_immediate_to_register_or_memory(&mut reader, &mut output, 0xC6), Ok(()));
    assert_eq!(reader.position(), 11);
    assert_eq!(
        output,
        "mov [bp + di], byte 7\nmov [di + 901], word 347\nmov [0], byte 7\n"
    );
}

#[test]
fn dis_mov_immediate_to_memory_truncated_immediate() {
    let data = [0x85u8, 0x85, 0x03, 0x5B];
    let mut reader = BytesReader::new(&data);
    let mut output = String::from("x");
    assert_eq!(
        dis_mov_immediate_to_register_or_memory(&mut reader, &mut output, 0xC7),
        Err(DecodeError::TruncatedInput)
    );
    assert_eq!(output, "x");
    assert!(reader.has_reached_end());
}

#[test]
fn dis_instruction_steps_over_exactly_one_instruction() {
    let data = [
        0x89u8, 0xD9, 0xB8, 0x01, 0x00, 0x8B, 0x41, 0x05, 0xA1, 0x00, 0x01, 0xC6, 0x06, 0x00,
        0x00, 0x07, 0x8A, 0x80, 0x87, 0x13, 0xB1, 0x0C,
    ];
    let ends = [2usize, 5, 8, 11, 16, 20, 22];
    let mut reader = BytesReader::new(&data);
    let mut output = String::new();
    for end in ends {
        assert_eq!(dis_instruction(&mut reader, &mut output), Ok(()));
        assert_eq!(reader.position(), end);
    }
    assert!(reader.has_reached_end());
    assert_eq!(
        output,
        "mov cx, bx\nmov ax, 1\nmov ax, [bx + di + 5]\nmov ax, [256]\nmov [0], byte 7\n\
         mov al, [bx + si + 4999]\nmov cl, 12\n"
    );
}

#[test]
fn dis_instruction_failures() {
    let mut output = String::from("kept");
    let mut reader = BytesReader::new(&[]);
    assert_eq!(dis_instruction(&mut reader, &mut output), Err(DecodeError::TruncatedInput));
    let data = [0xFFu8, 0x00];
    let mut reader = BytesReader::new(&data);
    assert_eq!(
        dis_instruction(&mut reader, &mut output),
        Err(DecodeError::UnsupportedOpcode { byte: 0xFF })
    );
    assert_eq!(output, "kept");
}

#[test]
fn dis_instructions_reads_to_the_end() {
    let data = [0x89u8, 0xD9, 0xB8, 0x01, 0x00, 0xA1, 0x00, 0x01];
    let mut reader = BytesReader::new(&data);
    assert_eq!(
        dis_instructions(&mut reader),
        Ok(String::from("mov cx, bx\nmov ax, 1\nmov ax, [256]\n"))
    );
    assert_eq!(reader.position(), data.len());
    assert!(reader.has_reached_end());
    assert_eq!(dis_instructions(&mut reader), Ok(String::new()));
}

#[test]
fn dis_instructions_from_the_middle() {
    let data = [0x89u8, 0xD9, 0xB8, 0x01, 0x00];
    let mut reader = BytesReader::new(&data);
    assert_eq!(reader.read_byte(), Ok(0x89));
    assert_eq!(reader.read_byte(), Ok(0xD9));
    assert_eq!(dis_instructions(&mut reader), Ok(String::from("mov ax, 1\n")));
    assert_eq!(reader.position(), 5);
}

#[test]
fn dis_instructions_stops_at_first_failure() {
    let data = [0x89u8, 0xD9, 0x0F, 0xB8, 0x01, 0x00];
    let mut reader = BytesReader::new(&data);
    assert_eq!(
        dis_instructions(&mut reader),
        Err(DecodeError::UnsupportedOpcode { byte: 0x0F })
    );
}
