//! A disassembler for the MOV family of the 8086 instruction set.
//!
//! The library turns raw machine code into assembly text. Every function is
//! verified against a mathematical description of the encoding: which bytes
//! an instruction occupies, and which line of text it denotes.
//!
//! - [`reader`]: the cursor over the input, the only state that changes.
//! - [`fields`]: the bit fields of the first two bytes of an instruction.
//! - [`tables`]: register names and the base expressions of memory operands.
//! - [`decimal`]: numbers in base ten.
//! - [`operand`]: operands, how they are read and how they are written.
//! - [`instruction`]: the five forms of MOV and their handlers.
//! - [`listing`]: whole programs, and what holds of every listing.
//! - [`text`]: lines and line breaks.

pub mod decimal;
pub mod error;
pub mod fields;
pub mod instruction;
pub mod listing;
pub mod operand;
pub mod reader;
pub mod tables;
pub mod text;

pub use decimal::{append_decimal, decimal_string};
pub use error::DecodeError;
pub use fields::{
    direction_bit,
    immediate_width_bit,
    mod_field,
    reg_field,
    rm_field,
    width_bit,
};
pub use instruction::{
    classify,
    dis_instruction,
    dis_mov,
    dis_mov_accumulator_to_memory,
    dis_mov_immediate_to_register,
    dis_mov_immediate_to_register_or_memory,
    dis_mov_memory_to_accumulator,
    emit_mov,
    read_immediate,
    InstructionForm,
};
pub use listing::{dis_instructions, disassembly};
pub use operand::{dis_effective_address, read_operand, read_word, OperandSpec};
pub use reader::BytesReader;
pub use tables::{decode_register, effective_address_calculation};
