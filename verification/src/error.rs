//! The ways in which decoding can fail.

use vstd::prelude::*;

verus! {

/// Why a byte sequence could not be decoded. Every failure is final: the
/// decoder never retries and never returns a partial listing.
#[derive(Clone, Copy, Debug, PartialEq, Eq, Structural)]
pub enum DecodeError {
    /// An instruction needs more bytes than the buffer still holds.
    TruncatedInput,
    /// The first byte of an instruction belongs to none of the MOV forms.
    UnsupportedOpcode { byte: u8 },
    /// An addressing mode outside the four that two bits can express.
    UnsupportedAddressingMode { mode: u8 },
    /// A register code or width flag outside the register table.
    InvalidEncoding,
}

} // verus!
