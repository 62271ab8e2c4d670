use vstd::prelude::*;
use crate::endian::{le_value, read_u64_le};
use crate::error::TokenError;

verus! {

/// Bytes of a mint or transfer payload: the opcode and a u64 amount.
pub const INSTRUCTION_LEN: usize = 9;

/// The instructions this program understands.
#[derive(Clone, Copy, Debug, PartialEq, Eq, Structural)]
pub enum TokenInstruction {
    /// Opcode 0: initialise a record with `amount`.
    Mint { amount: u64 },
    /// Opcode 1: move `amount` from one record to another.
    Transfer { amount: u64 },
}

/// The instruction a payload encodes: byte 0 is the opcode, bytes 1..9 the
/// amount as u64 little-endian; bytes beyond the ninth are ignored.
pub open spec fn instruction_from_bytes(data: Seq<u8>) -> Result<TokenInstruction, TokenError> {
    if data.len() < INSTRUCTION_LEN {
        Err(TokenError::InvalidInstruction)
    } else if data[0] == 0 {
        Ok(TokenInstruction::Mint { amount: le_value(data.subrange(1, 9)) })
    } else if data[0] == 1 {
        Ok(TokenInstruction::Transfer { amount: le_value(data.subrange(1, 9)) })
    } else {
        Err(TokenError::InvalidInstruction)
    }
}

impl TokenInstruction {
    /// Decodes a payload, or rejects it with `InvalidInstruction`.
    pub fn unpack(data: &[u8]) -> (r: Result<TokenInstruction, TokenError>)
        ensures
            r == instruction_from_bytes(data@),
    {
        if data.len() < INSTRUCTION_LEN {
            return Err(TokenError::InvalidInstruction);
        }
        let opcode = data[0];
        if opcode > 1 {
            return Err(TokenError::InvalidInstruction);
        }
        let amount = read_u64_le(data, 1);
        if opcode == 0 {
            Ok(TokenInstruction::Mint { amount })
        } else {
            Ok(TokenInstruction::Transfer { amount })
        }
    }
}

} // verus!
