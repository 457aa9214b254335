//! Instructions: one opcode byte, then a 32-byte key for the two list
//! mutations.
use crate::codec::{key_at, Identity};
use crate::error::DecodeError;
use vstd::prelude::*;

verus! {

/// The instructions that the dispatcher carries out.
#[derive(Clone, Copy, Debug, PartialEq, Eq)]
pub enum ProgInstruction {
    /// Opcode 0: write an empty global record.
    Init,
    /// Opcode 1: give the caller an empty access list in the presented slot
    /// and register that slot for the caller; refused when the slot is
    /// registered to another owner.
    InitAccessList,
    /// Opcode 2: add a key to the caller's access list.
    AddPKToAccessListAccount(Identity),
    /// Opcode 3: remove a key from the caller's access list.
    RemovePKToAccessListAccount(Identity),
}

/// Opcode of `Init`.
pub const OP_INIT: u8 = 0;
/// Opcode of `InitAccessList`.
pub const OP_INIT_ACCESS_LIST: u8 = 1;
/// Opcode of `AddPKToAccessListAccount`.
pub const OP_ADD_KEY: u8 = 2;
/// Opcode of `RemovePKToAccessListAccount`.
pub const OP_REMOVE_KEY: u8 = 3;

/// The length of a key-bearing instruction: the opcode and one key.
pub const KEYED_INSTRUCTION_LEN: usize = 33;

/// `input` is a well-formed instruction that reads as `ins`.
pub open spec fn instruction_image(ins: ProgInstruction, input: Seq<u8>) -> bool {
    &&& input.len() > 0
    &&& match ins {
        ProgInstruction::Init => input[0] == OP_INIT && input.len() == 1,
        ProgInstruction::InitAccessList => input[0] == OP_INIT_ACCESS_LIST && input.len() == 1,
        ProgInstruction::AddPKToAccessListAccount(k) => input[0] == OP_ADD_KEY && input.len() == 33
            && k@ == input.subrange(1, 33),
        ProgInstruction::RemovePKToAccessListAccount(k) => input[0] == OP_REMOVE_KEY && input.len()
            == 33 && k@ == input.subrange(1, 33),
    }
}

/// The error that decoding `input` meets, if any.
pub open spec fn instruction_error(input: Seq<u8>) -> Option<DecodeError> {
    if input.len() == 0 {
        Some(DecodeError::MissingOpcode)
    } else if input[0] > OP_REMOVE_KEY {
        Some(DecodeError::UnknownInstruction)
    } else if (input[0] == OP_INIT || input[0] == OP_INIT_ACCESS_LIST) && input.len() != 1 {
        Some(DecodeError::InvalidPayloadLength)
    } else if (input[0] == OP_ADD_KEY || input[0] == OP_REMOVE_KEY) && input.len() != 33 {
        Some(DecodeError::InvalidPayloadLength)
    } else {
        None
    }
}

impl ProgInstruction {
    /// Decodes an instruction: the opcode, then exactly the payload of its
    /// variant (none for `Init` and `InitAccessList`, one key otherwise).
    pub fn unpack(input: &[u8]) -> (r: Result<Self, DecodeError>)
        ensures
            r is Err <==> instruction_error(input@) is Some,
            r is Err ==> r->Err_0 == instruction_error(input@)->Some_0,
            r is Ok ==> instruction_image(r->Ok_0, input@),
    {
        if input.len() == 0 {
            return Err(DecodeError::MissingOpcode);
        }
        let op = input[0];
        if (op == OP_INIT || op == OP_INIT_ACCESS_LIST) && input.len() != 1 {
            return Err(DecodeError::InvalidPayloadLength);
        }
        if op == OP_INIT {
            Ok(ProgInstruction::Init)
        } else if op == OP_INIT_ACCESS_LIST {
            Ok(ProgInstruction::InitAccessList)
        } else if op == OP_ADD_KEY || op == OP_REMOVE_KEY {
            if input.len() != KEYED_INSTRUCTION_LEN {
                return Err(DecodeError::InvalidPayloadLength);
            }
            let key = key_at(input, 1);
            if op == OP_ADD_KEY {
                Ok(ProgInstruction::AddPKToAccessListAccount(key))
            } else {
                Ok(ProgInstruction::RemovePKToAccessListAccount(key))
            }
        } else {
            Err(DecodeError::UnknownInstruction)
        }
    }
}

/// An instruction's bytes determine it.
pub proof fn lemma_instruction_image_unique(a: ProgInstruction, b: ProgInstruction, input: Seq<u8>)
    requires
        instruction_image(a, input),
        instruction_image(b, input),
    ensures
        a == b,
{
    match (a, b) {
        (ProgInstruction::AddPKToAccessListAccount(x), ProgInstruction::AddPKToAccessListAccount(y)) => {
            crate::codec::lemma_identity_ext(x, y);
        },
        (
            ProgInstruction::RemovePKToAccessListAccount(x),
            ProgInstruction::RemovePKToAccessListAccount(y),
        ) => {
            crate::codec::lemma_identity_ext(x, y);
        },
        _ => {},
    }
}

} // verus!
