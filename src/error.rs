//! The failures of decoding and of dispatching an instruction.
use vstd::prelude::*;

verus! {

/// Bytes that do not have the expected layout.
#[derive(Clone, Copy, Debug, PartialEq, Eq, Structural)]
pub enum DecodeError {
    /// An instruction with no opcode byte.
    MissingOpcode,
    /// An opcode that names no instruction.
    UnknownInstruction,
    /// An instruction whose payload is not the length that its opcode takes:
    /// none for opcodes 0 and 1, one key for opcodes 2 and 3.
    InvalidPayloadLength,
    /// Access-list bytes whose length is not a multiple of 32.
    MalformedLength,
    /// Global-record bytes that are not a count followed by that many
    /// entries, or that register an owner twice.
    MalformedState,
}

/// A mutation that the caller may not make.
#[derive(Clone, Copy, Debug, PartialEq, Eq, Structural)]
pub enum AuthorizationError {
    /// The caller's account did not sign.
    MissingRequiredSignature,
    /// The presented slot is not the one registered for the caller.
    SlotMismatch,
    /// The presented slot is already registered to another owner.
    SlotTaken,
}

/// The host did not supply what the instruction needs, or cannot hold what
/// it produces.
#[derive(Clone, Copy, Debug, PartialEq, Eq, Structural)]
pub enum HostIOError {
    /// Fewer accounts than the instruction reads.
    NotEnoughAccountKeys,
    /// The new bytes would not fit their layout or the host's buffer.
    AccountDataTooLarge,
}

/// The one failure of a dispatch call.
#[derive(Clone, Copy, Debug, PartialEq, Eq, Structural)]
pub enum ProcessError {
    Decode(DecodeError),
    Authorization(AuthorizationError),
    /// The caller has no registered access list.
    NotFound,
    HostIO(HostIOError),
}

} // verus!
