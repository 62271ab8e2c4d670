use vstd::prelude::*;

verus! {

/// Why an instruction was refused.
#[derive(Clone, Copy, Debug, PartialEq, Eq, Structural)]
pub enum TokenError {
    /// Unknown opcode, or a payload shorter than the opcode needs.
    InvalidInstruction,
    /// The account to be initialised is not owned by this program.
    IncorrectOwner,
    /// Mint on a record whose amount is already nonzero.
    AlreadyInitialized,
    /// Transfer without a signing authority.
    MissingSignature,
    /// Transfer of more than the source holds.
    InsufficientFunds,
    /// A buffer too short for the fixed record layout.
    Malformed,
    /// Fewer accounts than the instruction expects.
    NotEnoughAccounts,
    /// Transfer out of a record that was never minted.
    Uninitialized,
    /// A credit that would take a balance past `u64::MAX`.
    Overflow,
}

} // verus!
