use vstd::prelude::*;

verus! {

/// Which part of an instantiation message failed validation.
#[derive(Debug, Clone, Copy, PartialEq, Eq, Structural)]
pub enum InvalidField {
    Name,
    Symbol,
    Decimals,
}

/// Every failure the contract can report; each aborts the operation whole.
#[derive(Debug, Clone, Copy, PartialEq, Eq, Structural)]
pub enum ContractError {
    /// A message field is malformed or out of range.
    InvalidInput { field: InvalidField },
    /// Two initial balances name the same address.
    DuplicateInitialBalanceses,
    /// The sender holds less than the amount it tries to move.
    InsufficientBalance,
    /// A checked arithmetic operation on balances or counters left its range.
    Overflow,
    /// A token identifier chosen for assignment already has an owner.
    Claimed,
    /// A query named a token identifier that has no owner.
    NotFound,
}

} // verus!
