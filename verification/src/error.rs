//! The error set of the contract.
use vstd::prelude::*;

verus! {

/// Everything an entry point can fail with. `Std` carries the message of a
/// failure that the host would report as a generic error; the other
/// variants classify validation and authorization failures of the name
/// registry.
#[derive(Debug, Clone, PartialEq, Eq)]
pub enum ContractError {
    Std { msg: String },
    Unauthorized {},
    InsufficientFundsSend {},
    NameTaken { name: String },
    NameNotExists { name: String },
    NameTooShort { length: u64, min_length: u64 },
    NameTooLong { length: u64, max_length: u64 },
    InvalidCharacter { c: char },
}

} // verus!
