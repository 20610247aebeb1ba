//! The error taxonomy of the ledger operations. Every error aborts the whole
//! operation: a failed call leaves the ledger exactly as it was.

use vstd::prelude::*;

verus! {

/// Why a ledger operation was refused.
#[derive(Clone, Copy, Debug, PartialEq, Eq, Structural)]
pub enum Error {
    /// A record was to be created at an address that is already occupied.
    AlreadyInitialized,
    /// An expected record is missing from the store.
    NotFound,
    /// The signer is not the required owner.
    Unauthorized,
    /// The escrow debit exceeds the caller's spendable balance.
    InsufficientFunds,
    /// A string field exceeds its bounded capacity.
    FieldTooLong,
    /// The service counter stands at the maximum representable value.
    CounterOverflow,
}

impl Error {
    /// A short name for the error, for hosts that report it.
    pub fn name(&self) -> (r: &'static str) {
        match self {
            Error::AlreadyInitialized => "already initialized",
            Error::NotFound => "not found",
            Error::Unauthorized => "unauthorized",
            Error::InsufficientFunds => "insufficient funds",
            Error::FieldTooLong => "field too long",
            Error::CounterOverflow => "counter overflow",
        }
    }
}

} // verus!
