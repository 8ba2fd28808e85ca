//! How an entry point can fail.

use vstd::prelude::*;

verus! {

/// The errors that the contract returns.
#[derive(Clone, Copy, Debug, PartialEq, Eq, Structural)]
pub enum ContractError {
    AlreadyInitialized,
    NotInitialized,
    InvalidAmount,
    InvalidRoute,
    Paused,
    PoolNotSupported,
    PoolCallFailed,
    SlippageExceeded,
    DeadlineExceeded,
}

/// Why an invocation that calls other contracts came to no result.
#[derive(Clone, Copy, Debug, PartialEq, Eq, Structural)]
pub enum Abort {
    /// The contract returns this error.
    Error(ContractError),
    /// The invocation cannot go on and is to be ended by a panic: a token refused a transfer, an
    /// address that was to be called is not that of a contract, an amount does not fit in its
    /// type, or nobody is named to receive the fee.
    Trap,
}

} // verus!
