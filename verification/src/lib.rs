//! A Soroban contract that routes swaps through registered pools.
//!
//! [`router`] holds the entry points and [`storage`] what they keep on the ledger. Their contracts
//! speak of the model in [`ledger`]; [`host`] ties the model to the SDK. [`laws`] states what
//! holds of the contract as a whole, [`promises`] what comes of each call, and [`meaning`] what the
//! words of the contracts stand for.

pub mod errors;
pub mod events;
pub mod fees;
pub mod host;
pub mod laws;
pub mod ledger;
pub mod meaning;
pub mod promises;
pub mod route;
pub mod router;
pub mod storage;
pub mod types;

pub use router::StellarRoute;
