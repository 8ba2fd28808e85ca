//! A model of what the contract can see of the ledger while one invocation runs.
//!
//! Everything here is specification: the executable code reaches the ledger through the
//! functions of [`crate::host`], whose contracts speak of these types.

use soroban_sdk::Address;
use vstd::prelude::*;

verus! {

/// What follows the name in a tagged value.
pub enum Mark {
    Alone,
    Account(Address),
    Hash([u8; 32]),
}

/// What a host value denotes, as far as this contract tells values apart.
pub enum Datum {
    /// A name, alone or with one field: the form that storage keys and assets take.
    Tag(Seq<char>, Mark),
    Account(Address),
    Count(u32),
    Flag(bool),
    Amount(i128),
    /// A list that holds addresses only.
    Accounts(Seq<Address>),
    /// Any other value. No contract tells two of them apart.
    Other,
}

/// A call that left the contract, with what came back of it.
pub enum Call {
    /// The authorization of `by` was demanded, and given.
    Approval { by: Address },
    /// `function` of `contract` was invoked; `reply` is the number it returned, if it did.
    Invocation { contract: Address, function: Seq<char>, args: Seq<Datum>, reply: Option<i128> },
    /// `token` was told to move `amount`; `done` says whether it did.
    Transfer { token: Address, from: Address, to: Address, amount: i128, done: bool },
}

/// The TTL of an entry after an extension was asked for: a TTL of `threshold` ledgers or less is
/// raised to `extend_to`, or to the most that the network allows; no TTL is ever lowered.
pub open spec fn extended(ttl: u32, threshold: u32, extend_to: u32, max_ttl: u32) -> u32 {
    let target = if extend_to < max_ttl { extend_to } else { max_ttl };
    if ttl <= threshold && ttl < target {
        target
    } else {
        ttl
    }
}

/// The ledger as the executing contract sees it. TTLs count the ledgers that an entry still
/// lives after the current one.
#[verifier::ext_equal]
pub struct Ledger {
    /// A contract is executing, and the host serves it.
    pub running: bool,
    /// The contract that is executing.
    pub contract: Address,
    /// The number of the current ledger.
    pub sequence: u32,
    /// The highest TTL that the network lets an entry have.
    pub max_ttl: u32,
    /// The TTL that a persistent entry gets when it is created.
    pub fresh_ttl: u32,
    /// What the contract's instance storage holds under keys that are tags. Entries under other
    /// keys are not the business of this contract, and are not modelled.
    pub instance: Map<Datum, Datum>,
    /// What the contract's persistent storage holds under keys that are tags.
    pub persistent: Map<Datum, Datum>,
    /// The TTL of each of these entries of the persistent storage.
    pub ttl: Map<Datum, u32>,
    /// The calls that left the contract in this invocation, oldest first.
    pub calls: Seq<Call>,
}

impl Ledger {
    /// The host can serve storage calls: a contract executes, and no TTL that the network allows
    /// leads past the last ledger number.
    pub open spec fn ready(self) -> bool {
        &&& self.running
        &&& self.sequence + self.max_ttl <= u32::MAX
        &&& self.sequence + self.fresh_ttl <= u32::MAX
    }

    pub open spec fn put_instance(self, key: Datum, value: Datum) -> Ledger {
        Ledger { instance: self.instance.insert(key, value), ..self }
    }

    /// A new entry starts with the network's initial TTL; an old one keeps the TTL that it has.
    pub open spec fn put_persistent(self, key: Datum, value: Datum) -> Ledger {
        Ledger {
            persistent: self.persistent.insert(key, value),
            ttl: if self.persistent.contains_key(key) {
                self.ttl
            } else {
                self.ttl.insert(key, self.fresh_ttl)
            },
            ..self
        }
    }

    pub open spec fn extend(self, key: Datum, threshold: u32, extend_to: u32) -> Ledger {
        Ledger {
            ttl: self.ttl.insert(
                key,
                extended(self.ttl[key], threshold, extend_to, self.max_ttl),
            ),
            ..self
        }
    }

    pub open spec fn call(self, call: Call) -> Ledger {
        Ledger { calls: self.calls.push(call), ..self }
    }
}

/// How long the contract can still run: the TTL of its instance, and that of its code.
///
/// A contract's instance names its code itself, or leaves that to an entry of another contract.
/// In the latter case the code is whatever the entry names at the moment, and the other contract
/// may make it name code with a lower TTL.
pub struct Lifetime {
    pub instance: u32,
    pub code: u32,
    /// The TTL of the instance when the contract last came to execute: when it was invoked, or
    /// when the last of its calls came back.
    pub found_instance: u32,
    /// The TTL of the code at that moment.
    pub found_code: u32,
    /// How often the contract has asked for an extension of the two in this invocation.
    pub asked: nat,
}

impl Lifetime {
    pub open spec fn extended(self, threshold: u32, extend_to: u32, max_ttl: u32) -> Lifetime {
        Lifetime {
            instance: extended(self.instance, threshold, extend_to, max_ttl),
            code: extended(self.code, threshold, extend_to, max_ttl),
            asked: self.asked + 1,
            ..self
        }
    }

    /// The contract has asked for no extension since `earlier`, and its instance lives no less
    /// long. Anyone may lengthen that life, so no more is known of it once another contract has
    /// run.
    pub open spec fn follows(self, earlier: Lifetime) -> bool {
        self.instance >= earlier.instance && self.asked == earlier.asked
    }

    /// The contract has extended nothing since it last came to execute.
    pub open spec fn as_found(self) -> bool {
        self.instance == self.found_instance && self.code == self.found_code
    }
}

} // verus!
