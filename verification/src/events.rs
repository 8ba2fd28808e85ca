//! What the contract tells the world.
//!
//! The entry points write their events to an [`EventLog`], in the order in which they are to be
//! published. Publishing them is left to whoever runs the entry point.

use crate::types::{Hop, Route};
use soroban_sdk::Address;
use vstd::prelude::*;

verus! {

/// An event. `R` is how the route of a swap is written down in it.
#[derive(Debug)]
pub enum Event<R> {
    Initialized { admin: Address, fee_rate: u32 },
    AdminChanged { old_admin: Address, new_admin: Address },
    PoolRegistered { pool: Address },
    Paused,
    Unpaused,
    SwapExecuted {
        sender: Address,
        amount_in: i128,
        amount_out: i128,
        fee_amount: i128,
        route: R,
    },
    TtlExtended { pools_extended: u32, ledger: u32 },
    TtlWarning { remaining: u64, threshold: u32 },
}

impl View for Event<Route> {
    type V = Event<Seq<Hop>>;

    open spec fn view(&self) -> Event<Seq<Hop>> {
        match *self {
            Event::Initialized { admin, fee_rate } => Event::Initialized { admin, fee_rate },
            Event::AdminChanged { old_admin, new_admin } => Event::AdminChanged {
                old_admin,
                new_admin,
            },
            Event::PoolRegistered { pool } => Event::PoolRegistered { pool },
            Event::Paused => Event::Paused,
            Event::Unpaused => Event::Unpaused,
            Event::SwapExecuted { sender, amount_in, amount_out, fee_amount, route } =>
                Event::SwapExecuted { sender, amount_in, amount_out, fee_amount, route: route@ },
            Event::TtlExtended { pools_extended, ledger } => Event::TtlExtended {
                pools_extended,
                ledger,
            },
            Event::TtlWarning { remaining, threshold } => Event::TtlWarning {
                remaining,
                threshold,
            },
        }
    }
}

/// The events of an invocation, oldest first.
#[derive(Debug)]
pub struct EventLog {
    pub entries: Vec<Event<Route>>,
}

impl View for EventLog {
    type V = Seq<Event<Seq<Hop>>>;

    open spec fn view(&self) -> Seq<Event<Seq<Hop>>> {
        self.entries@.map_values(|event: Event<Route>| event@)
    }
}

impl EventLog {
    /// A log without events.
    pub fn new() -> (log: EventLog)
        ensures
            log@ == Seq::<Event<Seq<Hop>>>::empty(),
    {
        let log = EventLog { entries: Vec::new() };
        assert(log@ =~= Seq::<Event<Seq<Hop>>>::empty());
        log
    }

    /// Adds an event to the end of the log.
    pub fn emit(&mut self, event: Event<Route>)
        ensures
            final(self)@ == old(self)@.push(event@),
    {
        self.entries.push(event);
        assert(self@ =~= old(self)@.push(event@));
    }
}

} // verus!
