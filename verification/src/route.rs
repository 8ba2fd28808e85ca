//! Following a route through its pools.

use crate::errors::{Abort, ContractError};
use crate::host;
use crate::host::{datum, is_contract, is_symbol, ledger, only_called};
use crate::ledger::{Call, Datum, Ledger, Mark};
use crate::storage;
use crate::types::{Asset, Hop};
use soroban_sdk::{Address, Env, Val};
use vstd::prelude::*;

verus! {

/// The longest route that the contract follows.
pub const MAX_HOPS: usize = 4;

impl Asset {
    /// How the asset is named to a pool.
    pub open spec fn named(self) -> Datum {
        match self {
            Asset::Native => Datum::Tag("Native"@, Mark::Alone),
            Asset::Soroban(token) => Datum::Tag("Soroban"@, Mark::Account(token)),
        }
    }

    /// The host's value for the asset.
    fn to_val(&self, e: &Env) -> (v: Val)
        ensures
            datum(v) == self.named(),
    {
        proof {
            reveal_strlit("Native");
            reveal_strlit("Soroban");
        }
        match self {
            Asset::Native => host::tag(e, "Native"),
            Asset::Soroban(token) => host::tag_account(e, "Soroban", token),
        }
    }
}

/// The pools on a way, first to last.
pub open spec fn pools_of(hops: Seq<Hop>) -> Seq<Address> {
    hops.map_values(|hop: Hop| hop.pool)
}

/// What a pool is told for one hop: what it takes, what it gives, how much it gets, and, where
/// the function wants one, the least that it may give.
pub open spec fn hop_args(hop: Hop, amount: i128, floor: Option<i128>) -> Seq<Datum> {
    let args = seq![hop.source.named(), hop.destination.named(), Datum::Amount(amount)];
    match floor {
        Some(least) => args.push(Datum::Amount(least)),
        None => args,
    }
}

/// One hop with `amount`: the ledger after it, and the amount that the pool answered, where
/// `reply` is its answer.
pub open spec fn hop_taken(
    l: Ledger,
    hop: Hop,
    function: Seq<char>,
    floor: Option<i128>,
    amount: i128,
    reply: Option<i128>,
) -> (Ledger, Result<i128, Abort>) {
    if !l.supports(hop.pool) {
        (l, Err(Abort::Error(ContractError::PoolNotSupported)))
    } else if !is_contract(hop.pool) {
        (l, Err(Abort::Trap))
    } else {
        let after = l.call(
            Call::Invocation {
                contract: hop.pool,
                function,
                args: hop_args(hop, amount, floor),
                reply,
            },
        );
        match reply {
            Some(n) => (after, Ok(n)),
            None => (after, Err(Abort::Error(ContractError::PoolCallFailed))),
        }
    }
}

/// The hops one after the other, each with the amount that the one before it answered, up to the
/// first that fails. `replies` holds the answers of the pools.
pub open spec fn way_taken(
    l: Ledger,
    hops: Seq<Hop>,
    function: Seq<char>,
    floor: Option<i128>,
    amount: i128,
    replies: Seq<Option<i128>>,
) -> (Ledger, Result<i128, Abort>)
    decreases hops.len(),
{
    if hops.len() == 0 {
        (l, Ok(amount))
    } else {
        let (before, reached) = way_taken(l, hops.drop_last(), function, floor, amount, replies);
        match reached {
            Ok(n) => hop_taken(before, hops.last(), function, floor, n, replies[hops.len() - 1]),
            Err(abort) => (before, Err(abort)),
        }
    }
}

/// Only the answers of the pools on the way matter.
proof fn way_taken_agrees(
    l: Ledger,
    hops: Seq<Hop>,
    function: Seq<char>,
    floor: Option<i128>,
    amount: i128,
    replies: Seq<Option<i128>>,
    others: Seq<Option<i128>>,
)
    requires
        forall|i: int| 0 <= i < hops.len() ==> replies[i] == others[i],
    ensures
        way_taken(l, hops, function, floor, amount, replies) == way_taken(
            l,
            hops,
            function,
            floor,
            amount,
            others,
        ),
    decreases hops.len(),
{
    if hops.len() > 0 {
        way_taken_agrees(l, hops.drop_last(), function, floor, amount, replies, others);
    }
}

/// A way that has failed stays where it failed.
proof fn way_taken_stops(
    l: Ledger,
    hops: Seq<Hop>,
    n: int,
    function: Seq<char>,
    floor: Option<i128>,
    amount: i128,
    replies: Seq<Option<i128>>,
)
    requires
        0 <= n <= hops.len(),
        way_taken(l, hops.take(n), function, floor, amount, replies).1 is Err,
    ensures
        way_taken(l, hops, function, floor, amount, replies) == way_taken(
            l,
            hops.take(n),
            function,
            floor,
            amount,
            replies,
        ),
    decreases hops.len(),
{
    if n == hops.len() {
        assert(hops.take(n) =~= hops);
    } else {
        assert(hops.drop_last().take(n) =~= hops.take(n));
        way_taken_stops(l, hops.drop_last(), n, function, floor, amount, replies);
    }
}

/// Nothing but the calls changes on the way.
pub proof fn way_taken_only_calls(
    l: Ledger,
    hops: Seq<Hop>,
    function: Seq<char>,
    floor: Option<i128>,
    amount: i128,
    replies: Seq<Option<i128>>,
)
    ensures
        ({
            let after = way_taken(l, hops, function, floor, amount, replies).0;
            after == (Ledger { calls: after.calls, ..l })
        }),
    decreases hops.len(),
{
    if hops.len() > 0 {
        way_taken_only_calls(l, hops.drop_last(), function, floor, amount, replies);
    }
}

/// Asks the pool of a hop.
fn take_hop(e: &mut Env, hop: &Hop, function: &str, floor: Option<i128>, amount: i128) -> (r: Result<
    i128,
    Abort,
>)
    requires
        ledger(*old(e)).ready(),
        is_symbol(function@),
    ensures
        (ledger(*final(e)), r) == hop_taken(
            ledger(*old(e)),
            *hop,
            function@,
            floor,
            amount,
            r.ok(),
        ),
        only_called(*old(e), *final(e)),
{
    if !storage::is_supported_pool(e, hop.pool.clone()) {
        return Err(Abort::Error(ContractError::PoolNotSupported));
    }
    if !storage::is_contract_address(&hop.pool) {
        return Err(Abort::Trap);
    }
    let mut args: Vec<Val> = Vec::new();
    args.push(hop.source.to_val(e));
    args.push(hop.destination.to_val(e));
    args.push(host::amount_val(e, amount));
    if let Some(least) = floor {
        args.push(host::amount_val(e, least));
    }
    assert(args@.map_values(|v: Val| datum(v)) =~= hop_args(*hop, amount, floor));
    match host::try_invoke(e, &hop.pool, function, &args) {
        Some(n) => Ok(n),
        None => Err(Abort::Error(ContractError::PoolCallFailed)),
    }
}

/// Asks the pools of all hops in turn. The second component is what they answered.
pub(crate) fn take_way(
    e: &mut Env,
    hops: &Vec<Hop>,
    function: &str,
    floor: Option<i128>,
    amount: i128,
) -> (r: (Result<i128, Abort>, Ghost<Seq<Option<i128>>>))
    requires
        ledger(*old(e)).ready(),
        is_symbol(function@),
    ensures
        (ledger(*final(e)), r.0) == way_taken(
            ledger(*old(e)),
            hops@,
            function@,
            floor,
            amount,
            r.1@,
        ),
        only_called(*old(e), *final(e)),
{
    let ghost start = ledger(*e);
    let ghost mut replies: Seq<Option<i128>> = Seq::empty();
    let mut current: i128 = amount;
    let n: usize = hops.len();
    let mut i: usize = 0;
    while i < n
        invariant
            n == hops@.len(),
            i <= n,
            replies.len() == i,
            start == ledger(*old(e)),
            start.ready(),
            ledger(*e).ready(),
            is_symbol(function@),
            (ledger(*e), Ok::<i128, Abort>(current)) == way_taken(
                start,
                hops@.take(i as int),
                function@,
                floor,
                amount,
                replies,
            ),
            ledger(*e).calls.len() >= start.calls.len(),
            only_called(*old(e), *e),
        decreases n - i,
    {
        let reached = take_hop(e, &hops[i], function, floor, current);
        proof {
            let longer = replies.push(reached.ok());
            let part = hops@.take(i + 1);
            assert(part.drop_last() =~= hops@.take(i as int));
            way_taken_agrees(
                start,
                hops@.take(i as int),
                function@,
                floor,
                amount,
                replies,
                longer,
            );
            replies = longer;
            assert((ledger(*e), reached) == way_taken(
                start,
                part,
                function@,
                floor,
                amount,
                replies,
            ));
            if reached is Err {
                way_taken_stops(start, hops@, i + 1, function@, floor, amount, replies);
            }
        }
        match reached {
            Ok(received) => {
                current = received;
            },
            Err(abort) => {
                return (Err(abort), Ghost(replies));
            },
        }
        i = i + 1;
    }
    assert(hops@.take(n as int) =~= hops@);
    (Ok(current), Ghost(replies))
}

} // verus!
