//! What the entry points do, written out over what goes into a call and what comes of it.

use crate::errors::{Abort, ContractError};
use crate::events::{Event, EventLog};
use crate::fees::{fee_on, Settlement};
use crate::host::{authorized, is_contract, ledger, lifetime};
use crate::laws::{refresh_pools_reaches, shares_fit};
use crate::ledger::{extended, Call, Datum, Ledger};
use crate::meaning::{fee_is_the_share, is_share, share_is_unique};
use crate::route::{pools_of, way_taken};
use crate::router::{
    accept, accepted, quote_for, quote_outcome, refresh_pools_only_ttl, swap_outcome, swap_settled,
    StellarRoute, SwapOutcome, SwapReplies,
};
use crate::storage::{reveal_key_names, StorageKey};
use crate::types::{Asset, Hop, QuoteResult, Route, SwapParams, SwapResult, TTLStatus};
use soroban_sdk::{Address, Env};
use vstd::prelude::*;

verus! {

// ---- Administration ----

/// Setting up is refused where there is an administrator, and at a rate above 1000. Otherwise it
/// stores what was given, notes the ledger, tells of it and extends the instance once.
pub proof fn setting_up_stores_what_is_given(
    e: &mut Env,
    log: &mut EventLog,
    admin: Address,
    fee_rate: u32,
    fee_to: Address,
    r: Result<(), ContractError>,
)
    requires
        call_ensures(StellarRoute::initialize, (e, log, admin, fee_rate, fee_to), r),
    ensures
        ({
            let l = ledger(*old(e));
            let m = ledger(*final(e));
            let before = lifetime(*old(e));
            let after = lifetime(*final(e));
            let taken = l.instance.contains_key(StorageKey::Admin@);
            &&& r == Err::<(), ContractError>(ContractError::AlreadyInitialized) <==> taken
            &&& r == Err::<(), ContractError>(ContractError::InvalidAmount) <==> !taken && fee_rate
                > 1000
            &&& r is Ok <==> !taken && fee_rate <= 1000
            &&& r is Err ==> *final(e) == *old(e) && final(log)@ == old(log)@
            &&& r is Ok ==> {
                &&& m == (Ledger { instance: m.instance, ..l })
                &&& m.instance == l.instance.insert(
                    StorageKey::Admin@,
                    Datum::Account(admin),
                ).insert(StorageKey::FeeRate@, Datum::Count(fee_rate)).insert(
                    StorageKey::FeeTo@,
                    Datum::Account(fee_to),
                ).insert(StorageKey::Paused@, Datum::Flag(false)).insert(
                    StorageKey::LastTtlExtension@,
                    Datum::Count(l.sequence),
                )
                &&& final(log)@ == old(log)@.push(Event::Initialized { admin, fee_rate })
                &&& after.instance == extended(before.instance, 120960, 518400, l.max_ttl)
                &&& after.code == extended(before.code, 120960, 518400, l.max_ttl)
                &&& after.asked == before.asked + 1
            }
        }),
{
}

/// Handing the administration over asks the administrator, stores the new one, tells of both and
/// extends the instance once.
pub proof fn handing_over_stores_the_new_admin(
    e: &mut Env,
    log: &mut EventLog,
    new_admin: Address,
    r: Result<(), ContractError>,
)
    requires
        call_ensures(StellarRoute::set_admin, (e, log, new_admin), r),
    ensures
        ({
            let l = ledger(*old(e));
            let before = lifetime(*old(e));
            let after = lifetime(*final(e));
            let old_admin = l.instance[StorageKey::Admin@]->Account_0;
            &&& r is Ok
            &&& ledger(*final(e)) == (Ledger {
                instance: l.instance.insert(StorageKey::Admin@, Datum::Account(new_admin)),
                calls: l.calls.push(Call::Approval { by: old_admin }),
                ..l
            })
            &&& final(log)@ == old(log)@.push(Event::AdminChanged { old_admin, new_admin })
            &&& after.instance == extended(after.found_instance, 120960, 518400, l.max_ttl)
            &&& after.code == extended(after.found_code, 120960, 518400, l.max_ttl)
            &&& after.found_instance >= before.instance
            &&& after.asked == before.asked + 1
        }),
{
}

/// Registering a pool asks the administrator. A pool that is known is refused, and nothing is
/// stored. One that is not is marked, counted, listed last, given 90 days to live, and told of.
pub proof fn registering_adds_the_pool(
    e: &mut Env,
    log: &mut EventLog,
    pool: Address,
    r: Result<(), ContractError>,
)
    requires
        call_ensures(StellarRoute::register_pool, (e, log, pool), r),
        ledger(*old(e)).pool_count() < u32::MAX,
    ensures
        ({
            let l = ledger(*old(e));
            let m = ledger(*final(e));
            let before = lifetime(*old(e));
            let after = lifetime(*final(e));
            let key = StorageKey::SupportedPool(pool)@;
            let calls = l.calls.push(
                Call::Approval { by: l.instance[StorageKey::Admin@]->Account_0 },
            );
            let known = l.persistent.contains_key(key);
            &&& r is Ok <==> !known
            &&& r is Err <==> r == Err::<(), ContractError>(ContractError::PoolNotSupported)
            &&& known ==> m == (Ledger { calls, ..l }) && final(log)@ == old(log)@ && after.asked
                == before.asked
            &&& !known ==> {
                &&& m == (Ledger {
                    instance: m.instance,
                    persistent: m.persistent,
                    ttl: m.ttl,
                    calls,
                    ..l
                })
                &&& m.persistent == l.persistent.insert(key, Datum::Flag(true))
                &&& m.ttl == l.ttl.insert(key, extended(l.fresh_ttl, 380160, 1555200, l.max_ttl))
                &&& m.instance == l.instance.insert(
                    StorageKey::PoolCount@,
                    Datum::Count((l.pool_count() + 1) as u32),
                ).insert(StorageKey::PoolList@, Datum::Accounts(l.pool_list().push(pool)))
                &&& final(log)@ == old(log)@.push(Event::PoolRegistered { pool })
                &&& after.instance == extended(after.found_instance, 120960, 518400, l.max_ttl)
                &&& after.code == extended(after.found_code, 120960, 518400, l.max_ttl)
                &&& after.found_instance >= before.instance
                &&& after.asked == before.asked + 1
            }
        }),
{
    reveal_key_names();
    let l = ledger(*old(e));
    let key = StorageKey::SupportedPool(pool)@;
    let goal = extended(l.fresh_ttl, 380160, 1555200, l.max_ttl);
    assert(l.ttl.insert(key, l.fresh_ttl).insert(key, goal) =~= l.ttl.insert(key, goal));
}

/// Pausing and unpausing ask the administrator, store the flag, tell of it and extend the instance
/// once.
pub proof fn pausing_stores_the_flag(
    e: &mut Env,
    log: &mut EventLog,
    r: Result<(), ContractError>,
    f: &mut Env,
    other: &mut EventLog,
    s: Result<(), ContractError>,
)
    requires
        call_ensures(StellarRoute::pause, (e, log), r),
        call_ensures(StellarRoute::unpause, (f, other), s),
    ensures
        ({
            let l = ledger(*old(e));
            let before = lifetime(*old(e));
            let after = lifetime(*final(e));
            &&& r is Ok
            &&& ledger(*final(e)) == (Ledger {
                instance: l.instance.insert(StorageKey::Paused@, Datum::Flag(true)),
                calls: l.calls.push(
                    Call::Approval { by: l.instance[StorageKey::Admin@]->Account_0 },
                ),
                ..l
            })
            &&& final(log)@ == old(log)@.push(Event::Paused)
            &&& after.instance == extended(after.found_instance, 120960, 518400, l.max_ttl)
            &&& after.code == extended(after.found_code, 120960, 518400, l.max_ttl)
            &&& after.found_instance >= before.instance
            &&& after.asked == before.asked + 1
        }),
        ({
            let l = ledger(*old(f));
            let before = lifetime(*old(f));
            let after = lifetime(*final(f));
            &&& s is Ok
            &&& ledger(*final(f)) == (Ledger {
                instance: l.instance.insert(StorageKey::Paused@, Datum::Flag(false)),
                calls: l.calls.push(
                    Call::Approval { by: l.instance[StorageKey::Admin@]->Account_0 },
                ),
                ..l
            })
            &&& final(other)@ == old(other)@.push(Event::Unpaused)
            &&& after.instance == extended(after.found_instance, 120960, 518400, l.max_ttl)
            &&& after.code == extended(after.found_code, 120960, 518400, l.max_ttl)
            &&& after.found_instance >= before.instance
            &&& after.asked == before.asked + 1
        }),
{
}

// ---- Following a route ----

/// Whether `call` asks the pool of `hop` for `function` with `amount`, and brought `reply`.
spec fn asks(
    call: Call,
    hop: Hop,
    function: Seq<char>,
    floor: Option<i128>,
    amount: i128,
    reply: Option<i128>,
) -> bool {
    &&& call is Invocation
    &&& call->contract == hop.pool
    &&& call->function == function
    &&& call->reply == reply
    &&& call->args.len() == if floor is Some {
        4nat
    } else {
        3nat
    }
    &&& call->args[0] == hop.source.named()
    &&& call->args[1] == hop.destination.named()
    &&& call->args[2] == Datum::Amount(amount)
    &&& floor is Some ==> call->args[3] == Datum::Amount(floor->0)
}

/// How a route is followed, and where it ends.
proof fn way_in_full(
    l: Ledger,
    hops: Seq<Hop>,
    function: Seq<char>,
    floor: Option<i128>,
    amount: i128,
    replies: Seq<Option<i128>>,
)
    ensures
        ({
            let (m, reached) = way_taken(l, hops, function, floor, amount, replies);
            let n = l.calls.len() as int;
            let k = m.calls.len() - n;
            &&& m == (Ledger { calls: m.calls, ..l })
            &&& 0 <= k <= hops.len()
            &&& l.calls.is_prefix_of(m.calls)
            &&& forall|i: int| 0 <= i < k ==> {
                &&& asks(
                    m.calls[n + i],
                    #[trigger] hops[i],
                    function,
                    floor,
                    if i == 0 {
                        amount
                    } else {
                        replies[i - 1]->0
                    },
                    replies[i],
                )
                &&& l.supports(hops[i].pool)
                &&& is_contract(hops[i].pool)
                &&& i < k - 1 ==> replies[i] is Some
            }
            &&& match reached {
                Ok(received) => {
                    &&& k == hops.len()
                    &&& k > 0 ==> replies[k - 1] == Some(received)
                    &&& k == 0 ==> received == amount
                },
                Err(Abort::Error(ContractError::PoolNotSupported)) => {
                    &&& k < hops.len()
                    &&& !l.supports(hops[k].pool)
                    &&& k > 0 ==> replies[k - 1] is Some
                },
                Err(Abort::Error(ContractError::PoolCallFailed)) => {
                    &&& k > 0
                    &&& replies[k - 1] is None
                },
                Err(Abort::Trap) => {
                    &&& k < hops.len()
                    &&& l.supports(hops[k].pool)
                    &&& !is_contract(hops[k].pool)
                    &&& k > 0 ==> replies[k - 1] is Some
                },
                _ => false,
            }
        }),
    decreases hops.len(),
{
    if hops.len() > 0 {
        let rest = hops.drop_last();
        way_in_full(l, rest, function, floor, amount, replies);
        let (before, halfway) = way_taken(l, rest, function, floor, amount, replies);
        let (m, reached) = way_taken(l, hops, function, floor, amount, replies);
        let n = l.calls.len() as int;
        let k = m.calls.len() - n;
        assert(l.calls.is_prefix_of(m.calls)) by {
            assert(l.calls =~= m.calls.take(n));
        }
        assert forall|i: int| 0 <= i < k implies {
            &&& asks(
                m.calls[n + i],
                #[trigger] hops[i],
                function,
                floor,
                if i == 0 {
                    amount
                } else {
                    replies[i - 1]->0
                },
                replies[i],
            )
            &&& l.supports(hops[i].pool)
            &&& is_contract(hops[i].pool)
            &&& i < k - 1 ==> replies[i] is Some
        } by {
            if i < before.calls.len() - n {
                assert(rest[i] == hops[i]);
                assert(m.calls[n + i] == before.calls[n + i]);
            }
        }
        if halfway is Err && before.calls.len() - n < rest.len() {
            assert(rest[before.calls.len() - n] == hops[before.calls.len() - n]);
        }
    }
}

// ---- Quotes ----

/// A quote is what the last pool answered less its share at the rate. It puts the price impact at
/// five hundredths of a percent for each hop, and is good for 120 ledgers.
pub proof fn quote_is_worked_out_from_the_answer(
    received: i128,
    fee_rate: u32,
    sequence: u32,
    route: Route,
    r: Result<QuoteResult, Abort>,
)
    requires
        call_ensures(quote_for, (received, fee_rate, sequence, route), r),
        route@.len() <= 4,
    ensures
        r is Ok <==> i128::MIN <= received * fee_rate <= i128::MAX && sequence + 120 <= u32::MAX,
        r is Err ==> r->Err_0 == Abort::Trap,
        r matches Ok(quote) ==> {
            &&& quote.expected_output + quote.fee_amount == received
            &&& is_share(quote.fee_amount as int, received as int, fee_rate as int)
            &&& quote.price_impact_bps == 5 * route@.len()
            &&& quote.valid_until == sequence + 120
            &&& quote.route == route
        },
{
    fee_is_the_share(received as int, fee_rate as int);
    if i128::MIN <= received * fee_rate <= i128::MAX {
        shares_fit(received, fee_rate);
    }
}

/// A request for a quote touches nothing that is stored. It asks the pools on the route one after
/// the other, each with what the one before it answered, and names to each what it is to take and
/// what it is to give. It fails where the amount or the route cannot be, at the first pool that is
/// not registered, is no contract or does not answer, and where the numbers cannot be held. Nothing
/// else makes it fail, and what is quoted is the answer of the last pool less its share at the rate.
pub proof fn quote_goes_by_the_answers(
    e: &mut Env,
    amount_in: i128,
    route: Route,
    r: Result<QuoteResult, Abort>,
)
    requires
        call_ensures(StellarRoute::get_quote, (e, amount_in, route), r),
    ensures
        ({
            let l = ledger(*old(e));
            let m = ledger(*final(e));
            let hops = route@;
            let n = l.calls.len() as int;
            let k = m.calls.len() - n;
            let refused = amount_in <= 0 || hops.len() == 0 || hops.len() > 4;
            &&& m == (Ledger { calls: m.calls, ..l })
            &&& 0 <= k <= hops.len()
            &&& l.calls.is_prefix_of(m.calls)
            &&& r == Err::<QuoteResult, Abort>(Abort::Error(ContractError::InvalidRoute))
                <==> refused
            &&& refused ==> *final(e) == *old(e)
            &&& forall|i: int|
                0 <= i < k ==> ({
                    let call = m.calls[n + i];
                    let hop = #[trigger] hops[i];
                    &&& call is Invocation
                    &&& call->contract == hop.pool
                    &&& l.supports(hop.pool)
                    &&& is_contract(hop.pool)
                    &&& call->function == "adapter_quote"@
                    &&& call->args.len() == 3
                    &&& call->args[0] == hop.source.named()
                    &&& call->args[1] == hop.destination.named()
                    &&& call->args[2] == Datum::Amount(
                        if i == 0 {
                            amount_in
                        } else {
                            m.calls[n + i - 1]->reply->0
                        },
                    )
                    &&& i < k - 1 ==> call->reply is Some
                })
            &&& !refused ==> match r {
                Ok(quote) => {
                    let received = m.calls[n + k - 1]->reply->0;
                    &&& k == hops.len()
                    &&& m.calls[n + k - 1]->reply is Some
                    &&& quote.expected_output + quote.fee_amount == received
                    &&& is_share(quote.fee_amount as int, received as int, l.fee_rate() as int)
                    &&& quote.price_impact_bps == 5 * hops.len()
                    &&& quote.valid_until == l.sequence + 120
                    &&& quote.route == route
                },
                Err(Abort::Error(ContractError::PoolNotSupported)) => {
                    &&& k < hops.len()
                    &&& !l.supports(hops[k].pool)
                    &&& k > 0 ==> m.calls[n + k - 1]->reply is Some
                },
                Err(Abort::Error(ContractError::PoolCallFailed)) => {
                    &&& k > 0
                    &&& m.calls[n + k - 1]->reply is None
                },
                Err(Abort::Trap) => {
                    ||| (k < hops.len() && l.supports(hops[k].pool) && !is_contract(hops[k].pool)
                        && (k > 0 ==> m.calls[n + k - 1]->reply is Some))
                    ||| (k == hops.len() && m.calls[n + k - 1]->reply is Some && !(i128::MIN
                        <= m.calls[n + k - 1]->reply->0 * l.fee_rate() <= i128::MAX))
                    ||| (k == hops.len() && m.calls[n + k - 1]->reply is Some && l.sequence + 120
                        > u32::MAX)
                },
                _ => false,
            }
        }),
{
    let l = ledger(*old(e));
    let m = ledger(*final(e));
    let replies = choose|replies: Seq<Option<i128>>|
        (m, r) == #[trigger] quote_outcome(l, amount_in, route, replies);
    let hops = route@;
    way_in_full(l, hops, "adapter_quote"@, None, amount_in, replies);
    let n = l.calls.len() as int;
    let k = m.calls.len() - n;
    assert forall|i: int| 0 <= i < k implies ({
        let call = m.calls[n + i];
        let hop = #[trigger] hops[i];
        &&& call is Invocation
        &&& call->contract == hop.pool
        &&& l.supports(hop.pool)
        &&& is_contract(hop.pool)
        &&& call->function == "adapter_quote"@
        &&& call->args.len() == 3
        &&& call->args[0] == hop.source.named()
        &&& call->args[1] == hop.destination.named()
        &&& call->args[2] == Datum::Amount(
            if i == 0 {
                amount_in
            } else {
                m.calls[n + i - 1]->reply->0
            },
        )
        &&& i < k - 1 ==> call->reply is Some
    }) by {
        if i > 0 {
            assert(m.calls[n + (i - 1)]->contract == hops[i - 1].pool);
        }
    }
    if k > 0 {
        assert(m.calls[n + (k - 1)]->contract == hops[k - 1].pool);
        let received = m.calls[n + k - 1]->reply->0;
        fee_is_the_share(received as int, l.fee_rate() as int);
        if i128::MIN <= received * l.fee_rate() <= i128::MAX {
            shares_fit(received, l.fee_rate());
        }
    }
}

/// A quote is given whenever it can be: for some amount, over one to four hops, where every pool is
/// registered, is a contract and answers, the product of the last answer and the rate can be held,
/// and so can the ledger up to which it is good.
pub proof fn quote_is_given_when_it_can_be(
    l: Ledger,
    amount_in: i128,
    route: Route,
    answers: Seq<Option<i128>>,
)
    requires
        amount_in > 0,
        1 <= route@.len() <= 4,
        forall|i: int|
            0 <= i < route@.len() ==> l.supports((#[trigger] route@[i]).pool) && is_contract(
                route@[i].pool,
            ) && answers[i] is Some,
        i128::MIN <= answers[route@.len() - 1]->0 * l.fee_rate() <= i128::MAX,
        l.sequence + 120 <= u32::MAX,
    ensures
        quote_outcome(l, amount_in, route, answers).1 is Ok,
{
    let hops = route@;
    way_in_full(l, hops, "adapter_quote"@, None, amount_in, answers);
    let k = way_taken(l, hops, "adapter_quote"@, None, amount_in, answers).0.calls.len()
        - l.calls.len();
    if k > 0 {
        assert(l.supports(hops[k - 1].pool) && answers[k - 1] is Some);
    }
    if k < hops.len() {
        assert(l.supports(hops[k].pool));
    }
}

// ---- Swaps ----

/// What the last pool answered is shared out where the product of the answer and the rate can be
/// held and what is left is no less than the minimum. Only where it is less is the swap refused.
pub proof fn minimum_is_held_to(
    received: i128,
    fee_rate: u32,
    min_amount_out: i128,
    fee: int,
    r: Result<Settlement, Abort>,
)
    requires
        call_ensures(accept, (received, fee_rate, min_amount_out), r),
        is_share(fee, received as int, fee_rate as int),
    ensures
        r == Err::<Settlement, Abort>(Abort::Trap) <==> !(i128::MIN <= received
            * fee_rate <= i128::MAX),
        r == Err::<Settlement, Abort>(Abort::Error(ContractError::SlippageExceeded))
            <==> i128::MIN <= received * fee_rate <= i128::MAX && received - fee < min_amount_out,
        r is Ok <==> i128::MIN <= received * fee_rate <= i128::MAX && received - fee
            >= min_amount_out,
        r matches Ok(shares) ==> shares.fee == fee && shares.output == received - fee,
{
    fee_is_the_share(received as int, fee_rate as int);
    if i128::MIN <= received * fee_rate <= i128::MAX {
        shares_fit(received, fee_rate);
    }
}

/// How the settlement of a swap goes, and where it ends.
proof fn settlement_in_full(
    l: Ledger,
    sender: Address,
    params: SwapParams,
    received: i128,
    replies: SwapReplies,
)
    ensures
        ({
            let o = swap_settled(l, sender, params, received, replies);
            let m = o.ledger;
            let asset = params.route@.last().destination;
            let t = l.calls.len() as int;
            let rate = l.fee_rate();
            let fee = fee_on(received as int, rate as int);
            let out = received - fee;
            let trapped = o.result == Err::<SwapResult, Abort>(Abort::Trap);
            &&& m == (Ledger { persistent: m.persistent, ttl: m.ttl, calls: m.calls, ..l })
            &&& l.calls.is_prefix_of(m.calls)
            &&& if !(i128::MIN <= received * rate <= i128::MAX) {
                m.calls == l.calls && trapped
            } else if out < params.min_amount_out {
                m.calls == l.calls && o.result == Err::<SwapResult, Abort>(
                    Abort::Error(ContractError::SlippageExceeded),
                )
            } else if asset is Soroban && !is_contract(asset->Soroban_0) {
                m.calls == l.calls && trapped
            } else {
                &&& asset is Soroban ==> m.calls.len() > t && m.calls[t] == (Call::Transfer {
                    token: asset->Soroban_0,
                    from: l.contract,
                    to: params.recipient,
                    amount: out as i128,
                    done: replies.payout,
                })
                &&& if asset is Soroban && !replies.payout {
                    m.calls.len() == t + 1 && trapped
                } else if l.fee_to() is None {
                    trapped
                } else {
                    &&& m.calls.len() == if asset is Soroban {
                        t + 2
                    } else {
                        t
                    }
                    &&& asset is Soroban ==> m.calls[t + 1] == (Call::Transfer {
                        token: asset->Soroban_0,
                        from: l.contract,
                        to: l.fee_to()->0,
                        amount: fee as i128,
                        done: replies.fee,
                    })
                    &&& if (asset is Soroban && !replies.fee) || l.nonce(sender) == i128::MAX || !(
                    i128::MIN <= l.volume() + params.amount_in <= i128::MAX) {
                        trapped
                    } else {
                        o.result == Ok::<SwapResult, Abort>(
                            SwapResult {
                                amount_in: params.amount_in,
                                amount_out: out as i128,
                                route: params.route,
                                executed_at: l.sequence as u64,
                            },
                        )
                    }
                }
            }
        }),
{
    let asset = params.route@.last().destination;
    if let Ok(shares) = accepted(received, l.fee_rate(), params.min_amount_out) {
        let paid = l.transfer(
            asset,
            l.contract,
            params.recipient,
            shares.output,
            replies.payout,
        ).0;
        let shared = paid.transfer(asset, l.contract, l.fee_to()->0, shares.fee, replies.fee).0;
        refresh_pools_only_ttl(
            shared.bump_nonce(sender).add_volume(params.amount_in),
            pools_of(params.route@),
        );
    }
}

proof fn prefix_is_kept(a: Seq<Call>, b: Seq<Call>)
    requires
        a.is_prefix_of(b),
    ensures
        forall|i: int| 0 <= i < a.len() ==> #[trigger] b[i] == a[i],
{
    assert forall|i: int| 0 <= i < a.len() implies #[trigger] b[i] == a[i] by {
        assert(a[i] == b.subrange(0, a.len() as int)[i]);
    }
}

/// How a swap goes, and where it ends. The calls are counted from the sender's approval on.
proof fn swap_in_full(
    l: Ledger,
    sender: Address,
    params: SwapParams,
    replies: SwapReplies,
    o: SwapOutcome,
)
    requires
        o == swap_outcome(l, sender, params, replies),
    ensures
        ({
            let m = o.ledger;
            let hops = params.route@;
            let n = l.calls.len() as int;
            let late = l.sequence > params.deadline;
            let unfit = hops.len() == 0 || hops.len() > 4;
            let paid_in = hops.first().source is Soroban;
            let s = if paid_in {
                n + 2
            } else {
                n + 1
            };
            let k = m.calls.len() - s;
            let received = replies.pools[hops.len() - 1]->0;
            let rate = l.fee_rate();
            let fee = fee_on(received as int, rate as int);
            let out = received - fee;
            let asset = hops.last().destination;
            &&& m == (Ledger { persistent: m.persistent, ttl: m.ttl, calls: m.calls, ..l })
            &&& l.calls.is_prefix_of(m.calls)
            &&& m.calls.len() > n
            &&& m.calls[n] == (Call::Approval { by: sender })
            &&& if l.paused() {
                m.calls.len() == n + 1 && o.result == Err::<SwapResult, Abort>(
                    Abort::Error(ContractError::Paused),
                )
            } else if late {
                m.calls.len() == n + 1 && o.result == Err::<SwapResult, Abort>(
                    Abort::Error(ContractError::DeadlineExceeded),
                )
            } else if unfit {
                m.calls.len() == n + 1 && o.result == Err::<SwapResult, Abort>(
                    Abort::Error(ContractError::InvalidRoute),
                )
            } else if paid_in && !is_contract(hops.first().source->Soroban_0) {
                m.calls.len() == n + 1 && o.result == Err::<SwapResult, Abort>(Abort::Trap)
            } else {
                &&& m.calls.len() >= s
                &&& paid_in ==> m.calls[n + 1] == (Call::Transfer {
                    token: hops.first().source->Soroban_0,
                    from: sender,
                    to: hops.first().pool,
                    amount: params.amount_in,
                    done: replies.deposit,
                })
                &&& if paid_in && !replies.deposit {
                    k == 0 && o.result == Err::<SwapResult, Abort>(Abort::Trap)
                } else {
                    &&& forall|i: int|
                        0 <= i < k && i < hops.len() ==> {
                            &&& asks(
                                m.calls[s + i],
                                #[trigger] hops[i],
                                "swap"@,
                                Some(0),
                                if i == 0 {
                                    params.amount_in
                                } else {
                                    replies.pools[i - 1]->0
                                },
                                replies.pools[i],
                            )
                            &&& l.supports(hops[i].pool)
                            &&& is_contract(hops[i].pool)
                            &&& i < k - 1 && i < hops.len() - 1 ==> replies.pools[i] is Some
                        }
                    &&& if k < hops.len() || replies.pools[hops.len() - 1] is None {
                        &&& k <= hops.len()
                        &&& match o.result {
                            Err(Abort::Error(ContractError::PoolNotSupported)) => {
                                &&& k < hops.len()
                                &&& !l.supports(hops[k].pool)
                                &&& k > 0 ==> replies.pools[k - 1] is Some
                            },
                            Err(Abort::Error(ContractError::PoolCallFailed)) => {
                                &&& k > 0
                                &&& replies.pools[k - 1] is None
                            },
                            Err(Abort::Trap) => {
                                &&& k < hops.len()
                                &&& l.supports(hops[k].pool)
                                &&& !is_contract(hops[k].pool)
                                &&& k > 0 ==> replies.pools[k - 1] is Some
                            },
                            _ => false,
                        }
                    } else if !(i128::MIN <= received * rate <= i128::MAX) {
                        k == hops.len() && o.result == Err::<SwapResult, Abort>(Abort::Trap)
                    } else if out < params.min_amount_out {
                        k == hops.len() && o.result == Err::<SwapResult, Abort>(
                            Abort::Error(ContractError::SlippageExceeded),
                        )
                    } else if asset is Soroban && !is_contract(asset->Soroban_0) {
                        k == hops.len() && o.result == Err::<SwapResult, Abort>(Abort::Trap)
                    } else {
                        let t = s + hops.len() as int;
                        &&& asset is Soroban ==> m.calls.len() > t && m.calls[t]
                            == (Call::Transfer {
                            token: asset->Soroban_0,
                            from: l.contract,
                            to: params.recipient,
                            amount: out as i128,
                            done: replies.payout,
                        })
                        &&& if asset is Soroban && !replies.payout {
                            m.calls.len() == t + 1 && o.result == Err::<SwapResult, Abort>(
                                Abort::Trap,
                            )
                        } else if l.fee_to() is None {
                            o.result == Err::<SwapResult, Abort>(Abort::Trap)
                        } else {
                            &&& m.calls.len() == if asset is Soroban {
                                t + 2
                            } else {
                                t
                            }
                            &&& asset is Soroban ==> m.calls[t + 1] == (Call::Transfer {
                                token: asset->Soroban_0,
                                from: l.contract,
                                to: l.fee_to()->0,
                                amount: fee as i128,
                                done: replies.fee,
                            })
                            &&& if (asset is Soroban && !replies.fee) || l.nonce(sender)
                                == i128::MAX || !(i128::MIN <= l.volume() + params.amount_in
                                <= i128::MAX) {
                                o.result == Err::<SwapResult, Abort>(Abort::Trap)
                            } else {
                                o.result == Ok::<SwapResult, Abort>(
                                    SwapResult {
                                        amount_in: params.amount_in,
                                        amount_out: out as i128,
                                        route: params.route,
                                        executed_at: l.sequence as u64,
                                    },
                                )
                            }
                        }
                    }
                }
            }
        }),
{
    reveal_key_names();
    let m = o.ledger;
    let hops = params.route@;
    let n = l.calls.len() as int;
    let begun = l.call(Call::Approval { by: sender });
    if !l.paused() && l.sequence <= params.deadline && 0 < hops.len() <= 4 {
        let first = hops.first();
        let (deposited, done) = begun.transfer(
            first.source,
            sender,
            first.pool,
            params.amount_in,
            replies.deposit,
        );
        if done {
            let (walked, reached) = way_taken(
                deposited,
                hops,
                "swap"@,
                Some(0),
                params.amount_in,
                replies.pools,
            );
            way_in_full(deposited, hops, "swap"@, Some(0), params.amount_in, replies.pools);
            if let Ok(received) = reached {
                settlement_in_full(walked, sender, params, received, replies);
            }
            prefix_is_kept(deposited.calls, walked.calls);
            prefix_is_kept(walked.calls, m.calls);
        }
    }
    assert(l.calls =~= m.calls.take(n));
}

/// A swap that succeeds makes these calls and no others, in this order. Its sender approves; the
/// deposit goes from the sender to the first pool; each pool on the route is told to take the source
/// of its hop and to give the destination, with what the pool before it answered and no minimum; and
/// what the last pool answered goes out of the contract, the output to the recipient and the fee to
/// who receives fees. The fee is the share at the rate, and output and fee add up to the answer.
pub proof fn swap_goes_hop_by_hop(
    e: &mut Env,
    log: &mut EventLog,
    sender: Address,
    params: SwapParams,
    r: Result<SwapResult, Abort>,
)
    requires
        call_ensures(StellarRoute::execute_swap, (e, log, sender, params), r),
        r is Ok,
    ensures
        ({
            let l = ledger(*old(e));
            let calls = ledger(*final(e)).calls;
            let hops = params.route@;
            let n = l.calls.len() as int;
            let s = if hops[0].source is Soroban {
                n + 2
            } else {
                n + 1
            };
            let t = s + hops.len();
            let received = calls[t - 1]->reply->0;
            let fee = received - r->Ok_0.amount_out;
            &&& 1 <= hops.len() <= 4
            &&& l.calls.is_prefix_of(calls)
            &&& calls[n] == (Call::Approval { by: sender })
            &&& hops[0].source matches Asset::Soroban(token) ==> calls[n + 1] == (Call::Transfer {
                token,
                from: sender,
                to: hops[0].pool,
                amount: params.amount_in,
                done: true,
            })
            &&& forall|i: int|
                0 <= i < hops.len() ==> ({
                    let call = calls[s + i];
                    let hop = #[trigger] hops[i];
                    &&& call is Invocation
                    &&& call->contract == hop.pool
                    &&& l.supports(hop.pool)
                    &&& is_contract(hop.pool)
                    &&& call->function == "swap"@
                    &&& call->reply is Some
                    &&& call->args.len() == 4
                    &&& call->args[0] == hop.source.named()
                    &&& call->args[1] == hop.destination.named()
                    &&& call->args[2] == Datum::Amount(
                        if i == 0 {
                            params.amount_in
                        } else {
                            calls[s + i - 1]->reply->0
                        },
                    )
                    &&& call->args[3] == Datum::Amount(0)
                })
            &&& is_share(fee, received as int, l.fee_rate() as int)
            &&& hops[hops.len() - 1].destination matches Asset::Soroban(token) ==> {
                &&& calls.len() == t + 2
                &&& calls[t] == (Call::Transfer {
                    token,
                    from: l.contract,
                    to: params.recipient,
                    amount: r->Ok_0.amount_out,
                    done: true,
                })
                &&& calls[t + 1] == (Call::Transfer {
                    token,
                    from: l.contract,
                    to: l.fee_to()->0,
                    amount: fee as i128,
                    done: true,
                })
            }
            &&& hops[hops.len() - 1].destination is Native ==> calls.len() == t
        }),
{
    let l = ledger(*old(e));
    let m = ledger(*final(e));
    let replies = choose|replies: SwapReplies|
        ({
            let o = #[trigger] swap_outcome(l, sender, params, replies);
            &&& r == o.result
            &&& m == o.ledger
            &&& final(log)@ == old(log)@ + o.events
        });
    let o = swap_outcome(l, sender, params, replies);
    swap_in_full(l, sender, params, replies, o);
    let calls = m.calls;
    let hops = params.route@;
    let n = l.calls.len() as int;
    let s = if hops[0].source is Soroban {
        n + 2
    } else {
        n + 1
    };
    assert forall|i: int| 0 <= i < hops.len() implies ({
        let call = calls[s + i];
        let hop = #[trigger] hops[i];
        &&& call is Invocation
        &&& call->contract == hop.pool
        &&& l.supports(hop.pool)
        &&& is_contract(hop.pool)
        &&& call->function == "swap"@
        &&& call->reply is Some
        &&& call->reply == replies.pools[i]
        &&& call->args.len() == 4
        &&& call->args[0] == hop.source.named()
        &&& call->args[1] == hop.destination.named()
        &&& call->args[2] == Datum::Amount(
            if i == 0 {
                params.amount_in
            } else {
                calls[s + i - 1]->reply->0
            },
        )
        &&& call->args[3] == Datum::Amount(0)
    }) by {
        if i > 0 {
            assert(calls[s + (i - 1)]->contract == hops[i - 1].pool);
        }
    }
    let last = hops.len() - 1;
    assert(calls[s + last]->contract == hops[last].pool);
    let received = replies.pools[last]->0;
    fee_is_the_share(received as int, l.fee_rate() as int);
    shares_fit(received, l.fee_rate());
}

/// A swap goes through whenever it can: the contract is not paused, the swap is in time, its route
/// has one to four hops, every pool on it is registered, is a contract and answers, the tokens are
/// contracts and move what they are told to, somebody receives the fees, every number can be held,
/// and what is left of the last answer is no less than the minimum.
pub proof fn swap_goes_through_when_it_can(
    l: Ledger,
    sender: Address,
    params: SwapParams,
    replies: SwapReplies,
    fee: int,
)
    requires
        !l.paused(),
        l.sequence <= params.deadline,
        1 <= params.route@.len() <= 4,
        forall|i: int|
            0 <= i < params.route@.len() ==> l.supports((#[trigger] params.route@[i]).pool)
                && is_contract(params.route@[i].pool) && replies.pools[i] is Some,
        params.route@[0].source matches Asset::Soroban(token) ==> is_contract(token)
            && replies.deposit,
        params.route@[params.route@.len() - 1].destination matches Asset::Soroban(token)
            ==> is_contract(token) && replies.payout && replies.fee,
        ({
            let received = replies.pools[params.route@.len() - 1]->0;
            &&& i128::MIN <= received * l.fee_rate() <= i128::MAX
            &&& is_share(fee, received as int, l.fee_rate() as int)
            &&& received - fee >= params.min_amount_out
        }),
        l.fee_to() is Some,
        l.nonce(sender) < i128::MAX,
        i128::MIN <= l.volume() + params.amount_in <= i128::MAX,
    ensures
        ({
            let o = swap_outcome(l, sender, params, replies);
            &&& o.result is Ok
            &&& o.result->Ok_0.amount_out == replies.pools[params.route@.len() - 1]->0 - fee
            &&& o.result->Ok_0.amount_in == params.amount_in
            &&& o.result->Ok_0.route == params.route
            &&& o.result->Ok_0.executed_at == l.sequence
        }),
{
    let o = swap_outcome(l, sender, params, replies);
    swap_in_full(l, sender, params, replies, o);
    let hops = params.route@;
    let n = l.calls.len() as int;
    let s = if hops[0].source is Soroban {
        n + 2
    } else {
        n + 1
    };
    let k = o.ledger.calls.len() - s;
    let received = replies.pools[hops.len() - 1]->0;
    fee_is_the_share(received as int, l.fee_rate() as int);
    shares_fit(received, l.fee_rate());
    assert(replies.pools[hops.len() - 1] is Some) by {
        assert(l.supports(hops[hops.len() - 1].pool));
    }
    if 0 < k <= hops.len() {
        assert(l.supports(hops[k - 1].pool) && replies.pools[k - 1] is Some);
    }
    if 0 <= k < hops.len() {
        assert(l.supports(hops[k].pool));
    }
}

/// A swap is turned away, with nothing done but the sender's approval, where the contract is paused,
/// the swap is late, or its route has no hops or more than four; in this order, and for no other
/// reason. A swap that fails tells nobody.
pub proof fn swap_is_turned_away_with_reason(
    e: &mut Env,
    log: &mut EventLog,
    sender: Address,
    params: SwapParams,
    r: Result<SwapResult, Abort>,
)
    requires
        call_ensures(StellarRoute::execute_swap, (e, log, sender, params), r),
    ensures
        ({
            let l = ledger(*old(e));
            let hops = params.route@;
            let late = l.sequence > params.deadline;
            let unfit = hops.len() == 0 || hops.len() > 4;
            &&& r == Err::<SwapResult, Abort>(Abort::Error(ContractError::Paused)) <==> l.paused()
            &&& r == Err::<SwapResult, Abort>(Abort::Error(ContractError::DeadlineExceeded)) <==> (
            !l.paused() && late)
            &&& r == Err::<SwapResult, Abort>(Abort::Error(ContractError::InvalidRoute)) <==> (
            !l.paused() && !late && unfit)
            &&& l.paused() || late || unfit ==> ledger(*final(e)).calls == l.calls.push(
                Call::Approval { by: sender },
            )
            &&& r is Err ==> final(log)@ == old(log)@
        }),
{
    let l = ledger(*old(e));
    let m = ledger(*final(e));
    let replies = choose|replies: SwapReplies|
        ({
            let o = #[trigger] swap_outcome(l, sender, params, replies);
            &&& r == o.result
            &&& m == o.ledger
            &&& final(log)@ == old(log)@ + o.events
        });
    let o = swap_outcome(l, sender, params, replies);
    swap_in_full(l, sender, params, replies, o);
    if m.calls.len() == l.calls.len() + 1 {
        prefix_is_kept(l.calls, m.calls);
        assert(m.calls =~= l.calls.push(Call::Approval { by: sender }));
    }
    assert(old(log)@ + Seq::<Event<Seq<Hop>>>::empty() =~= old(log)@);
    assert(r is Err ==> o.events == Seq::<Event<Seq<Hop>>>::empty());
}

/// A swap that was begun is answered with an error for these reasons and no others: the next pool is
/// not registered, a pool did not answer, or what is left of the last answer, once its share at the
/// rate is taken, is less than the minimum.
pub proof fn swap_is_broken_off_with_reason(
    e: &mut Env,
    log: &mut EventLog,
    sender: Address,
    params: SwapParams,
    error: ContractError,
)
    requires
        call_ensures(
            StellarRoute::execute_swap,
            (e, log, sender, params),
            Err::<SwapResult, Abort>(Abort::Error(error)),
        ),
        !ledger(*old(e)).paused(),
        ledger(*old(e)).sequence <= params.deadline,
        1 <= params.route@.len() <= 4,
    ensures
        ({
            let l = ledger(*old(e));
            let calls = ledger(*final(e)).calls;
            let hops = params.route@;
            let s = if hops[0].source is Soroban {
                l.calls.len() + 2
            } else {
                l.calls.len() + 1
            };
            let k = calls.len() - s;
            let received = calls[s + k - 1]->reply->0;
            &&& error == ContractError::PoolNotSupported || error == ContractError::PoolCallFailed
                || error == ContractError::SlippageExceeded
            &&& 0 <= k <= hops.len()
            &&& error == ContractError::PoolNotSupported ==> {
                &&& k < hops.len()
                &&& !l.supports(hops[k].pool)
                &&& k > 0 ==> calls[s + k - 1]->reply is Some
            }
            &&& error == ContractError::PoolCallFailed ==> {
                &&& k > 0
                &&& calls[s + k - 1]->contract == hops[k - 1].pool
                &&& calls[s + k - 1]->reply is None
            }
            &&& error == ContractError::SlippageExceeded ==> {
                &&& k == hops.len()
                &&& calls[s + k - 1]->reply is Some
                &&& forall|fee: int| #[trigger]
                    is_share(fee, received as int, l.fee_rate() as int) ==> received - fee
                        < params.min_amount_out
            }
        }),
{
    let l = ledger(*old(e));
    let m = ledger(*final(e));
    let r = Err::<SwapResult, Abort>(Abort::Error(error));
    let replies = choose|replies: SwapReplies|
        ({
            let o = #[trigger] swap_outcome(l, sender, params, replies);
            &&& r == o.result
            &&& m == o.ledger
            &&& final(log)@ == old(log)@ + o.events
        });
    let o = swap_outcome(l, sender, params, replies);
    swap_in_full(l, sender, params, replies, o);
    let hops = params.route@;
    let s = if hops[0].source is Soroban {
        l.calls.len() + 2
    } else {
        l.calls.len() + 1
    };
    let k = m.calls.len() - s;
    if k > 0 {
        assert(m.calls[s + (k - 1)]->contract == hops[k - 1].pool);
        assert(m.calls[s + (k - 1)]->reply == replies.pools[k - 1]);
    }
    if error == ContractError::SlippageExceeded {
        let received = replies.pools[k - 1]->0;
        let taken = fee_on(received as int, l.fee_rate() as int);
        fee_is_the_share(received as int, l.fee_rate() as int);
        assert forall|fee: int| #[trigger]
            is_share(fee, received as int, l.fee_rate() as int) implies received - fee
            < params.min_amount_out by {
            share_is_unique(fee, taken, received as int, l.fee_rate() as int);
        }
    }
}

/// A swap traps for these reasons and no others: a token on its way is no contract or refuses, the
/// next pool is no contract, nobody receives the fees, or a number cannot be held.
pub proof fn swap_traps_with_reason(
    e: &mut Env,
    log: &mut EventLog,
    sender: Address,
    params: SwapParams,
)
    requires
        call_ensures(
            StellarRoute::execute_swap,
            (e, log, sender, params),
            Err::<SwapResult, Abort>(Abort::Trap),
        ),
    ensures
        ({
            let l = ledger(*old(e));
            let calls = ledger(*final(e)).calls;
            let hops = params.route@;
            let s = if hops[0].source is Soroban {
                l.calls.len() + 2
            } else {
                l.calls.len() + 1
            };
            let k = calls.len() - s;
            let received = calls[s + hops.len() - 1]->reply->0;
            let asset = hops[hops.len() - 1].destination;
            &&& !l.paused()
            &&& l.sequence <= params.deadline
            &&& 1 <= hops.len() <= 4
            &&& {
                ||| hops[0].source is Soroban && !is_contract(hops[0].source->Soroban_0)
                ||| hops[0].source is Soroban && !calls[l.calls.len() as int + 1]->done
                ||| (0 <= k < hops.len() && l.supports(hops[k].pool) && !is_contract(hops[k].pool))
                ||| (k >= hops.len() && {
                    ||| !(i128::MIN <= received * l.fee_rate() <= i128::MAX)
                    ||| asset is Soroban && !is_contract(asset->Soroban_0)
                    ||| asset is Soroban && calls.last() is Transfer && !calls.last()->done
                    ||| l.fee_to() is None
                    ||| l.nonce(sender) == i128::MAX
                    ||| !(i128::MIN <= l.volume() + params.amount_in <= i128::MAX)
                })
            }
        }),
{
    let l = ledger(*old(e));
    let m = ledger(*final(e));
    let r = Err::<SwapResult, Abort>(Abort::Trap);
    let replies = choose|replies: SwapReplies|
        ({
            let o = #[trigger] swap_outcome(l, sender, params, replies);
            &&& r == o.result
            &&& m == o.ledger
            &&& final(log)@ == old(log)@ + o.events
        });
    let o = swap_outcome(l, sender, params, replies);
    swap_in_full(l, sender, params, replies, o);
    let hops = params.route@;
    let s = if hops[0].source is Soroban {
        l.calls.len() + 2
    } else {
        l.calls.len() + 1
    };
    let last = hops.len() - 1;
    if m.calls.len() - s >= hops.len() {
        assert(m.calls[s + last]->reply == replies.pools[last] || (hops[0].source is Soroban
            && !replies.deposit)) by {
            if !(hops[0].source is Soroban && !replies.deposit) {
                assert(m.calls[s + last]->contract == hops[last].pool);
            }
        }
    }
}

/// Extending pools leaves the TTL of every other entry as it was.
proof fn other_entries_are_spared(l: Ledger, pools: Seq<Address>, key: Datum)
    requires
        forall|i: int|
            0 <= i < pools.len() ==> StorageKey::SupportedPool(#[trigger] pools[i])@ != key,
    ensures
        l.refresh_pools(pools).ttl[key] == l.ttl[key],
    decreases pools.len(),
{
    if pools.len() > 0 {
        let rest = pools.drop_last();
        assert forall|i: int| 0 <= i < rest.len() implies StorageKey::SupportedPool(
            #[trigger] rest[i],
        )@ != key by {
            assert(rest[i] == pools[i]);
        }
        other_entries_are_spared(l, rest, key);
        assert(StorageKey::SupportedPool(pools[pools.len() - 1])@ != key);
    }
}

/// A swap that succeeds counts one for its sender and its deposit to the volume, and writes nothing
/// else. It lengthens the life of these two entries and of the pools on its route, and of no others.
pub proof fn swap_stores_its_count(
    e: &mut Env,
    log: &mut EventLog,
    sender: Address,
    params: SwapParams,
    done: SwapResult,
    i: int,
    other: Datum,
)
    requires
        call_ensures(
            StellarRoute::execute_swap,
            (e, log, sender, params),
            Ok::<SwapResult, Abort>(done),
        ),
        0 <= i < params.route@.len(),
        other != StorageKey::SwapNonce(sender)@,
        other != StorageKey::TotalSwapVolume@,
        forall|j: int|
            0 <= j < params.route@.len() ==> StorageKey::SupportedPool(
                (#[trigger] params.route@[j]).pool,
            )@ != other,
    ensures
        ({
            let l = ledger(*old(e));
            let m = ledger(*final(e));
            let nonce = StorageKey::SwapNonce(sender)@;
            let volume = StorageKey::TotalSwapVolume@;
            let pool = StorageKey::SupportedPool(params.route@[i].pool)@;
            &&& done.amount_in == params.amount_in
            &&& done.amount_out >= params.min_amount_out
            &&& done.route == params.route
            &&& done.executed_at == l.sequence
            &&& m == (Ledger { persistent: m.persistent, ttl: m.ttl, calls: m.calls, ..l })
            &&& m.persistent == l.persistent.insert(
                nonce,
                Datum::Amount((l.nonce(sender) + 1) as i128),
            ).insert(volume, Datum::Amount((l.volume() + params.amount_in) as i128))
            &&& l.nonce(sender) < i128::MAX
            &&& i128::MIN <= l.volume() + params.amount_in <= i128::MAX
            &&& m.ttl[nonce] == extended(
                if l.persistent.contains_key(nonce) {
                    l.ttl[nonce]
                } else {
                    l.fresh_ttl
                },
                120960,
                518400,
                l.max_ttl,
            )
            &&& m.ttl[volume] == extended(
                if l.persistent.contains_key(volume) {
                    l.ttl[volume]
                } else {
                    l.fresh_ttl
                },
                120960,
                518400,
                l.max_ttl,
            )
            &&& m.ttl[pool] == extended(l.ttl[pool], 380160, 1555200, l.max_ttl)
            &&& m.ttl[other] == l.ttl[other]
        }),
{
    reveal_key_names();
    let l = ledger(*old(e));
    let m = ledger(*final(e));
    let r = Ok::<SwapResult, Abort>(done);
    let replies = choose|replies: SwapReplies|
        ({
            let o = #[trigger] swap_outcome(l, sender, params, replies);
            &&& r == o.result
            &&& m == o.ledger
            &&& final(log)@ == old(log)@ + o.events
        });
    let o = swap_outcome(l, sender, params, replies);
    swap_in_full(l, sender, params, replies, o);
    let hops = params.route@;
    let pools = pools_of(hops);
    let received = replies.pools[hops.len() - 1]->0;
    shares_fit(received, l.fee_rate());
    assert(l.supports(hops[i].pool));
    let counted = Ledger {
        persistent: l.persistent,
        ttl: l.ttl,
        calls: m.calls,
        ..l
    }.bump_nonce(sender).add_volume(params.amount_in);
    assert(m == counted.refresh_pools(pools)) by {
        swap_ends_with_its_count(l, sender, params, replies);
    }
    refresh_pools_only_ttl(counted, pools);
    assert(pools[i] == hops[i].pool);
    refresh_pools_reaches(counted, pools, hops[i].pool);
    assert forall|j: int| 0 <= j < pools.len() implies StorageKey::SupportedPool(
        #[trigger] pools[j],
    )@ != other by {
        assert(pools[j] == hops[j].pool);
    }
    other_entries_are_spared(counted, pools, other);
    other_entries_are_spared(counted, pools, StorageKey::SwapNonce(sender)@);
    other_entries_are_spared(counted, pools, StorageKey::TotalSwapVolume@);
}

/// What a successful swap leaves is its count, on top of its calls.
proof fn swap_ends_with_its_count(
    l: Ledger,
    sender: Address,
    params: SwapParams,
    replies: SwapReplies,
)
    requires
        swap_outcome(l, sender, params, replies).result is Ok,
    ensures
        ({
            let m = swap_outcome(l, sender, params, replies).ledger;
            m == (Ledger { calls: m.calls, ..l }).bump_nonce(sender).add_volume(
                params.amount_in,
            ).refresh_pools(pools_of(params.route@))
        }),
{
    let m = swap_outcome(l, sender, params, replies).ledger;
    let hops = params.route@;
    let begun = l.call(Call::Approval { by: sender });
    let deposited = begun.transfer(
        hops.first().source,
        sender,
        hops.first().pool,
        params.amount_in,
        replies.deposit,
    ).0;
    let (walked, reached) = way_taken(
        deposited,
        hops,
        "swap"@,
        Some(0),
        params.amount_in,
        replies.pools,
    );
    way_in_full(deposited, hops, "swap"@, Some(0), params.amount_in, replies.pools);
    let shares = accepted(reached->Ok_0, l.fee_rate(), params.min_amount_out)->Ok_0;
    let asset = hops.last().destination;
    let paid = walked.transfer(
        asset,
        l.contract,
        params.recipient,
        shares.output,
        replies.payout,
    ).0;
    let shared = paid.transfer(asset, l.contract, l.fee_to()->0, shares.fee, replies.fee).0;
    refresh_pools_only_ttl(
        shared.bump_nonce(sender).add_volume(params.amount_in),
        pools_of(hops),
    );
    assert(shared == (Ledger { calls: shared.calls, ..l }));
    assert(m.calls == shared.calls);
}

/// A swap that succeeds tells of itself, last and once, with what went in, what came out and the fee.
/// Before that it warns where an extension was ever noted and less than 22 of the pools' 90 days are
/// left by that note. It extends the instance once; a swap that fails does not.
pub proof fn swap_is_told(
    e: &mut Env,
    log: &mut EventLog,
    sender: Address,
    params: SwapParams,
    r: Result<SwapResult, Abort>,
)
    requires
        call_ensures(StellarRoute::execute_swap, (e, log, sender, params), r),
    ensures
        ({
            let l = ledger(*old(e));
            let told = final(log)@;
            let n = old(log)@.len() as int;
            let before = lifetime(*old(e));
            let after = lifetime(*final(e));
            let since = l.last_ttl_extension();
            let warned = since != 0 && l.sequence - since > 1555200 - 380160;
            &&& old(log)@.is_prefix_of(told)
            &&& r is Err ==> told.len() == n && after.asked == before.asked && after.instance
                >= before.instance
            &&& r is Ok ==> {
                &&& told.len() == if warned {
                    n + 2
                } else {
                    n + 1
                }
                &&& warned ==> told[n] == (Event::<Seq<Hop>>::TtlWarning {
                    remaining: if l.sequence - since >= 1555200 {
                        0
                    } else {
                        (1555200 - (l.sequence - since)) as u64
                    },
                    threshold: 380160,
                })
                &&& told.last() is SwapExecuted
                &&& told.last()->sender == sender
                &&& told.last()->amount_in == params.amount_in
                &&& told.last()->amount_out == r->Ok_0.amount_out
                &&& told.last()->route == params.route@
                &&& is_share(
                    told.last()->fee_amount as int,
                    told.last()->amount_out + told.last()->fee_amount,
                    l.fee_rate() as int,
                )
                &&& after.instance == extended(after.found_instance, 120960, 518400, l.max_ttl)
                &&& after.code == extended(after.found_code, 120960, 518400, l.max_ttl)
                &&& after.found_instance >= before.instance
                &&& after.asked == before.asked + 1
            }
        }),
{
    reveal_key_names();
    let l = ledger(*old(e));
    let m = ledger(*final(e));
    let replies = choose|replies: SwapReplies|
        ({
            let o = #[trigger] swap_outcome(l, sender, params, replies);
            &&& r == o.result
            &&& m == o.ledger
            &&& final(log)@ == old(log)@ + o.events
        });
    let o = swap_outcome(l, sender, params, replies);
    swap_in_full(l, sender, params, replies, o);
    assert(r is Err ==> o.events == Seq::<Event<Seq<Hop>>>::empty());
    assert(old(log)@ =~= final(log)@.take(old(log)@.len() as int));
    if r is Ok {
        let received = replies.pools[params.route@.len() - 1]->0;
        fee_is_the_share(received as int, l.fee_rate() as int);
        shares_fit(received, l.fee_rate());
        swap_tells_from_its_end(l, sender, params, replies);
        let n = old(log)@.len() as int;
        assert(final(log)@[n] == o.events[0]);
        assert(final(log)@.last() == o.events.last());
    }
}

/// The events of a successful swap, by the ledger on which it ends.
proof fn swap_tells_from_its_end(
    l: Ledger,
    sender: Address,
    params: SwapParams,
    replies: SwapReplies,
)
    requires
        swap_outcome(l, sender, params, replies).result is Ok,
    ensures
        ({
            let o = swap_outcome(l, sender, params, replies);
            let received = replies.pools[params.route@.len() - 1]->0;
            let fee = fee_on(received as int, l.fee_rate() as int);
            o.events == l.ttl_warning().push(
                Event::SwapExecuted {
                    sender,
                    amount_in: params.amount_in,
                    amount_out: (received - fee) as i128,
                    fee_amount: fee as i128,
                    route: params.route@,
                },
            )
        }),
{
    let o = swap_outcome(l, sender, params, replies);
    let hops = params.route@;
    swap_in_full(l, sender, params, replies, o);
    let deposited = l.call(Call::Approval { by: sender }).transfer(
        hops.first().source,
        sender,
        hops.first().pool,
        params.amount_in,
        replies.deposit,
    ).0;
    way_in_full(deposited, hops, "swap"@, Some(0), params.amount_in, replies.pools);
}

// ---- TTLs ----

/// The status counts down from the last note of an extension: 30 days for the instance and 90 for
/// the pools, each less the ledgers that have passed since, and never below zero. An extension is
/// called for where less than 7 days of the one or 22 days of the other are left.
pub proof fn status_counts_down(e: &Env, status: TTLStatus)
    requires
        call_ensures(StellarRoute::get_ttl_status, (e,), status),
    ensures
        ({
            let l = ledger(*e);
            let passed = if l.sequence > l.last_ttl_extension() {
                l.sequence - l.last_ttl_extension()
            } else {
                0
            };
            &&& status.instance_ttl_remaining == (if passed < 518400 {
                518400 - passed
            } else {
                0
            })
            &&& status.pools_min_ttl == (if passed < 1555200 {
                1555200 - passed
            } else {
                0
            })
            &&& status.needs_extension <==> (status.instance_ttl_remaining < 120960
                || status.pools_min_ttl < 380160)
            &&& status.last_extended_ledger == l.last_ttl_extension()
        }),
{
}

/// A warning is given once, and only where an extension was ever noted and less than 22 of the
/// pools' 90 days are left by that note. It says how many ledgers are left.
pub proof fn warning_comes_below_the_threshold(e: &Env, log: &mut EventLog)
    requires
        call_ensures(StellarRoute::check_ttl_health, (e, log), ()),
    ensures
        ({
            let l = ledger(*e);
            let since = l.last_ttl_extension();
            let passed = l.sequence - since;
            if since != 0 && passed > 1555200 - 380160 {
                final(log)@ == old(log)@.push(
                    Event::TtlWarning {
                        remaining: if passed >= 1555200 {
                            0
                        } else {
                            (1555200 - passed) as u64
                        },
                        threshold: 380160,
                    },
                )
            } else {
                final(log)@ == old(log)@
            }
        }),
{
    let l = ledger(*e);
    assert(old(log)@ + Seq::<Event<Seq<Hop>>>::empty() =~= old(log)@);
    if l.ttl_warning().len() > 0 {
        assert(old(log)@ + l.ttl_warning() =~= old(log)@.push(l.ttl_warning()[0]));
    }
}

/// An extension asks nobody and writes no more than its note of when. It lengthens the life of the
/// instance, of every listed pool and of the volume, and of nothing else, and tells how many pools
/// there were.
pub proof fn extension_reaches_what_it_names(
    e: &mut Env,
    log: &mut EventLog,
    pool: Address,
    other: Datum,
)
    requires
        call_ensures(StellarRoute::extend_storage_ttl, (e, log), ()),
        ledger(*old(e)).supports(pool),
        ledger(*old(e)).pool_list().contains(pool),
        other != StorageKey::TotalSwapVolume@,
        forall|i: int|
            0 <= i < ledger(*old(e)).pool_list().len() ==> StorageKey::SupportedPool(
                #[trigger] ledger(*old(e)).pool_list()[i],
            )@ != other,
    ensures
        ({
            let l = ledger(*old(e));
            let m = ledger(*final(e));
            let before = lifetime(*old(e));
            let after = lifetime(*final(e));
            let key = StorageKey::SupportedPool(pool)@;
            let volume = StorageKey::TotalSwapVolume@;
            &&& m == (Ledger { instance: m.instance, ttl: m.ttl, ..l })
            &&& m.instance == l.instance.insert(
                StorageKey::LastTtlExtension@,
                Datum::Count(l.sequence),
            )
            &&& m.ttl[key] == extended(l.ttl[key], 380160, 1555200, l.max_ttl)
            &&& l.persistent.contains_key(volume) ==> m.ttl[volume] == extended(
                l.ttl[volume],
                120960,
                518400,
                l.max_ttl,
            )
            &&& m.ttl[other] == l.ttl[other]
            &&& after.instance == extended(before.instance, 120960, 518400, l.max_ttl)
            &&& after.code == extended(before.code, 120960, 518400, l.max_ttl)
            &&& after.asked == before.asked + 1
            &&& final(log)@ == old(log)@.push(
                Event::TtlExtended {
                    pools_extended: l.pool_list().len() as u32,
                    ledger: l.sequence,
                },
            )
        }),
{
    reveal_key_names();
    let l = ledger(*old(e));
    let pools = l.pool_list();
    refresh_pools_only_ttl(l, pools);
    refresh_pools_reaches(l, pools, pool);
    other_entries_are_spared(l, pools, other);
    other_entries_are_spared(l, pools, StorageKey::TotalSwapVolume@);
}

/// Where no pool is listed, an extension still reaches the instance and the volume.
pub proof fn extension_without_pools(e: &mut Env, log: &mut EventLog, other: Datum)
    requires
        call_ensures(StellarRoute::extend_storage_ttl, (e, log), ()),
        ledger(*old(e)).pool_list().len() == 0,
        other != StorageKey::TotalSwapVolume@,
    ensures
        ({
            let l = ledger(*old(e));
            let m = ledger(*final(e));
            let volume = StorageKey::TotalSwapVolume@;
            &&& m == (Ledger { instance: m.instance, ttl: m.ttl, ..l })
            &&& m.instance == l.instance.insert(
                StorageKey::LastTtlExtension@,
                Datum::Count(l.sequence),
            )
            &&& l.persistent.contains_key(volume) ==> m.ttl[volume] == extended(
                l.ttl[volume],
                120960,
                518400,
                l.max_ttl,
            )
            &&& m.ttl[other] == l.ttl[other]
            &&& lifetime(*final(e)).instance == extended(
                lifetime(*old(e)).instance,
                120960,
                518400,
                l.max_ttl,
            )
            &&& final(log)@ == old(log)@.push(
                Event::TtlExtended { pools_extended: 0, ledger: l.sequence },
            )
        }),
{
    reveal_key_names();
}

// ---- Who may call ----

/// Nothing but the state of the storage, and the approval of whoever has to approve, stands between
/// a caller and an entry point: no amount, route, address or limit is ruled out beforehand. A pool
/// can be registered as long as there is a number to count it with.
pub proof fn entry_points_take_every_input(
    e: &mut Env,
    log: &mut EventLog,
    view: &Env,
    who: Address,
    other: Address,
    rate: u32,
    amount: i128,
    route: Route,
    params: SwapParams,
)
    ensures
        ledger(*old(e)).ready() ==> call_requires(
            StellarRoute::initialize,
            (e, log, who, rate, other),
        ),
        ledger(*old(e)).wf() ==> call_requires(StellarRoute::get_quote, (e, amount, route)),
        ledger(*old(e)).wf() ==> call_requires(StellarRoute::extend_storage_ttl, (e, log)),
        ledger(*old(e)).wf() && authorized(*old(e)).contains(who) && who != ledger(
            *old(e),
        ).contract ==> call_requires(StellarRoute::execute_swap, (e, log, who, params)),
        ({
            let l = ledger(*old(e));
            let admin = l.instance[StorageKey::Admin@]->Account_0;
            l.wf() && l.instance.contains_key(StorageKey::Admin@) && authorized(
                *old(e),
            ).contains(admin) && admin != l.contract ==> {
                &&& call_requires(StellarRoute::set_admin, (e, log, other))
                &&& call_requires(StellarRoute::pause, (e, log))
                &&& call_requires(StellarRoute::unpause, (e, log))
                &&& l.pool_count() < u32::MAX && l.pool_list().len() < u32::MAX ==> call_requires(
                    StellarRoute::register_pool,
                    (e, log, other),
                )
            }
        }),
        ledger(*view).wf() ==> {
            &&& call_requires(StellarRoute::get_admin, (view,))
            &&& call_requires(StellarRoute::get_fee_rate_value, (view,))
            &&& call_requires(StellarRoute::get_fee_to_address, (view,))
            &&& call_requires(StellarRoute::is_paused, (view,))
            &&& call_requires(StellarRoute::get_pool_count, (view,))
            &&& call_requires(StellarRoute::is_pool_registered, (view, who))
            &&& call_requires(StellarRoute::require_not_paused, (view,))
            &&& call_requires(StellarRoute::get_total_swap_volume, (view,))
            &&& call_requires(StellarRoute::get_ttl_status, (view,))
        },
{
}

} // verus!
