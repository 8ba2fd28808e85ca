//! What holds of the contract as a whole.

use crate::errors::{Abort, ContractError};
use crate::events::Event;
use crate::fees::{fee_fits, fee_on, MAX_FEE_RATE};
use crate::host::is_contract;
use crate::ledger::{extended, Call, Datum, Ledger};
use crate::route::{hop_taken, pools_of, way_taken, way_taken_only_calls};
use crate::router::{
    accepted, followable, quote_outcome, refresh_pools_only_ttl, swap_outcome, swap_refusal,
    swap_settled, Operation, SwapReplies,
};
use crate::storage::{
    reveal_key_names, StorageKey, INSTANCE_TTL_EXTEND_TO, INSTANCE_TTL_THRESHOLD,
    POOL_TTL_EXTEND_TO, POOL_TTL_THRESHOLD,
};
use crate::types::{Asset, Hop, Route, SwapParams, SwapResult};
use soroban_sdk::Address;
use vstd::prelude::*;

verus! {

// ---- Storage ----

/// What is stored under a key is read back, and no other key of either storage is touched.
pub proof fn stored_values_read_back(l: Ledger, key: StorageKey, value: Datum, other: StorageKey)
    ensures
        ({
            let after = l.put_instance(key@, value);
            &&& after.instance.contains_key(key@) && after.instance[key@] == value
            &&& other != key ==> (after.instance.contains_key(other@)
                == l.instance.contains_key(other@) && after.instance[other@] == l.instance[other@])
            &&& after.persistent == l.persistent
        }),
        ({
            let after = l.put_persistent(key@, value);
            &&& after.persistent.contains_key(key@) && after.persistent[key@] == value
            &&& other != key ==> (after.persistent.contains_key(other@)
                == l.persistent.contains_key(other@) && after.persistent[other@]
                == l.persistent[other@] && after.ttl[other@] == l.ttl[other@])
            &&& after.instance == l.instance
        }),
{
    reveal_key_names();
}

/// A contract that has stored nothing yet can run.
pub proof fn fresh_storage_is_wf(l: Ledger)
    requires
        l.ready(),
        l.instance == Map::<Datum, Datum>::empty(),
        l.persistent == Map::<Datum, Datum>::empty(),
    ensures
        l.wf(),
        !l.initialized(),
        l.registry_sound(),
        l.fee_rate() == 0,
        !l.paused(),
        l.volume() == 0,
        forall|user: Address| l.nonce(user) == 0,
{
    assert(l.pool_list() =~= Seq::<Address>::empty());
}

/// What the contract was set up with is what it then says of itself.
pub proof fn set_up_is_read_back(l: Ledger, admin: Address, fee_rate: u32, fee_to: Address)
    requires
        l.wf(),
    ensures
        ({
            let after = l.set_up(admin, fee_rate, fee_to);
            &&& after.initialized()
            &&& after.admin() == admin
            &&& after.fee_rate() == fee_rate
            &&& after.fee_to() == Some(fee_to)
            &&& !after.paused()
            &&& after.last_ttl_extension() == l.sequence
            &&& after.pool_count() == l.pool_count()
            &&& after.pool_list() == l.pool_list()
            &&& after.persistent == l.persistent
        }),
{
    reveal_key_names();
}

// ---- Swaps and quotes, in the large ----

/// What no step of a swap does: touch the instance storage, take back a call, drop an entry,
/// lower a TTL, write under a key that has nothing to do with it, or leave the storage in
/// disorder.
spec fn carried(l: Ledger, m: Ledger) -> bool {
    &&& m == (Ledger { persistent: m.persistent, ttl: m.ttl, calls: m.calls, ..l })
    &&& l.calls.is_prefix_of(m.calls)
    &&& forall|k: Datum| #[trigger] l.persistent.contains_key(k) ==>
        m.persistent.contains_key(k) && m.ttl[k] >= l.ttl[k]
    &&& forall|k: StorageKey| #![trigger k@]
        k is SwapNonce || k is TotalSwapVolume || (
        m.persistent.contains_key(k@) == l.persistent.contains_key(k@)
            && m.persistent[k@] == l.persistent[k@])
    &&& l.wf() ==> m.wf()
}

proof fn carried_on(l: Ledger, m: Ledger, n: Ledger)
    requires
        carried(l, m),
        carried(m, n),
    ensures
        carried(l, n),
{
    assert(l.calls.is_prefix_of(n.calls)) by {
        assert(l.calls =~= n.calls.take(l.calls.len() as int));
    }
}

proof fn call_is_carried(l: Ledger, call: Call)
    ensures
        carried(l, l.call(call)),
{
}

proof fn bump_nonce_is_carried(l: Ledger, user: Address)
    requires
        l.wf(),
        l.nonce(user) < i128::MAX,
    ensures
        carried(l, l.bump_nonce(user)),
        l.bump_nonce(user).nonce(user) == l.nonce(user) + 1,
        forall|other: Address| other != user ==> l.bump_nonce(user).nonce(other) == l.nonce(other),
        l.bump_nonce(user).volume() == l.volume(),
{
    reveal_key_names();
}

proof fn add_volume_is_carried(l: Ledger, amount: i128)
    requires
        l.wf(),
        i128::MIN <= l.volume() + amount <= i128::MAX,
    ensures
        carried(l, l.add_volume(amount)),
        l.add_volume(amount).volume() == l.volume() + amount,
        forall|user: Address| l.add_volume(amount).nonce(user) == l.nonce(user),
{
    reveal_key_names();
}

proof fn refresh_pools_is_carried(l: Ledger, pools: Seq<Address>)
    ensures
        carried(l, l.refresh_pools(pools)),
        l.refresh_pools(pools).persistent == l.persistent,
        l.refresh_pools(pools).calls == l.calls,
    decreases pools.len(),
{
    if pools.len() > 0 {
        refresh_pools_is_carried(l, pools.drop_last());
        let before = l.refresh_pools(pools.drop_last());
        assert(carried(before, before.refresh_pool(pools.last())));
        carried_on(l, before, before.refresh_pool(pools.last()));
    }
}

/// How the settlement of a swap leaves the ledger.
proof fn settlement_is_carried(
    l: Ledger,
    sender: Address,
    params: SwapParams,
    received: i128,
    replies: SwapReplies,
)
    requires
        l.wf(),
    ensures
        ({
            let o = swap_settled(l, sender, params, received, replies);
            &&& carried(l, o.ledger)
            &&& o.result is Err ==> o.events == Seq::<Event<Seq<Hop>>>::empty()
            &&& o.result matches Err(Abort::Error(_)) ==> o.ledger.persistent == l.persistent
                && o.ledger.ttl == l.ttl
            &&& o.result is Ok ==> o.ledger.nonce(sender) == l.nonce(sender) + 1
            &&& o.result is Ok ==> o.ledger.volume() == l.volume() + params.amount_in
            &&& o.result is Err ==> o.ledger.volume() == l.volume()
            &&& forall|user: Address| user != sender ==> #[trigger] o.ledger.nonce(user) == l.nonce(
                user,
            )
        }),
{
    let o = swap_settled(l, sender, params, received, replies);
    let asset = params.route@.last().destination;
    if let Ok(shares) = accepted(received, l.fee_rate(), params.min_amount_out) {
        let (paid, payout_done) = l.transfer(
            asset,
            l.contract,
            params.recipient,
            shares.output,
            replies.payout,
        );
        assert(carried(l, paid));
        if payout_done && l.fee_to() is Some {
            let (shared, fee_done) = paid.transfer(
                asset,
                l.contract,
                l.fee_to()->0,
                shares.fee,
                replies.fee,
            );
            assert(carried(paid, shared));
            carried_on(l, paid, shared);
            if fee_done && l.nonce(sender) < i128::MAX {
                let bumped = shared.bump_nonce(sender);
                bump_nonce_is_carried(shared, sender);
                carried_on(l, shared, bumped);
                if i128::MIN <= l.volume() + params.amount_in <= i128::MAX {
                    let summed = bumped.add_volume(params.amount_in);
                    add_volume_is_carried(bumped, params.amount_in);
                    carried_on(l, bumped, summed);
                    refresh_pools_is_carried(summed, pools_of(params.route@));
                    carried_on(l, summed, o.ledger);
                }
            }
        }
    }
}

impl Ledger {
    /// The pools are counted and listed as they are registered: each once.
    pub open spec fn registry_sound(self) -> bool {
        &&& self.pool_count() == self.pool_list().len()
        &&& self.pool_list().no_duplicates()
        &&& forall|pool: Address| #[trigger]
            self.supports(pool) <==> self.pool_list().contains(pool)
    }
}

/// How following a route leaves the ledger.
proof fn way_is_carried(
    l: Ledger,
    hops: Seq<Hop>,
    function: Seq<char>,
    floor: Option<i128>,
    amount: i128,
    replies: Seq<Option<i128>>,
)
    ensures
        carried(l, way_taken(l, hops, function, floor, amount, replies).0),
    decreases hops.len(),
{
    way_taken_only_calls(l, hops, function, floor, amount, replies);
    if hops.len() > 0 {
        let (before, reached) = way_taken(l, hops.drop_last(), function, floor, amount, replies);
        way_is_carried(l, hops.drop_last(), function, floor, amount, replies);
        if let Ok(n) = reached {
            let after = hop_taken(
                before,
                hops.last(),
                function,
                floor,
                n,
                replies[hops.len() - 1],
            ).0;
            assert(carried(before, after));
            carried_on(l, before, after);
        }
    }
}

/// How a swap leaves the ledger.
proof fn swap_is_carried(l: Ledger, sender: Address, params: SwapParams, replies: SwapReplies)
    requires
        l.wf(),
    ensures
        ({
            let o = swap_outcome(l, sender, params, replies);
            &&& carried(l, o.ledger)
            &&& o.ledger.calls.len() > l.calls.len()
            &&& o.ledger.calls[l.calls.len() as int] == (Call::Approval { by: sender })
            &&& o.result is Err ==> o.events == Seq::<Event<Seq<Hop>>>::empty()
            &&& o.result matches Err(Abort::Error(_)) ==> o.ledger.persistent == l.persistent
                && o.ledger.ttl == l.ttl
            &&& o.result is Ok ==> o.ledger.nonce(sender) == l.nonce(sender) + 1
            &&& o.result is Ok ==> o.ledger.volume() == l.volume() + params.amount_in
            &&& o.result is Err ==> o.ledger.volume() == l.volume()
            &&& forall|user: Address| user != sender ==> #[trigger] o.ledger.nonce(user) == l.nonce(
                user,
            )
        }),
{
    let o = swap_outcome(l, sender, params, replies);
    let begun = l.call(Call::Approval { by: sender });
    call_is_carried(l, Call::Approval { by: sender });
    if swap_refusal(l, params) is None {
        let first = params.route@.first();
        let (deposited, done) = begun.transfer(
            first.source,
            sender,
            first.pool,
            params.amount_in,
            replies.deposit,
        );
        assert(carried(begun, deposited));
        if done {
            let (walked, reached) = way_taken(
                deposited,
                params.route@,
                "swap"@,
                Some(0),
                params.amount_in,
                replies.pools,
            );
            way_is_carried(
                deposited,
                params.route@,
                "swap"@,
                Some(0),
                params.amount_in,
                replies.pools,
            );
            way_taken_only_calls(
                deposited,
                params.route@,
                "swap"@,
                Some(0),
                params.amount_in,
                replies.pools,
            );
            carried_on(begun, deposited, walked);
            if let Ok(received) = reached {
                settlement_is_carried(walked, sender, params, received, replies);
                carried_on(begun, walked, o.ledger);
            }
        }
    }
    assert forall|user: Address| user != sender implies #[trigger] o.ledger.nonce(user) == l.nonce(
        user,
    ) by {}
    assert(carried(begun, begun));
    assert(carried(begun, o.ledger));
    carried_on(l, begun, o.ledger);
    assert(begun.calls[l.calls.len() as int] == o.ledger.calls[l.calls.len() as int]);
}

/// How a request for a quote leaves the ledger.
proof fn quote_is_carried(l: Ledger, amount_in: i128, route: Route, replies: Seq<Option<i128>>)
    ensures
        carried(l, quote_outcome(l, amount_in, route, replies).0),
        ({
            let after = quote_outcome(l, amount_in, route, replies).0;
            after == (Ledger { calls: after.calls, ..l })
        }),
{
    way_is_carried(l, route@, "adapter_quote"@, None, amount_in, replies);
    way_taken_only_calls(l, route@, "adapter_quote"@, None, amount_in, replies);
}

// ---- What every operation keeps ----

/// How an operation leaves the ledger. Of the instance storage, a swap and a quote touch nothing,
/// and an extension no more than its note of when. Of the persistent storage, the pools are left
/// to registrations, and the rest to swaps.
proof fn operation_leaves(l: Ledger, operation: Operation)
    requires
        l.permits(operation),
    ensures
        ({
            let m = l.after(operation);
            &&& m == (Ledger {
                instance: m.instance,
                persistent: m.persistent,
                ttl: m.ttl,
                calls: m.calls,
                ..l
            })
            &&& m.wf()
            &&& l.calls.is_prefix_of(m.calls)
            &&& operation is Swap || operation is Quote ==> m.instance == l.instance
            &&& operation is ExtendStorageTtl ==> m.instance == l.instance.insert(
                StorageKey::LastTtlExtension@,
                Datum::Count(l.sequence),
            )
            &&& forall|k: Datum| #[trigger]
                l.persistent.contains_key(k) ==> m.persistent.contains_key(k) && m.ttl[k]
                    >= l.ttl[k]
            &&& operation !is RegisterPool ==> forall|pool: Address| #[trigger]
                m.supports(pool) == l.supports(pool)
            &&& operation !is Swap ==> m.volume() == l.volume()
            &&& operation !is Swap ==> forall|user: Address| #[trigger]
                m.nonce(user) == l.nonce(user)
        }),
{
    reveal_key_names();
    let m = l.after(operation);
    match operation {
        Operation::Swap { sender, params, replies } => {
            swap_is_carried(l, sender, params, replies);
            assert forall|pool: Address| #[trigger] m.supports(pool) == l.supports(pool) by {
                let key = StorageKey::SupportedPool(pool);
                assert(key@ == key@);
            }
        },
        Operation::Quote { amount_in, route, answers } => {
            quote_is_carried(l, amount_in, route, answers);
        },
        Operation::ExtendStorageTtl => {
            refresh_pools_is_carried(l, l.pool_list());
        },
        _ => {},
    }
}

/// No operation leaves the storage in disorder, and none changes what is not the contract's to
/// change.
pub proof fn operations_keep_wf(l: Ledger, operation: Operation)
    requires
        l.permits(operation),
    ensures
        ({
            let after = l.after(operation);
            &&& after.wf()
            &&& after.contract == l.contract
            &&& after.sequence == l.sequence
            &&& after.max_ttl == l.max_ttl
            &&& after.fresh_ttl == l.fresh_ttl
        }),
{
    operation_leaves(l, operation);
}

/// The contract is set up once: after that it stays set up, every further attempt is refused, and
/// neither the fee rate nor who receives the fees ever changes.
pub proof fn set_up_is_final(l: Ledger, operation: Operation)
    requires
        l.permits(operation),
        l.initialized(),
    ensures
        ({
            let after = l.after(operation);
            &&& after.initialized()
            &&& after.fee_rate() == l.fee_rate()
            &&& after.fee_to() == l.fee_to()
            &&& operation is Initialize ==> after == l
        }),
{
    reveal_key_names();
    operation_leaves(l, operation);
}

/// The fee rate never exceeds its limit.
pub proof fn fee_rate_stays_in_bounds(l: Ledger, operation: Operation)
    requires
        l.permits(operation),
        l.fee_rate() <= MAX_FEE_RATE,
    ensures
        l.after(operation).fee_rate() <= MAX_FEE_RATE,
{
    reveal_key_names();
    operation_leaves(l, operation);
}

proof fn registry_carries_over(l: Ledger, m: Ledger)
    requires
        l.registry_sound(),
        m.pool_count() == l.pool_count(),
        m.pool_list() == l.pool_list(),
        forall|pool: Address| #[trigger] m.supports(pool) == l.supports(pool),
    ensures
        m.registry_sound(),
{
    assert forall|pool: Address| #[trigger] m.supports(pool) <==> m.pool_list().contains(pool) by {
        assert(l.supports(pool) <==> l.pool_list().contains(pool));
    }
}

proof fn registry_grows(l: Ledger, pool: Address)
    requires
        l.wf(),
        l.registry_sound(),
        !l.supports(pool),
        l.pool_count() < u32::MAX,
    ensures
        l.with_pool(pool).registry_sound(),
        l.with_pool(pool).supports(pool),
        forall|other: Address| #[trigger] l.supports(other) ==> l.with_pool(pool).supports(other),
{
    reveal_key_names();
    let after = l.with_pool(pool);
    let before = l.pool_list();
    let list = after.pool_list();
    assert(list == before.push(pool));
    assert(!before.contains(pool));
    assert(list.last() == pool);
    assert forall|other: Address| #[trigger] after.supports(other) <==> list.contains(other) by {
        assert(l.supports(other) <==> before.contains(other));
        if l.supports(other) {
            let i = choose|i: int| 0 <= i < before.len() && before[i] == other;
            assert(list[i] == other);
        }
        if list.contains(other) && other != pool {
            let i = choose|i: int| 0 <= i < list.len() && list[i] == other;
            assert(before[i] == other);
        }
    }
}

/// The pools stay counted and listed as they are registered, and none is ever dropped.
pub proof fn registry_stays_sound(l: Ledger, operation: Operation)
    requires
        l.permits(operation),
        l.registry_sound(),
    ensures
        l.after(operation).registry_sound(),
        forall|pool: Address| #[trigger]
            l.supports(pool) ==> l.after(operation).supports(pool),
{
    reveal_key_names();
    operation_leaves(l, operation);
    let after = l.after(operation);
    if let Operation::RegisterPool { pool } = operation {
        let approved = l.approved_by_admin();
        registry_carries_over(l, approved);
        if !l.supports(pool) {
            registry_grows(approved, pool);
            assert forall|other: Address| #[trigger] l.supports(other) implies after.supports(
                other,
            ) by {
                assert(approved.supports(other));
            }
        }
    } else {
        registry_carries_over(l, after);
        assert forall|pool: Address| #[trigger] l.supports(pool) implies after.supports(pool) by {
            assert(after.supports(pool) == l.supports(pool));
        }
    }
}

/// No operation takes back a call, drops an entry or lowers a TTL.
pub proof fn nothing_is_taken_back(l: Ledger, operation: Operation)
    requires
        l.permits(operation),
    ensures
        l.calls.is_prefix_of(l.after(operation).calls),
        forall|k: Datum| #[trigger] l.instance.contains_key(k) ==> l.after(
            operation,
        ).instance.contains_key(k),
        forall|k: Datum| #[trigger] l.persistent.contains_key(k) ==> l.after(
            operation,
        ).persistent.contains_key(k) && l.after(operation).ttl[k] >= l.ttl[k],
{
    operation_leaves(l, operation);
}

/// Once the contract is set up, nobody but its administrator changes who administers it, whether
/// swaps are suspended, or which pools are registered: where one of these differs after an
/// operation, the first thing that the operation did was to demand the administrator's
/// authorization.
pub proof fn only_the_admin_governs(l: Ledger, operation: Operation, pool: Address)
    requires
        l.permits(operation),
        l.initialized(),
        ({
            let after = l.after(operation);
            after.admin() != l.admin() || after.paused() != l.paused() || after.pool_count()
                != l.pool_count() || after.pool_list() != l.pool_list() || after.supports(pool)
                != l.supports(pool)
        }),
    ensures
        ({
            let after = l.after(operation);
            &&& after.calls.len() > l.calls.len()
            &&& after.calls[l.calls.len() as int] == (Call::Approval { by: l.admin() })
        }),
{
    reveal_key_names();
    operation_leaves(l, operation);
    assert(operation !is RegisterPool ==> l.after(operation).supports(pool) == l.supports(pool));
}

/// A new administrator is the administrator.
pub proof fn admin_is_handed_over(l: Ledger, new_admin: Address)
    ensures
        l.after((Operation::SetAdmin { new_admin })).initialized(),
        l.after((Operation::SetAdmin { new_admin })).admin() == new_admin,
{
}

/// A registered pool is counted, comes last in the list, and is supported. To register it again
/// changes nothing that is stored.
pub proof fn registration_is_read_back(l: Ledger, pool: Address)
    requires
        l.permits(Operation::RegisterPool { pool }),
    ensures
        ({
            let after = l.after(Operation::RegisterPool { pool });
            let again = after.after(Operation::RegisterPool { pool });
            &&& after.supports(pool)
            &&& !l.supports(pool) ==> after.pool_count() == l.pool_count() + 1
            &&& !l.supports(pool) ==> after.pool_list() == l.pool_list().push(pool)
            &&& l.supports(pool) ==> after.pool_count() == l.pool_count()
            &&& l.supports(pool) ==> after.pool_list() == l.pool_list()
            &&& again == (Ledger { calls: again.calls, ..after })
        }),
{
    reveal_key_names();
}

// ---- Suspending swaps ----

/// While the contract is paused, a swap moves nothing: it is answered with an error once its
/// sender has authorized it.
pub proof fn paused_contract_moves_nothing(
    l: Ledger,
    sender: Address,
    params: SwapParams,
    replies: SwapReplies,
)
    requires
        l.paused(),
    ensures
        ({
            let o = swap_outcome(l, sender, params, replies);
            &&& o.result == Err::<SwapResult, Abort>(Abort::Error(ContractError::Paused))
            &&& o.ledger == l.call(Call::Approval { by: sender })
            &&& o.events == Seq::<Event<Seq<Hop>>>::empty()
        }),
{
}

/// Pausing pauses, and unpausing undoes it: what was stored before, of a contract that was not
/// paused, is stored again.
pub proof fn unpause_undoes_pause(l: Ledger)
    requires
        l.wf(),
        l.initialized(),
    ensures
        l.after(Operation::Pause).paused(),
        !l.after(Operation::Unpause).paused(),
        l.instance.contains_key(StorageKey::Paused@) && !l.paused() ==> l.after(
            Operation::Pause,
        ).after(Operation::Unpause).instance == l.instance,
        l.after(Operation::Pause).after(Operation::Unpause).persistent == l.persistent,
        l.after(Operation::Pause).after(Operation::Unpause).ttl == l.ttl,
        l.after(Operation::Pause).admin() == l.admin(),
{
    reveal_key_names();
    let there_and_back = l.after(Operation::Pause).after(Operation::Unpause).instance;
    if l.instance.contains_key(StorageKey::Paused@) && !l.paused() {
        assert(StorageKey::Paused.holds(l.instance[StorageKey::Paused@]));
        assert(l.instance[StorageKey::Paused@] == Datum::Flag(false));
        assert(there_and_back =~= l.instance);
    }
}

// ---- Fees ----

/// Where the fee can be computed, both it and what is left can be held, and the fee has the sign
/// of the amount.
pub proof fn shares_fit(amount: i128, rate: u32)
    requires
        fee_fits(amount, rate),
    ensures
        ({
            let fee = fee_on(amount as int, rate as int);
            &&& i128::MIN <= fee <= i128::MAX
            &&& i128::MIN <= amount - fee <= i128::MAX
            &&& amount >= 0 ==> fee >= 0
            &&& amount <= 0 ==> fee <= 0
        }),
{
    assert(-amount * rate == -(amount * rate)) by (nonlinear_arith);
    if amount >= 0 {
        assert(amount * rate >= 0) by (nonlinear_arith)
            requires
                amount >= 0,
                rate >= 0,
        ;
    } else {
        assert(amount * rate <= 0) by (nonlinear_arith)
            requires
                amount < 0,
                rate >= 0,
        ;
    }
}

/// At a rate that the contract can be set up with, the fee on what a pool gives is at most a
/// tenth of it, and at least nine tenths are left. At rate zero nothing is kept.
pub proof fn fee_is_a_tenth_at_most(amount: i128, rate: u32)
    requires
        amount >= 0,
        rate <= MAX_FEE_RATE,
    ensures
        ({
            let fee = fee_on(amount as int, rate as int);
            &&& 0 <= 10 * fee <= amount
            &&& 10 * (amount - fee) >= 9 * amount
            &&& rate == 0 ==> fee == 0
        }),
{
    assert(0 <= amount * rate <= amount * 1000) by (nonlinear_arith)
        requires
            amount >= 0,
            0 <= rate <= 1000,
    ;
    if rate == 0 {
        assert(amount * rate == 0) by (nonlinear_arith)
            requires
                rate == 0,
        ;
    }
}

/// Who swaps more does not get less, as long as the rate is no more than the whole.
pub proof fn more_in_is_not_less_out(small: int, large: int, rate: int)
    requires
        0 <= small <= large,
        0 <= rate <= 10000,
    ensures
        fee_on(small, rate) <= fee_on(large, rate),
        small - fee_on(small, rate) <= large - fee_on(large, rate),
{
    let more = large - small;
    assert(large * rate == small * rate + more * rate) by (nonlinear_arith)
        requires
            more == large - small,
    ;
    assert(0 <= small * rate && 0 <= more * rate <= more * 10000) by (nonlinear_arith)
        requires
            0 <= small,
            0 <= more,
            0 <= rate <= 10000,
    ;
}

// ---- Swaps ----

/// A swap that succeeds was not suspended, came in time, followed a route of a length that is
/// allowed, and brought its recipient no less than what was asked for. It counts as one swap of
/// its sender, and its deposit counts to the volume.
pub proof fn successful_swap_keeps_its_word(
    l: Ledger,
    sender: Address,
    params: SwapParams,
    replies: SwapReplies,
)
    requires
        l.wf(),
        swap_outcome(l, sender, params, replies).result is Ok,
    ensures
        ({
            let o = swap_outcome(l, sender, params, replies);
            let done = o.result->Ok_0;
            &&& !l.paused()
            &&& l.sequence <= params.deadline
            &&& followable(params.route@)
            &&& forall|i: int| 0 <= i < params.route@.len() ==> l.supports(
                #[trigger] params.route@[i].pool,
            )
            &&& done.amount_in == params.amount_in
            &&& done.amount_out >= params.min_amount_out
            &&& done.route == params.route
            &&& done.executed_at == l.sequence
            &&& o.ledger.nonce(sender) == l.nonce(sender) + 1
            &&& o.ledger.volume() == l.volume() + params.amount_in
            &&& o.events.len() > 0
            &&& o.events.last() matches Event::SwapExecuted {
                sender: who,
                amount_in,
                amount_out,
                fee_amount: _,
                route,
            } && who == sender && amount_in == params.amount_in && amount_out == done.amount_out
                && route == params.route@
        }),
{
    swap_is_carried(l, sender, params, replies);
    let begun = l.call(Call::Approval { by: sender });
    let first = params.route@.first();
    let (deposited, _) = begun.transfer(
        first.source,
        sender,
        first.pool,
        params.amount_in,
        replies.deposit,
    );
    let received = way_taken(
        deposited,
        params.route@,
        "swap"@,
        Some(0),
        params.amount_in,
        replies.pools,
    ).1->Ok_0;
    way_passes_supported_pools(
        deposited,
        params.route@,
        "swap"@,
        Some(0),
        params.amount_in,
        replies.pools,
    );
    way_taken_only_calls(
        deposited,
        params.route@,
        "swap"@,
        Some(0),
        params.amount_in,
        replies.pools,
    );
    shares_fit(received, l.fee_rate());
    assert forall|i: int| 0 <= i < params.route@.len() implies l.supports(
        #[trigger] params.route@[i].pool,
    ) by {
        assert(deposited.supports(params.route@[i].pool));
    }
}

/// What the last pool gave is all shared out, to the recipient and to whoever receives the fees,
/// and, where it is a token, the last thing that a successful swap does is to have the token move
/// both shares, out of what the contract holds.
pub proof fn swap_pays_out_what_it_received(
    l: Ledger,
    sender: Address,
    params: SwapParams,
    replies: SwapReplies,
)
    requires
        l.wf(),
        swap_outcome(l, sender, params, replies).result is Ok,
    ensures
        ({
            let o = swap_outcome(l, sender, params, replies);
            let out = o.result->Ok_0.amount_out;
            let n = o.ledger.calls.len();
            let fee = o.events.last()->SwapExecuted_fee_amount;
            &&& replies.pools[params.route@.len() - 1] matches Some(received) && received == out
                + fee
            &&& fee == fee_on(out + fee, l.fee_rate() as int)
            &&& l.fee_to() is Some
            &&& params.route@.last().destination matches Asset::Soroban(token) ==> {
                &&& n >= 2
                &&& o.ledger.calls[n - 2] == (Call::Transfer {
                    token,
                    from: l.contract,
                    to: params.recipient,
                    amount: out,
                    done: true,
                })
                &&& o.ledger.calls[n - 1] == (Call::Transfer {
                    token,
                    from: l.contract,
                    to: l.fee_to()->0,
                    amount: fee,
                    done: true,
                })
            }
        }),
{
    let begun = l.call(Call::Approval { by: sender });
    let first = params.route@.first();
    let (deposited, _) = begun.transfer(
        first.source,
        sender,
        first.pool,
        params.amount_in,
        replies.deposit,
    );
    let (walked, reached) = way_taken(
        deposited,
        params.route@,
        "swap"@,
        Some(0),
        params.amount_in,
        replies.pools,
    );
    way_taken_only_calls(
        deposited,
        params.route@,
        "swap"@,
        Some(0),
        params.amount_in,
        replies.pools,
    );
    let received = reached->Ok_0;
    let shares = accepted(received, l.fee_rate(), params.min_amount_out)->Ok_0;
    shares_fit(received, l.fee_rate());
    let asset = params.route@.last().destination;
    let (paid, _) = walked.transfer(
        asset,
        l.contract,
        params.recipient,
        shares.output,
        replies.payout,
    );
    let (shared, _) = paid.transfer(asset, l.contract, l.fee_to()->0, shares.fee, replies.fee);
    let summed = shared.bump_nonce(sender).add_volume(params.amount_in);
    refresh_pools_only_ttl(summed, pools_of(params.route@));
    assert(summed.calls == shared.calls);
}

/// A swap opens with the deposit: what it takes from its sender goes to the first pool, before
/// any pool is asked.
pub proof fn swap_takes_its_deposit_first(
    l: Ledger,
    sender: Address,
    params: SwapParams,
    replies: SwapReplies,
)
    requires
        l.wf(),
        swap_outcome(l, sender, params, replies).result is Ok,
    ensures
        params.route@.first().source matches Asset::Soroban(token) ==> {
            let calls = swap_outcome(l, sender, params, replies).ledger.calls;
            &&& calls.len() > l.calls.len() + 1
            &&& calls[l.calls.len() as int + 1] == (Call::Transfer {
                token,
                from: sender,
                to: params.route@.first().pool,
                amount: params.amount_in,
                done: true,
            })
        },
{
    let o = swap_outcome(l, sender, params, replies);
    let begun = l.call(Call::Approval { by: sender });
    let first = params.route@.first();
    let (deposited, _) = begun.transfer(
        first.source,
        sender,
        first.pool,
        params.amount_in,
        replies.deposit,
    );
    let (walked, reached) = way_taken(
        deposited,
        params.route@,
        "swap"@,
        Some(0),
        params.amount_in,
        replies.pools,
    );
    way_is_carried(
        deposited,
        params.route@,
        "swap"@,
        Some(0),
        params.amount_in,
        replies.pools,
    );
    settlement_is_carried(walked, sender, params, reached->Ok_0, replies);
    carried_on(deposited, walked, o.ledger);
    if first.source is Soroban {
        let n = l.calls.len() as int;
        assert(deposited.calls[n + 1] == o.ledger.calls[n + 1]);
    }
}

/// A route is followed to its end only through registered pools.
pub proof fn way_passes_supported_pools(
    l: Ledger,
    hops: Seq<Hop>,
    function: Seq<char>,
    floor: Option<i128>,
    amount: i128,
    replies: Seq<Option<i128>>,
)
    requires
        way_taken(l, hops, function, floor, amount, replies).1 is Ok,
    ensures
        forall|i: int| 0 <= i < hops.len() ==> l.supports(#[trigger] hops[i].pool) && is_contract(
            hops[i].pool,
        ),
    decreases hops.len(),
{
    if hops.len() > 0 {
        let rest = hops.drop_last();
        way_passes_supported_pools(l, rest, function, floor, amount, replies);
        way_taken_only_calls(l, rest, function, floor, amount, replies);
        assert forall|i: int| 0 <= i < hops.len() implies l.supports(#[trigger] hops[i].pool)
            && is_contract(hops[i].pool) by {
            if i < rest.len() {
                assert(rest[i] == hops[i]);
            }
        }
    }
}

/// A swap that is answered with an error leaves everything that is stored as it was, and tells
/// nobody of itself.
pub proof fn failed_swap_stores_nothing(
    l: Ledger,
    sender: Address,
    params: SwapParams,
    replies: SwapReplies,
)
    requires
        l.wf(),
        swap_outcome(l, sender, params, replies).result matches Err(Abort::Error(_)),
    ensures
        ({
            let o = swap_outcome(l, sender, params, replies);
            &&& o.ledger == (Ledger { calls: o.ledger.calls, ..l })
            &&& o.events == Seq::<Event<Seq<Hop>>>::empty()
        }),
{
    swap_is_carried(l, sender, params, replies);
}

/// No swap begins without its sender's authorization: it is the first thing that a swap demands.
pub proof fn swap_is_authorized(
    l: Ledger,
    sender: Address,
    params: SwapParams,
    replies: SwapReplies,
)
    requires
        l.wf(),
    ensures
        ({
            let calls = swap_outcome(l, sender, params, replies).ledger.calls;
            &&& calls.len() > l.calls.len()
            &&& calls[l.calls.len() as int] == (Call::Approval { by: sender })
        }),
{
    swap_is_carried(l, sender, params, replies);
}

/// Nothing but a successful swap changes a nonce or the volume. A swap that ends the invocation
/// is left out: the host undoes it.
pub proof fn only_swaps_are_counted(l: Ledger, operation: Operation, user: Address)
    requires
        l.permits(operation),
        operation matches Operation::Swap { sender, params, replies } ==> swap_outcome(
            l,
            sender,
            params,
            replies,
        ).result matches Err(Abort::Error(_)),
    ensures
        l.after(operation).nonce(user) == l.nonce(user),
        l.after(operation).volume() == l.volume(),
{
    operation_leaves(l, operation);
    if let Operation::Swap { sender, params, replies } = operation {
        swap_is_carried(l, sender, params, replies);
    }
}

/// A swap counts for its sender and for nobody else.
pub proof fn swap_counts_for_its_sender(
    l: Ledger,
    sender: Address,
    params: SwapParams,
    replies: SwapReplies,
    other: Address,
)
    requires
        l.wf(),
        other != sender,
    ensures
        swap_outcome(l, sender, params, replies).ledger.nonce(other) == l.nonce(other),
{
    swap_is_carried(l, sender, params, replies);
}

// ---- Quotes ----

/// To ask for a quote changes nothing that is stored, whatever comes of it.
pub proof fn quote_stores_nothing(
    l: Ledger,
    amount_in: i128,
    route: Route,
    answers: Seq<Option<i128>>,
)
    ensures
        ({
            let after = quote_outcome(l, amount_in, route, answers).0;
            after == (Ledger { calls: after.calls, ..l })
        }),
{
    quote_is_carried(l, amount_in, route, answers);
}

/// What comes of a route does not depend on what the pools are asked, only on what they answer.
proof fn way_goes_by_answers(
    l: Ledger,
    m: Ledger,
    hops: Seq<Hop>,
    f: Seq<char>,
    g: Seq<char>,
    floor: Option<i128>,
    bound: Option<i128>,
    amount: i128,
    replies: Seq<Option<i128>>,
)
    requires
        l.persistent == m.persistent,
    ensures
        way_taken(l, hops, f, floor, amount, replies).1 == way_taken(
            m,
            hops,
            g,
            bound,
            amount,
            replies,
        ).1,
    decreases hops.len(),
{
    if hops.len() > 0 {
        way_goes_by_answers(l, m, hops.drop_last(), f, g, floor, bound, amount, replies);
        way_taken_only_calls(l, hops.drop_last(), f, floor, amount, replies);
        way_taken_only_calls(m, hops.drop_last(), g, bound, amount, replies);
    }
}

/// Whether swaps are suspended makes no difference to a quote.
pub proof fn pause_leaves_quotes_alone(
    l: Ledger,
    amount_in: i128,
    route: Route,
    answers: Seq<Option<i128>>,
)
    ensures
        ({
            let quote = quote_outcome(l, amount_in, route, answers).1;
            let paused = l.after(Operation::Pause);
            let unpaused = l.after(Operation::Unpause);
            &&& quote_outcome(paused, amount_in, route, answers).1 == quote
            &&& quote_outcome(unpaused, amount_in, route, answers).1 == quote
        }),
{
    reveal_key_names();
    let asked = "adapter_quote"@;
    let paused = l.after(Operation::Pause);
    let unpaused = l.after(Operation::Unpause);
    way_goes_by_answers(l, paused, route@, asked, asked, None, None, amount_in, answers);
    way_goes_by_answers(l, unpaused, route@, asked, asked, None, None, amount_in, answers);
}

/// A quote foretells the swap: where the pools answer to the swap what they answered to the
/// quote, on a ledger with the same pools and the same fee rate, a swap that succeeds brings what
/// was quoted, for the fee that was quoted.
pub proof fn quote_foretells_swap(
    l: Ledger,
    m: Ledger,
    sender: Address,
    params: SwapParams,
    replies: SwapReplies,
)
    requires
        m.wf(),
        l.persistent == m.persistent,
        l.fee_rate() == m.fee_rate(),
        quote_outcome(l, params.amount_in, params.route, replies.pools).1 is Ok,
        swap_outcome(m, sender, params, replies).result is Ok,
    ensures
        ({
            let o = swap_outcome(m, sender, params, replies);
            let quote = quote_outcome(l, params.amount_in, params.route, replies.pools).1->Ok_0;
            &&& o.result->Ok_0.amount_out == quote.expected_output
            &&& o.events.last()->SwapExecuted_fee_amount == quote.fee_amount
        }),
{
    let begun = m.call(Call::Approval { by: sender });
    let first = params.route@.first();
    let (deposited, _) = begun.transfer(
        first.source,
        sender,
        first.pool,
        params.amount_in,
        replies.deposit,
    );
    way_goes_by_answers(
        l,
        deposited,
        params.route@,
        "adapter_quote"@,
        "swap"@,
        None,
        Some(0),
        params.amount_in,
        replies.pools,
    );
    way_taken_only_calls(
        deposited,
        params.route@,
        "swap"@,
        Some(0),
        params.amount_in,
        replies.pools,
    );
}

// ---- TTLs ----

/// To extend a TTL never lowers it, and to extend it twice is to extend it once.
pub proof fn extension_is_safe(ttl: u32, threshold: u32, extend_to: u32, max_ttl: u32)
    ensures
        ({
            let after = extended(ttl, threshold, extend_to, max_ttl);
            &&& after >= ttl
            &&& extended(after, threshold, extend_to, max_ttl) == after
            &&& threshold <= extend_to ==> after >= extend_to || after > threshold || after
                >= max_ttl
        }),
{
}

/// After an extension, every registered pool has had its chance: it has more than the threshold
/// left, or as much as can be given to it. What is stored stays, but for the note of when.
pub proof fn extension_reaches_every_pool(l: Ledger, pool: Address)
    requires
        l.wf(),
        l.supports(pool),
        l.pool_list().contains(pool),
    ensures
        ({
            let after = l.after(Operation::ExtendStorageTtl);
            let key = StorageKey::SupportedPool(pool)@;
            &&& after.ttl[key] == extended(
                l.ttl[key],
                POOL_TTL_THRESHOLD,
                POOL_TTL_EXTEND_TO,
                l.max_ttl,
            )
            &&& after.last_ttl_extension() == l.sequence
            &&& after.persistent == l.persistent
            &&& after.calls == l.calls
        }),
{
    reveal_key_names();
    refresh_pools_only_ttl(l, l.pool_list());
    refresh_pools_reaches(l, l.pool_list(), pool);
}

pub(crate) proof fn refresh_pools_reaches(l: Ledger, pools: Seq<Address>, pool: Address)
    requires
        l.supports(pool),
    ensures
        ({
            let key = StorageKey::SupportedPool(pool)@;
            l.refresh_pools(pools).ttl[key] == if pools.contains(pool) {
                extended(l.ttl[key], POOL_TTL_THRESHOLD, POOL_TTL_EXTEND_TO, l.max_ttl)
            } else {
                l.ttl[key]
            }
        }),
    decreases pools.len(),
{
    if pools.len() > 0 {
        let rest = pools.drop_last();
        reveal_key_names();
        refresh_pools_reaches(l, rest, pool);
        refresh_pools_only_ttl(l, rest);
        if pools.contains(pool) && pools.last() != pool {
            let i = choose|i: int| 0 <= i < pools.len() && pools[i] == pool;
            assert(rest[i] == pool);
        }
        if rest.contains(pool) {
            let i = choose|i: int| 0 <= i < rest.len() && rest[i] == pool;
            assert(pools[i] == pool);
        }
        assert(pools.last() == pools[pools.len() - 1]);
    }
}

/// The note of when TTLs were last extended, by which the status goes, is written by an extension
/// and when the contract is set up, and by nothing else.
pub proof fn only_extensions_are_noted(l: Ledger, operation: Operation)
    requires
        l.permits(operation),
    ensures
        ({
            let after = l.after(operation);
            let fee_rate = operation->Initialize_fee_rate;
            let set_up = operation is Initialize && !l.initialized() && fee_rate <= MAX_FEE_RATE;
            after.last_ttl_extension() == if operation is ExtendStorageTtl || set_up {
                l.sequence
            } else {
                l.last_ttl_extension()
            }
        }),
{
    reveal_key_names();
    operation_leaves(l, operation);
}

/// The status that is reported right after an extension is the full TTL, with nothing to do and
/// nothing to warn of.
pub proof fn extension_is_reported(l: Ledger)
    requires
        l.wf(),
    ensures
        ({
            let status = l.after(Operation::ExtendStorageTtl).ttl_status();
            &&& status.instance_ttl_remaining == INSTANCE_TTL_EXTEND_TO
            &&& status.pools_min_ttl == POOL_TTL_EXTEND_TO
            &&& !status.needs_extension
            &&& status.last_extended_ledger == l.sequence
        }),
        l.after(Operation::ExtendStorageTtl).ttl_warning() == Seq::<Event<Seq<Hop>>>::empty(),
{
    reveal_key_names();
    refresh_pools_only_ttl(l, l.pool_list());
}

/// The warning goes by the status: it comes once, with what the status reports of the pools, where
/// that is below the threshold and an extension was ever noted. Otherwise none comes.
pub proof fn warning_goes_by_the_status(l: Ledger)
    ensures
        ({
            let status = l.ttl_status();
            let due = status.last_extended_ledger != 0 && status.pools_min_ttl < POOL_TTL_THRESHOLD;
            &&& l.ttl_warning() == (if due {
                seq![
                    Event::<Seq<Hop>>::TtlWarning {
                        remaining: status.pools_min_ttl,
                        threshold: POOL_TTL_THRESHOLD,
                    },
                ]
            } else {
                Seq::empty()
            })
            &&& due ==> status.needs_extension
            &&& status.pools_min_ttl == (if l.sequence <= l.last_ttl_extension() {
                POOL_TTL_EXTEND_TO as int
            } else if l.sequence - l.last_ttl_extension() >= POOL_TTL_EXTEND_TO {
                0
            } else {
                POOL_TTL_EXTEND_TO - (l.sequence - l.last_ttl_extension())
            })
        }),
{
}

/// An extension is called for once more than 23 days have passed since the last one, when less
/// than a week is left of the instance. The instance runs out before the pools do, and whoever is
/// warned is also told that an extension is called for.
pub proof fn extension_is_due_in_time(l: Ledger)
    ensures
        l.ttl_status().needs_extension <==> l.sequence - l.last_ttl_extension()
            > INSTANCE_TTL_EXTEND_TO - INSTANCE_TTL_THRESHOLD,
        l.ttl_status().instance_ttl_remaining <= l.ttl_status().pools_min_ttl,
        l.ttl_warning().len() > 0 ==> l.ttl_status().needs_extension,
{
}

} // verus!
