//! What the words of the contracts stand for, written out: the names on the ledger, the limits,
//! what is read and written under each key, and what counts as a fee.

use crate::errors::{Abort, ContractError};
use crate::events::{Event, EventLog};
use crate::fees::{fee_fits, fee_on, settle, Settlement, FEE_PARTS, MAX_FEE_RATE};
use crate::host::{
    approves, authorized, is_contract, ledger, lifetime, listed, of_addresses, only_called, strkey,
};
use crate::ledger::{extended, Call, Datum, Ledger, Lifetime, Mark};
use crate::route::MAX_HOPS;
use crate::router::{
    renewed, StellarRoute, CONTRACT_VERSION, IMPACT_PER_HOP_BPS, QUOTE_LIFETIME,
};
use crate::storage;
use crate::storage::StorageKey;
use crate::types::{Asset, Hop, Route};
use soroban_sdk::{Address, Env};
use vstd::prelude::*;

verus! {

// ---- Names and limits ----

/// The keys, as they stand on the ledger.
pub proof fn keys_are_named(who: Address, hash: [u8; 32])
    ensures
        StorageKey::Admin@ == Datum::Tag("Admin"@, Mark::Alone),
        StorageKey::FeeRate@ == Datum::Tag("FeeRate"@, Mark::Alone),
        StorageKey::FeeTo@ == Datum::Tag("FeeTo"@, Mark::Alone),
        StorageKey::Paused@ == Datum::Tag("Paused"@, Mark::Alone),
        StorageKey::SupportedPool(who)@ == Datum::Tag("SupportedPool"@, Mark::Account(who)),
        StorageKey::PoolCount@ == Datum::Tag("PoolCount"@, Mark::Alone),
        StorageKey::SwapNonce(who)@ == Datum::Tag("SwapNonce"@, Mark::Account(who)),
        StorageKey::TotalSwapVolume@ == Datum::Tag("TotalSwapVolume"@, Mark::Alone),
        StorageKey::PoolList@ == Datum::Tag("PoolList"@, Mark::Alone),
        StorageKey::LastTtlExtension@ == Datum::Tag("LastTtlExtension"@, Mark::Alone),
        StorageKey::PendingUpgrade@ == Datum::Tag("PendingUpgrade"@, Mark::Alone),
        StorageKey::Commitment(hash)@ == Datum::Tag("Commitment"@, Mark::Hash(hash)),
        StorageKey::RateLimit(who)@ == Datum::Tag("RateLimit"@, Mark::Account(who)),
{
}

/// The assets, as pools are told of them.
pub proof fn assets_are_named(token: Address)
    ensures
        Asset::Native.named() == Datum::Tag("Native"@, Mark::Alone),
        Asset::Soroban(token).named() == Datum::Tag("Soroban"@, Mark::Account(token)),
{
}

/// A contract is told from an account by the letter that its text form begins with.
pub proof fn contracts_begin_with_c(a: Address)
    ensures
        is_contract(a) <==> strkey(a).len() > 0 && strkey(a)[0] == 67,
{
}

/// The numbers that the contract goes by.
pub proof fn numbers_are_fixed()
    ensures
        CONTRACT_VERSION == 1,
        MAX_FEE_RATE == 1000,
        FEE_PARTS == 10000,
        MAX_HOPS == 4,
        IMPACT_PER_HOP_BPS == 5,
        QUOTE_LIFETIME == 120,
        storage::DAY_IN_LEDGERS == 17280,
        storage::INSTANCE_TTL_EXTEND_TO == 518400,
        storage::INSTANCE_TTL_THRESHOLD == 120960,
        storage::POOL_TTL_EXTEND_TO == 1555200,
        storage::POOL_TTL_THRESHOLD == 380160,
        storage::VOLUME_TTL_EXTEND_TO == 518400,
        storage::VOLUME_TTL_THRESHOLD == 120960,
        storage::NONCE_TTL_EXTEND_TO == 518400,
        storage::NONCE_TTL_THRESHOLD == 120960,
        storage::PENDING_UPGRADE_TTL == 4320,
        storage::COMMITMENT_TTL == 720,
        storage::RATE_LIMIT_TTL == 120,
{
}

// ---- What is stored ----

/// Each setting is what is stored under its key; where nothing is stored, it has its default.
pub proof fn settings_are_what_is_stored(l: Ledger, who: Address)
    ensures
        l.initialized() <==> l.instance.contains_key(StorageKey::Admin@),
        l.admin() == l.instance[StorageKey::Admin@]->Account_0,
        l.fee_rate() == (if l.instance.contains_key(StorageKey::FeeRate@) {
            l.instance[StorageKey::FeeRate@]->Count_0
        } else {
            0
        }),
        l.fee_to() == (if l.instance.contains_key(StorageKey::FeeTo@) {
            Some(l.instance[StorageKey::FeeTo@]->Account_0)
        } else {
            None
        }),
        l.paused() <==> l.instance.contains_key(StorageKey::Paused@)
            && l.instance[StorageKey::Paused@]->Flag_0,
        l.pool_count() == (if l.instance.contains_key(StorageKey::PoolCount@) {
            l.instance[StorageKey::PoolCount@]->Count_0
        } else {
            0
        }),
        l.pool_list() == (if l.instance.contains_key(StorageKey::PoolList@) {
            l.instance[StorageKey::PoolList@]->Accounts_0
        } else {
            Seq::empty()
        }),
        l.last_ttl_extension() == (if l.instance.contains_key(StorageKey::LastTtlExtension@) {
            l.instance[StorageKey::LastTtlExtension@]->Count_0
        } else {
            0
        }),
        l.supports(who) <==> l.persistent.contains_key(StorageKey::SupportedPool(who)@),
        l.nonce(who) == (if l.persistent.contains_key(StorageKey::SwapNonce(who)@) {
            l.persistent[StorageKey::SwapNonce(who)@]->Amount_0
        } else {
            0
        }),
        l.volume() == (if l.persistent.contains_key(StorageKey::TotalSwapVolume@) {
            l.persistent[StorageKey::TotalSwapVolume@]->Amount_0
        } else {
            0
        }),
{
}

/// The storage is in order where the host serves the contract, and under each key, if anything,
/// is a value of the kind that belongs there. Nothing more is asked of it.
pub proof fn order_is_a_matter_of_kinds(l: Ledger)
    ensures
        l.ready() <==> l.running && l.sequence + l.max_ttl <= u32::MAX && l.sequence + l.fresh_ttl
            <= u32::MAX,
        l.wf() <==> {
            &&& l.ready()
            &&& forall|k: StorageKey, v: Datum| #![trigger k.holds(v)]
                (l.instance.contains_pair(k@, v) || l.persistent.contains_pair(k@, v))
                    ==> k.holds(v)
        },
        forall|k: StorageKey, v: Datum| #[trigger]
            k.holds(v) <==> match k {
                StorageKey::Admin => v is Account,
                StorageKey::FeeTo => v is Account,
                StorageKey::FeeRate => v is Count,
                StorageKey::PoolCount => v is Count,
                StorageKey::LastTtlExtension => v is Count,
                StorageKey::Paused => v is Flag,
                StorageKey::SupportedPool(_) => v is Flag,
                StorageKey::SwapNonce(_) => v is Amount,
                StorageKey::TotalSwapVolume => v is Amount,
                StorageKey::PoolList => v is Accounts,
                _ => true,
            },
{
    if l.ready() && (forall|k: StorageKey, v: Datum| #![trigger k.holds(v)]
        (l.instance.contains_pair(k@, v) || l.persistent.contains_pair(k@, v)) ==> k.holds(v)) {
        assert forall|k: StorageKey| #![trigger k@] l.instance.contains_key(k@) implies k.holds(
            l.instance[k@],
        ) by {
            assert(l.instance.contains_pair(k@, l.instance[k@]));
        }
        assert forall|k: StorageKey| #![trigger k@] l.persistent.contains_key(k@) implies k.holds(
            l.persistent[k@],
        ) by {
            assert(l.persistent.contains_pair(k@, l.persistent[k@]));
        }
    }
}

/// What the functions of the storage return is what is stored.
pub proof fn storage_is_read_as_it_is(
    e: &Env,
    who: Address,
    admin: Address,
    fee_rate: u32,
    fee_to: Option<Address>,
    receiver: Address,
    paused: bool,
    pool_count: u32,
    last: u32,
    initialized: bool,
    supported: bool,
    nonce: i128,
    volume: i128,
    list: soroban_sdk::Vec<Address>,
)
    requires
        call_ensures(storage::get_admin, (e,), admin),
        call_ensures(storage::get_fee_rate, (e,), fee_rate),
        call_ensures(storage::get_fee_to_optional, (e,), fee_to),
        call_ensures(storage::get_fee_to, (e,), receiver),
        call_ensures(storage::get_paused, (e,), paused),
        call_ensures(storage::get_pool_count, (e,), pool_count),
        call_ensures(storage::get_last_ttl_extension, (e,), last),
        call_ensures(storage::is_initialized, (e,), initialized),
        call_ensures(storage::is_supported_pool, (e, who), supported),
        call_ensures(storage::get_nonce, (e, who), nonce),
        call_ensures(storage::get_total_swap_volume, (e,), volume),
        call_ensures(storage::get_pool_list, (e,), list),
        ledger(*e).wf(),
    ensures
        ({
            let instance = ledger(*e).instance;
            let persistent = ledger(*e).persistent;
            &&& initialized <==> instance.contains_key(StorageKey::Admin@)
            &&& initialized ==> instance[StorageKey::Admin@] == Datum::Account(admin)
            &&& if instance.contains_key(StorageKey::FeeRate@) {
                instance[StorageKey::FeeRate@] == Datum::Count(fee_rate)
            } else {
                fee_rate == 0
            }
            &&& if instance.contains_key(StorageKey::FeeTo@) {
                &&& fee_to is Some
                &&& instance[StorageKey::FeeTo@] == Datum::Account(fee_to->0)
                &&& receiver == fee_to->0
            } else {
                fee_to is None
            }
            &&& if instance.contains_key(StorageKey::Paused@) {
                instance[StorageKey::Paused@] == Datum::Flag(paused)
            } else {
                !paused
            }
            &&& if instance.contains_key(StorageKey::PoolCount@) {
                instance[StorageKey::PoolCount@] == Datum::Count(pool_count)
            } else {
                pool_count == 0
            }
            &&& if instance.contains_key(StorageKey::LastTtlExtension@) {
                instance[StorageKey::LastTtlExtension@] == Datum::Count(last)
            } else {
                last == 0
            }
            &&& if instance.contains_key(StorageKey::PoolList@) {
                instance[StorageKey::PoolList@] == Datum::Accounts(listed(list))
            } else {
                listed(list).len() == 0
            }
            &&& of_addresses(list)
            &&& supported <==> persistent.contains_key(StorageKey::SupportedPool(who)@)
            &&& if persistent.contains_key(StorageKey::SwapNonce(who)@) {
                persistent[StorageKey::SwapNonce(who)@] == Datum::Amount(nonce)
            } else {
                nonce == 0
            }
            &&& if persistent.contains_key(StorageKey::TotalSwapVolume@) {
                persistent[StorageKey::TotalSwapVolume@] == Datum::Amount(volume)
            } else {
                volume == 0
            }
        }),
{
    let nonce_key = StorageKey::SwapNonce(who);
    assert(nonce_key@ == nonce_key@);
}

/// What the contract says of itself is what is stored.
pub proof fn contract_tells_what_is_stored(
    e: &Env,
    pool: Address,
    version: u32,
    admin: Result<Address, ContractError>,
    fee_rate: u32,
    fee_to: Result<Address, ContractError>,
    paused: bool,
    running: Result<(), ContractError>,
    pool_count: u32,
    registered: bool,
    volume: i128,
)
    requires
        call_ensures(StellarRoute::version, (e,), version),
        call_ensures(StellarRoute::get_admin, (e,), admin),
        call_ensures(StellarRoute::get_fee_rate_value, (e,), fee_rate),
        call_ensures(StellarRoute::get_fee_to_address, (e,), fee_to),
        call_ensures(StellarRoute::is_paused, (e,), paused),
        call_ensures(StellarRoute::require_not_paused, (e,), running),
        call_ensures(StellarRoute::get_pool_count, (e,), pool_count),
        call_ensures(StellarRoute::is_pool_registered, (e, pool), registered),
        call_ensures(StellarRoute::get_total_swap_volume, (e,), volume),
        ledger(*e).wf(),
    ensures
        version == 1,
        ({
            let instance = ledger(*e).instance;
            let persistent = ledger(*e).persistent;
            &&& if instance.contains_key(StorageKey::Admin@) {
                admin is Ok && instance[StorageKey::Admin@] == Datum::Account(admin->Ok_0)
            } else {
                admin == Err::<Address, ContractError>(ContractError::NotInitialized)
            }
            &&& if instance.contains_key(StorageKey::FeeRate@) {
                instance[StorageKey::FeeRate@] == Datum::Count(fee_rate)
            } else {
                fee_rate == 0
            }
            &&& if instance.contains_key(StorageKey::FeeTo@) {
                fee_to is Ok && instance[StorageKey::FeeTo@] == Datum::Account(fee_to->Ok_0)
            } else {
                fee_to == Err::<Address, ContractError>(ContractError::NotInitialized)
            }
            &&& if instance.contains_key(StorageKey::Paused@) {
                instance[StorageKey::Paused@] == Datum::Flag(paused)
            } else {
                !paused
            }
            &&& paused ==> running == Err::<(), ContractError>(ContractError::Paused)
            &&& !paused ==> running is Ok
            &&& if instance.contains_key(StorageKey::PoolCount@) {
                instance[StorageKey::PoolCount@] == Datum::Count(pool_count)
            } else {
                pool_count == 0
            }
            &&& registered <==> persistent.contains_key(StorageKey::SupportedPool(pool)@)
            &&& if persistent.contains_key(StorageKey::TotalSwapVolume@) {
                persistent[StorageKey::TotalSwapVolume@] == Datum::Amount(volume)
            } else {
                volume == 0
            }
        }),
{
}

// ---- What is written ----

/// Setting a value stores it under its key and changes nothing else that is stored.
pub proof fn settings_are_written_as_given(
    e: &mut Env,
    f: &mut Env,
    g: &mut Env,
    h: &mut Env,
    admin: &Address,
    rate: u32,
    count: u32,
    sequence: u32,
)
    requires
        call_ensures(storage::set_admin, (e, admin), ()),
        call_ensures(storage::set_fee_rate, (f, rate), ()),
        call_ensures(storage::set_pool_count, (g, count), ()),
        call_ensures(storage::set_last_ttl_extension, (h, sequence), ()),
    ensures
        ledger(*final(e)) == (Ledger {
            instance: ledger(*old(e)).instance.insert(StorageKey::Admin@, Datum::Account(*admin)),
            ..ledger(*old(e))
        }),
        ledger(*final(f)) == (Ledger {
            instance: ledger(*old(f)).instance.insert(StorageKey::FeeRate@, Datum::Count(rate)),
            ..ledger(*old(f))
        }),
        ledger(*final(g)) == (Ledger {
            instance: ledger(*old(g)).instance.insert(StorageKey::PoolCount@, Datum::Count(count)),
            ..ledger(*old(g))
        }),
        ledger(*final(h)) == (Ledger {
            instance: ledger(*old(h)).instance.insert(
                StorageKey::LastTtlExtension@,
                Datum::Count(sequence),
            ),
            ..ledger(*old(h))
        }),
{
}

/// A pool is listed behind those that are listed already.
pub proof fn pools_are_listed_in_order(e: &mut Env, pool: &Address)
    requires
        call_ensures(storage::add_to_pool_list, (e, pool), ()),
    ensures
        ledger(*final(e)) == (Ledger {
            instance: ledger(*old(e)).instance.insert(
                StorageKey::PoolList@,
                Datum::Accounts(ledger(*old(e)).pool_list().push(*pool)),
            ),
            ..ledger(*old(e))
        }),
{
}

/// A TTL that is at the threshold or below is brought to the goal, or to the most that the network
/// allows, unless it is there already.
pub proof fn extension_is_exact(ttl: u32, threshold: u32, extend_to: u32, max_ttl: u32)
    ensures
        ttl > threshold ==> extended(ttl, threshold, extend_to, max_ttl) == ttl,
        ttl <= threshold && extend_to <= max_ttl && ttl <= extend_to ==> extended(
            ttl,
            threshold,
            extend_to,
            max_ttl,
        ) == extend_to,
        ttl <= threshold && max_ttl <= extend_to && ttl <= max_ttl ==> extended(
            ttl,
            threshold,
            extend_to,
            max_ttl,
        ) == max_ttl,
        ttl >= extend_to || ttl >= max_ttl ==> extended(ttl, threshold, extend_to, max_ttl) == ttl,
{
}

/// Extending the TTL of an entry extends it, where the entry is there, and does nothing else.
pub proof fn entries_are_extended_alone(
    e: &mut Env,
    f: &mut Env,
    g: &mut Env,
    h: &mut Env,
    key: &StorageKey,
    threshold: u32,
    extend_to: u32,
    pool: &Address,
    user: &Address,
)
    requires
        call_ensures(storage::extend_persistent_ttl, (e, key, threshold, extend_to), ()),
        call_ensures(storage::extend_pool_ttl, (f, pool), ()),
        call_ensures(storage::extend_nonce_ttl, (g, user), ()),
        call_ensures(storage::extend_volume_ttl, (h,), ()),
    ensures
        ledger(*final(e)) == (if ledger(*old(e)).persistent.contains_key(key@) {
            ledger(*old(e)).extend(key@, threshold, extend_to)
        } else {
            ledger(*old(e))
        }),
        ledger(*final(f)) == (if ledger(*old(f)).persistent.contains_key(
            StorageKey::SupportedPool(*pool)@,
        ) {
            ledger(*old(f)).extend(StorageKey::SupportedPool(*pool)@, 380160, 1555200)
        } else {
            ledger(*old(f))
        }),
        ledger(*final(g)) == (if ledger(*old(g)).persistent.contains_key(
            StorageKey::SwapNonce(*user)@,
        ) {
            ledger(*old(g)).extend(StorageKey::SwapNonce(*user)@, 120960, 518400)
        } else {
            ledger(*old(g))
        }),
        ledger(*final(h)) == (if ledger(*old(h)).persistent.contains_key(
            StorageKey::TotalSwapVolume@,
        ) {
            ledger(*old(h)).extend(StorageKey::TotalSwapVolume@, 120960, 518400)
        } else {
            ledger(*old(h))
        }),
        forall|l: Ledger, k: Datum, t: u32, goal: u32| #[trigger]
            l.extend(k, t, goal) == (Ledger {
                ttl: l.ttl.insert(k, extended(l.ttl[k], t, goal, l.max_ttl)),
                ..l
            }),
{
}

/// The instance and the code are extended to 30 days where a week or less is left of them.
pub proof fn instance_is_extended_to_a_month(e: &mut Env)
    requires
        call_ensures(storage::extend_instance_ttl, (e,), ()),
    ensures
        ledger(*final(e)) == ledger(*old(e)),
        ({
            let before = lifetime(*old(e));
            let after = lifetime(*final(e));
            let max_ttl = ledger(*old(e)).max_ttl;
            &&& after.instance == extended(before.instance, 120960, 518400, max_ttl)
            &&& after.code == extended(before.code, 120960, 518400, max_ttl)
            &&& after.asked == before.asked + 1
            &&& after.found_instance == before.found_instance
            &&& after.found_code == before.found_code
        }),
{
}

/// A user's nonce goes up by one, and lives on; nothing else that is stored changes.
pub proof fn nonce_goes_up_by_one(e: &mut Env, user: Address)
    requires
        call_ensures(storage::increment_nonce, (e, user), ()),
        ledger(*old(e)).nonce(user) < i128::MAX,
    ensures
        ({
            let l = ledger(*old(e));
            let m = ledger(*final(e));
            let key = StorageKey::SwapNonce(user)@;
            let ttl = if l.persistent.contains_key(key) {
                l.ttl[key]
            } else {
                l.fresh_ttl
            };
            &&& m == (Ledger { persistent: m.persistent, ttl: m.ttl, ..l })
            &&& m.persistent == l.persistent.insert(
                key,
                Datum::Amount((l.nonce(user) + 1) as i128),
            )
            &&& m.ttl == l.ttl.insert(key, extended(ttl, 120960, 518400, l.max_ttl))
        }),
{
    let l = ledger(*old(e));
    let key = StorageKey::SwapNonce(user)@;
    assert(l.ttl.insert(key, l.fresh_ttl).insert(
        key,
        extended(l.fresh_ttl, 120960, 518400, l.max_ttl),
    ) =~= l.ttl.insert(key, extended(l.fresh_ttl, 120960, 518400, l.max_ttl)));
}

/// The volume grows by what is added to it, and lives on; nothing else that is stored changes.
pub proof fn volume_grows_by_the_amount(e: &mut Env, amount: i128)
    requires
        call_ensures(storage::add_swap_volume, (e, amount), ()),
        i128::MIN <= ledger(*old(e)).volume() + amount <= i128::MAX,
    ensures
        ({
            let l = ledger(*old(e));
            let m = ledger(*final(e));
            let key = StorageKey::TotalSwapVolume@;
            let ttl = if l.persistent.contains_key(key) {
                l.ttl[key]
            } else {
                l.fresh_ttl
            };
            &&& m == (Ledger { persistent: m.persistent, ttl: m.ttl, ..l })
            &&& m.persistent == l.persistent.insert(key, Datum::Amount((l.volume() + amount) as i128))
            &&& m.ttl == l.ttl.insert(key, extended(ttl, 120960, 518400, l.max_ttl))
        }),
{
    let l = ledger(*old(e));
    let key = StorageKey::TotalSwapVolume@;
    assert(l.ttl.insert(key, l.fresh_ttl).insert(
        key,
        extended(l.fresh_ttl, 120960, 518400, l.max_ttl),
    ) =~= l.ttl.insert(key, extended(l.fresh_ttl, 120960, 518400, l.max_ttl)));
}

/// A token is told to move exactly what was asked for, between the two who were named, and what it
/// answers is what comes back. An address that is no contract is told nothing, and the native asset
/// is left alone.
pub proof fn token_moves_what_it_is_told(
    e: &mut Env,
    asset: &Asset,
    from: &Address,
    to: &Address,
    amount: i128,
    r: Result<(), Abort>,
)
    requires
        call_ensures(storage::transfer_asset, (e, asset, from, to, amount), r),
    ensures
        r is Err ==> r->Err_0 == Abort::Trap,
        *asset is Native ==> r is Ok && *final(e) == *old(e),
        *asset matches Asset::Soroban(token) ==> if is_contract(token) {
            ledger(*final(e)) == (Ledger {
                calls: ledger(*old(e)).calls.push(
                    Call::Transfer { token, from: *from, to: *to, amount, done: r is Ok },
                ),
                ..ledger(*old(e))
            })
        } else {
            r is Err && *final(e) == *old(e)
        },
{
}

// ---- Authorization and the contract's life ----

/// Whoever has authorized the invocation approves of it, except the contract itself.
pub proof fn approval_is_authorization(e: Env, by: Address)
    ensures
        approves(e, by) <==> authorized(e).contains(by) && by != ledger(e).contract,
{
}

/// A contract that only called others has extended nothing: its instance lives no less long than
/// before, and where it called nobody, nothing changed.
pub proof fn calling_extends_nothing(before: Env, after: Env)
    ensures
        only_called(before, after) <==> {
            &&& lifetime(after).instance >= lifetime(before).instance
            &&& lifetime(after).asked == lifetime(before).asked
            &&& ledger(after).calls.len() == ledger(before).calls.len() ==> after == before
            &&& ledger(after).calls.len() != ledger(before).calls.len() ==> {
                &&& lifetime(after).instance == lifetime(after).found_instance
                &&& lifetime(after).code == lifetime(after).found_code
            }
        },
{
}

/// To renew a life is to extend it once, after the last call came back.
pub proof fn renewal_is_one_extension(before: Lifetime, after: Lifetime, max_ttl: u32)
    ensures
        renewed(before, after, max_ttl) <==> {
            &&& after.found_instance >= before.instance
            &&& after.instance == extended(after.found_instance, 120960, 518400, max_ttl)
            &&& after.code == extended(after.found_code, 120960, 518400, max_ttl)
            &&& after.asked == before.asked + 1
        },
{
}

// ---- Fees ----

/// Whether `fee` is the share of `amount` at a rate in ten-thousandths, rounded toward zero.
pub open spec fn is_share(fee: int, amount: int, rate: int) -> bool {
    if amount >= 0 {
        fee * 10000 <= amount * rate < (fee + 1) * 10000
    } else {
        (fee - 1) * 10000 < amount * rate <= fee * 10000
    }
}

/// The fee is the share at the rate, rounded toward zero, of whatever amount: ten thousand times
/// the fee comes up to the product of amount and rate, and falls short of it by less than ten
/// thousand.
pub proof fn fee_is_the_share(amount: int, rate: int)
    requires
        rate >= 0,
    ensures
        amount >= 0 ==> fee_on(amount, rate) * 10000 <= amount * rate < (fee_on(amount, rate) + 1)
            * 10000,
        amount < 0 ==> (fee_on(amount, rate) - 1) * 10000 < amount * rate <= fee_on(amount, rate)
            * 10000,
{
    assert(-amount * rate == -(amount * rate)) by (nonlinear_arith);
}

/// No two numbers are the share of the same amount at the same rate.
pub proof fn share_is_unique(fee: int, other: int, amount: int, rate: int)
    requires
        is_share(fee, amount, rate),
        is_share(other, amount, rate),
    ensures
        fee == other,
{
}

/// Sharing out an amount succeeds where the product of amount and rate can be held; the fee is
/// then the share at the rate, rounded toward zero, and the output is all the rest.
pub proof fn settlement_is_exact(amount: i128, rate: u32, r: Option<Settlement>)
    requires
        call_ensures(settle, (amount, rate), r),
    ensures
        r is Some <==> i128::MIN <= amount * rate <= i128::MAX,
        r matches Some(shares) ==> {
            &&& shares.fee + shares.output == amount
            &&& amount >= 0 ==> shares.fee * 10000 <= amount * rate < (shares.fee + 1) * 10000
            &&& amount < 0 ==> (shares.fee - 1) * 10000 < amount * rate <= shares.fee * 10000
        },
        fee_fits(amount, rate) <==> i128::MIN <= amount * rate <= i128::MAX,
{
    fee_is_the_share(amount as int, rate as int);
}

// ---- Events ----

/// An event says what was put into it, with the hops of a route for the route.
pub proof fn events_say_what_was_put_in(
    who: Address,
    other: Address,
    rate: u32,
    remaining: u64,
    a: i128,
    b: i128,
    c: i128,
    route: Route,
)
    ensures
        ({
            let hops: Seq<Hop> = route.hops@;
            let wrote = Event::SwapExecuted {
                sender: who,
                amount_in: a,
                amount_out: b,
                fee_amount: c,
                route,
            };
            &&& route@ == hops
            &&& Event::<Route>::Initialized { admin: who, fee_rate: rate }@
                == Event::<Seq<Hop>>::Initialized { admin: who, fee_rate: rate }
            &&& Event::<Route>::AdminChanged { old_admin: who, new_admin: other }@
                == Event::<Seq<Hop>>::AdminChanged { old_admin: who, new_admin: other }
            &&& Event::<Route>::PoolRegistered { pool: who }@
                == Event::<Seq<Hop>>::PoolRegistered { pool: who }
            &&& Event::<Route>::Paused@ == Event::<Seq<Hop>>::Paused
            &&& Event::<Route>::Unpaused@ == Event::<Seq<Hop>>::Unpaused
            &&& wrote@ == Event::SwapExecuted {
                sender: who,
                amount_in: a,
                amount_out: b,
                fee_amount: c,
                route: hops,
            }
            &&& Event::<Route>::TtlExtended { pools_extended: rate, ledger: rate }@
                == Event::<Seq<Hop>>::TtlExtended { pools_extended: rate, ledger: rate }
            &&& Event::<Route>::TtlWarning { remaining, threshold: rate }@
                == Event::<Seq<Hop>>::TtlWarning { remaining, threshold: rate }
        }),
{
}

/// A log begins without events, and an event comes behind those that were there.
pub proof fn events_are_kept_in_order(fresh: EventLog, log: &mut EventLog, entry: Event<Route>)
    requires
        call_ensures(EventLog::new, (), fresh),
        call_ensures(EventLog::emit, (log, entry), ()),
    ensures
        forall|any: EventLog, i: int| 0 <= i < any.entries@.len() ==> #[trigger] any@[i]
            == any.entries@[i]@,
        forall|any: EventLog| #[trigger] any@.len() == any.entries@.len(),
        fresh@.len() == 0,
        final(log)@ == old(log)@.push(entry@),
{
}

/// A copy is equal to what it was made of.
pub proof fn copies_are_equal(
    asset: &Asset,
    hop: &Hop,
    route: &Route,
    a: Asset,
    h: Hop,
    r: Route,
)
    requires
        call_ensures(Asset::duplicate, (asset,), a),
        call_ensures(Hop::duplicate, (hop,), h),
        call_ensures(Route::duplicate, (route,), r),
    ensures
        a == *asset,
        h == *hop,
        r.hops@ == route.hops@,
{
}

} // verus!
