//! What the contract keeps on the ledger, and for how long.

use crate::errors::Abort;
use crate::host;
use crate::host::{
    authorized, datum, is_contract, ledger, lifetime, listed, of_addresses, only_called,
};
use crate::ledger::{Call, Datum, Ledger, Mark};
use crate::types::Asset;
use soroban_sdk::{Address, Env, Val};
use vstd::prelude::*;

verus! {

/// The names under which the contract stores its data.
#[derive(Debug)]
pub enum StorageKey {
    Admin,
    FeeRate,
    FeeTo,
    Paused,
    SupportedPool(Address),
    PoolCount,
    SwapNonce(Address),
    // Persistent.
    TotalSwapVolume,
    // Instance: what extensions of TTLs need to know.
    PoolList,
    LastTtlExtension,
    // Temporary: gone by themselves.
    PendingUpgrade,
    Commitment([u8; 32]),
    RateLimit(Address),
}

// ---- TTLs, in ledgers of about five seconds ----

pub const DAY_IN_LEDGERS: u32 = 17_280;

/// Instance storage: extended to 30 days when a week or less is left.
pub const INSTANCE_TTL_EXTEND_TO: u32 = 30 * DAY_IN_LEDGERS;

pub const INSTANCE_TTL_THRESHOLD: u32 = 7 * DAY_IN_LEDGERS;

/// Pools: extended to 90 days when 22 days or less are left.
pub const POOL_TTL_EXTEND_TO: u32 = 90 * DAY_IN_LEDGERS;

pub const POOL_TTL_THRESHOLD: u32 = 22 * DAY_IN_LEDGERS;

/// Swap volume: extended to 30 days when a week or less is left.
pub const VOLUME_TTL_EXTEND_TO: u32 = 30 * DAY_IN_LEDGERS;

pub const VOLUME_TTL_THRESHOLD: u32 = 7 * DAY_IN_LEDGERS;

/// Swap nonces: extended to 30 days when a week or less is left.
pub const NONCE_TTL_EXTEND_TO: u32 = 30 * DAY_IN_LEDGERS;

pub const NONCE_TTL_THRESHOLD: u32 = 7 * DAY_IN_LEDGERS;

/// A pending upgrade lasts about six hours.
pub const PENDING_UPGRADE_TTL: u32 = 6 * 720;

/// A commitment lasts about an hour.
pub const COMMITMENT_TTL: u32 = 720;

/// A rate limit lasts about ten minutes.
pub const RATE_LIMIT_TTL: u32 = 120;

// ---- Keys ----

impl View for StorageKey {
    type V = Datum;

    /// The key's form on the ledger: its name, with what the name is about.
    open spec fn view(&self) -> Datum {
        match *self {
            StorageKey::Admin => Datum::Tag("Admin"@, Mark::Alone),
            StorageKey::FeeRate => Datum::Tag("FeeRate"@, Mark::Alone),
            StorageKey::FeeTo => Datum::Tag("FeeTo"@, Mark::Alone),
            StorageKey::Paused => Datum::Tag("Paused"@, Mark::Alone),
            StorageKey::SupportedPool(pool) => Datum::Tag("SupportedPool"@, Mark::Account(pool)),
            StorageKey::PoolCount => Datum::Tag("PoolCount"@, Mark::Alone),
            StorageKey::SwapNonce(user) => Datum::Tag("SwapNonce"@, Mark::Account(user)),
            StorageKey::TotalSwapVolume => Datum::Tag("TotalSwapVolume"@, Mark::Alone),
            StorageKey::PoolList => Datum::Tag("PoolList"@, Mark::Alone),
            StorageKey::LastTtlExtension => Datum::Tag("LastTtlExtension"@, Mark::Alone),
            StorageKey::PendingUpgrade => Datum::Tag("PendingUpgrade"@, Mark::Alone),
            StorageKey::Commitment(hash) => Datum::Tag("Commitment"@, Mark::Hash(hash)),
            StorageKey::RateLimit(user) => Datum::Tag("RateLimit"@, Mark::Account(user)),
        }
    }
}

/// The names of the keys are symbols, and no two keys are alike.
pub(crate) proof fn reveal_key_names()
    ensures
        forall|a: StorageKey, b: StorageKey| #![trigger a@, b@] a@ == b@ ==> a == b,
        host::is_symbol("Admin"@),
        host::is_symbol("FeeRate"@),
        host::is_symbol("FeeTo"@),
        host::is_symbol("Paused"@),
        host::is_symbol("SupportedPool"@),
        host::is_symbol("PoolCount"@),
        host::is_symbol("SwapNonce"@),
        host::is_symbol("TotalSwapVolume"@),
        host::is_symbol("PoolList"@),
        host::is_symbol("LastTtlExtension"@),
        host::is_symbol("PendingUpgrade"@),
        host::is_symbol("Commitment"@),
        host::is_symbol("RateLimit"@),
{
    reveal_strlit("Admin");
    reveal_strlit("FeeRate");
    reveal_strlit("FeeTo");
    reveal_strlit("Paused");
    reveal_strlit("SupportedPool");
    reveal_strlit("PoolCount");
    reveal_strlit("SwapNonce");
    reveal_strlit("TotalSwapVolume");
    reveal_strlit("PoolList");
    reveal_strlit("LastTtlExtension");
    reveal_strlit("PendingUpgrade");
    reveal_strlit("Commitment");
    reveal_strlit("RateLimit");
    assert("Admin"@[0] != "FeeTo"@[0]);
    assert("PoolCount"@[0] != "SwapNonce"@[0]);
    assert("PoolCount"@[0] != "RateLimit"@[0]);
    assert("SwapNonce"@[0] != "RateLimit"@[0]);
    assert forall|a: StorageKey, b: StorageKey| #![trigger a@, b@] a@ == b@ implies a == b by {
        assert(a@->Tag_0.len() == b@->Tag_0.len());
    }
}

/// No two keys are stored under the same name.
pub proof fn keys_are_distinct(a: StorageKey, b: StorageKey)
    ensures
        a@ == b@ <==> a == b,
{
    reveal_key_names();
}

impl StorageKey {
    /// The host's value for the key.
    fn to_val(&self, e: &Env) -> (v: Val)
        ensures
            datum(v) == self@,
    {
        proof {
            reveal_key_names();
        }
        match self {
            StorageKey::Admin => host::tag(e, "Admin"),
            StorageKey::FeeRate => host::tag(e, "FeeRate"),
            StorageKey::FeeTo => host::tag(e, "FeeTo"),
            StorageKey::Paused => host::tag(e, "Paused"),
            StorageKey::SupportedPool(pool) => host::tag_account(e, "SupportedPool", pool),
            StorageKey::PoolCount => host::tag(e, "PoolCount"),
            StorageKey::SwapNonce(user) => host::tag_account(e, "SwapNonce", user),
            StorageKey::TotalSwapVolume => host::tag(e, "TotalSwapVolume"),
            StorageKey::PoolList => host::tag(e, "PoolList"),
            StorageKey::LastTtlExtension => host::tag(e, "LastTtlExtension"),
            StorageKey::PendingUpgrade => host::tag(e, "PendingUpgrade"),
            StorageKey::Commitment(hash) => host::tag_hash(e, "Commitment", hash),
            StorageKey::RateLimit(user) => host::tag_account(e, "RateLimit", user),
        }
    }

    /// Whether a value is of the kind that is stored under this key.
    pub open spec fn holds(self, value: Datum) -> bool {
        match self {
            StorageKey::Admin | StorageKey::FeeTo => value is Account,
            StorageKey::FeeRate | StorageKey::PoolCount | StorageKey::LastTtlExtension =>
                value is Count,
            StorageKey::Paused | StorageKey::SupportedPool(_) => value is Flag,
            StorageKey::SwapNonce(_) | StorageKey::TotalSwapVolume => value is Amount,
            StorageKey::PoolList => value is Accounts,
            _ => true,
        }
    }
}

// ---- What the ledger says ----

impl Ledger {
    /// The contract can run on this ledger: the host serves it, and under each of its keys is a
    /// value of the kind that belongs there.
    pub open spec fn wf(self) -> bool {
        &&& self.ready()
        &&& forall|k: StorageKey| #![trigger k@]
            self.instance.contains_key(k@) ==> k.holds(self.instance[k@])
        &&& forall|k: StorageKey| #![trigger k@]
            self.persistent.contains_key(k@) ==> k.holds(self.persistent[k@])
    }

    pub open spec fn initialized(self) -> bool {
        self.instance.contains_key(StorageKey::Admin@)
    }

    pub open spec fn admin(self) -> Address {
        self.instance[StorageKey::Admin@]->Account_0
    }

    pub open spec fn fee_rate(self) -> u32 {
        if self.instance.contains_key(StorageKey::FeeRate@) {
            self.instance[StorageKey::FeeRate@]->Count_0
        } else {
            0
        }
    }

    pub open spec fn fee_to(self) -> Option<Address> {
        if self.instance.contains_key(StorageKey::FeeTo@) {
            Some(self.instance[StorageKey::FeeTo@]->Account_0)
        } else {
            None
        }
    }

    pub open spec fn paused(self) -> bool {
        self.instance.contains_key(StorageKey::Paused@)
            && self.instance[StorageKey::Paused@]->Flag_0
    }

    pub open spec fn pool_count(self) -> u32 {
        if self.instance.contains_key(StorageKey::PoolCount@) {
            self.instance[StorageKey::PoolCount@]->Count_0
        } else {
            0
        }
    }

    pub open spec fn pool_list(self) -> Seq<Address> {
        if self.instance.contains_key(StorageKey::PoolList@) {
            self.instance[StorageKey::PoolList@]->Accounts_0
        } else {
            Seq::empty()
        }
    }

    pub open spec fn last_ttl_extension(self) -> u32 {
        if self.instance.contains_key(StorageKey::LastTtlExtension@) {
            self.instance[StorageKey::LastTtlExtension@]->Count_0
        } else {
            0
        }
    }

    pub open spec fn supports(self, pool: Address) -> bool {
        self.persistent.contains_key(StorageKey::SupportedPool(pool)@)
    }

    pub open spec fn nonce(self, user: Address) -> i128 {
        if self.persistent.contains_key(StorageKey::SwapNonce(user)@) {
            self.persistent[StorageKey::SwapNonce(user)@]->Amount_0
        } else {
            0
        }
    }

    pub open spec fn volume(self) -> i128 {
        if self.persistent.contains_key(StorageKey::TotalSwapVolume@) {
            self.persistent[StorageKey::TotalSwapVolume@]->Amount_0
        } else {
            0
        }
    }

    /// The ledger after `key` was extended, where it is there to be extended.
    pub open spec fn refresh(self, key: StorageKey, threshold: u32, extend_to: u32) -> Ledger {
        if self.persistent.contains_key(key@) {
            self.extend(key@, threshold, extend_to)
        } else {
            self
        }
    }

    pub open spec fn refresh_pool(self, pool: Address) -> Ledger {
        self.refresh(StorageKey::SupportedPool(pool), POOL_TTL_THRESHOLD, POOL_TTL_EXTEND_TO)
    }

    pub open spec fn refresh_volume(self) -> Ledger {
        self.refresh(StorageKey::TotalSwapVolume, VOLUME_TTL_THRESHOLD, VOLUME_TTL_EXTEND_TO)
    }

    pub open spec fn refresh_nonce(self, user: Address) -> Ledger {
        self.refresh(StorageKey::SwapNonce(user), NONCE_TTL_THRESHOLD, NONCE_TTL_EXTEND_TO)
    }

    /// The ledger after the user's nonce went up by one.
    pub open spec fn bump_nonce(self, user: Address) -> Ledger {
        self.put_persistent(
            StorageKey::SwapNonce(user)@,
            Datum::Amount((self.nonce(user) + 1) as i128),
        ).refresh_nonce(user)
    }

    /// The ledger after `amount` was added to the volume.
    pub open spec fn add_volume(self, amount: i128) -> Ledger {
        self.put_persistent(
            StorageKey::TotalSwapVolume@,
            Datum::Amount((self.volume() + amount) as i128),
        ).refresh_volume()
    }

    /// The ledger after `asset` was to move, and whether it moved. Only tokens are moved by the
    /// contract; `done` is what the token answered.
    pub open spec fn transfer(
        self,
        asset: Asset,
        from: Address,
        to: Address,
        amount: i128,
        done: bool,
    ) -> (Ledger, bool) {
        match asset {
            Asset::Soroban(token) => if is_contract(token) {
                (self.call(Call::Transfer { token, from, to, amount, done }), done)
            } else {
                (self, false)
            },
            Asset::Native => (self, true),
        }
    }
}

/// Storing a value of the right kind under a key keeps the storage in order.
pub proof fn storing_keeps_wf(l: Ledger, key: StorageKey, value: Datum)
    requires
        l.wf(),
        key.holds(value),
    ensures
        l.put_instance(key@, value).wf(),
        l.put_persistent(key@, value).wf(),
{
    reveal_key_names();
}

/// Counting a user's swap changes neither the volume nor the instance storage.
pub(crate) proof fn nonce_is_apart(l: Ledger, user: Address)
    requires
        l.wf(),
    ensures
        l.bump_nonce(user).volume() == l.volume(),
        l.bump_nonce(user).instance == l.instance,
{
    reveal_key_names();
}

// ---- Extending TTLs ----

/// Extends the TTL of the instance. To be called after any write to it.
pub fn extend_instance_ttl(e: &mut Env)
    requires
        ledger(*old(e)).ready(),
    ensures
        lifetime(*final(e)) == lifetime(*old(e)).extended(
            INSTANCE_TTL_THRESHOLD,
            INSTANCE_TTL_EXTEND_TO,
            ledger(*old(e)).max_ttl,
        ),
        ledger(*final(e)) == ledger(*old(e)),
        authorized(*final(e)) == authorized(*old(e)),
{
    host::instance_extend_ttl(e, INSTANCE_TTL_THRESHOLD, INSTANCE_TTL_EXTEND_TO);
}

/// Extends the TTL of an entry of the persistent storage, if the entry is there.
pub fn extend_persistent_ttl(e: &mut Env, key: &StorageKey, threshold: u32, extend_to: u32)
    requires
        ledger(*old(e)).ready(),
        ledger(*old(e)).persistent.contains_key(key@) ==> threshold <= extend_to,
    ensures
        ledger(*final(e)) == ledger(*old(e)).refresh(*key, threshold, extend_to),
        lifetime(*final(e)) == lifetime(*old(e)),
        authorized(*final(e)) == authorized(*old(e)),
{
    let k = key.to_val(e);
    if host::persistent_has(e, &k) {
        host::persistent_extend_ttl(e, &k, threshold, extend_to);
    }
}

/// Extends the TTL of a pool.
pub fn extend_pool_ttl(e: &mut Env, pool: &Address)
    requires
        ledger(*old(e)).ready(),
    ensures
        ledger(*final(e)) == ledger(*old(e)).refresh_pool(*pool),
        lifetime(*final(e)) == lifetime(*old(e)),
        authorized(*final(e)) == authorized(*old(e)),
{
    let key = StorageKey::SupportedPool(pool.clone());
    extend_persistent_ttl(e, &key, POOL_TTL_THRESHOLD, POOL_TTL_EXTEND_TO);
}

/// Extends the TTL of a user's nonce.
pub fn extend_nonce_ttl(e: &mut Env, address: &Address)
    requires
        ledger(*old(e)).ready(),
    ensures
        ledger(*final(e)) == ledger(*old(e)).refresh_nonce(*address),
        lifetime(*final(e)) == lifetime(*old(e)),
        authorized(*final(e)) == authorized(*old(e)),
{
    let key = StorageKey::SwapNonce(address.clone());
    extend_persistent_ttl(e, &key, NONCE_TTL_THRESHOLD, NONCE_TTL_EXTEND_TO);
}

/// Extends the TTL of the swap volume.
pub fn extend_volume_ttl(e: &mut Env)
    requires
        ledger(*old(e)).ready(),
    ensures
        ledger(*final(e)) == ledger(*old(e)).refresh_volume(),
        lifetime(*final(e)) == lifetime(*old(e)),
        authorized(*final(e)) == authorized(*old(e)),
{
    extend_persistent_ttl(
        e,
        &StorageKey::TotalSwapVolume,
        VOLUME_TTL_THRESHOLD,
        VOLUME_TTL_EXTEND_TO,
    );
}

// ---- Instance storage ----

/// The administrator.
pub fn get_admin(e: &Env) -> (admin: Address)
    requires
        ledger(*e).wf(),
        ledger(*e).initialized(),
    ensures
        admin == ledger(*e).admin(),
{
    let key = StorageKey::Admin.to_val(e);
    let value = host::instance_get(e, &key).unwrap();
    host::to_account(e, &value)
}

pub fn set_admin(e: &mut Env, admin: &Address)
    requires
        ledger(*old(e)).ready(),
    ensures
        ledger(*final(e)) == ledger(*old(e)).put_instance(
            StorageKey::Admin@,
            Datum::Account(*admin),
        ),
        ledger(*old(e)).wf() ==> ledger(*final(e)).wf(),
        lifetime(*final(e)) == lifetime(*old(e)),
        authorized(*final(e)) == authorized(*old(e)),
{
    let key = StorageKey::Admin.to_val(e);
    let value = host::account_val(e, admin);
    host::instance_set(e, &key, &value);
    proof {
        reveal_key_names();
    }
}

/// The fee, in hundredths of a percent.
pub fn get_fee_rate(e: &Env) -> (rate: u32)
    requires
        ledger(*e).wf(),
    ensures
        rate == ledger(*e).fee_rate(),
{
    let key = StorageKey::FeeRate.to_val(e);
    match host::instance_get(e, &key) {
        Some(value) => host::to_count(e, &value),
        None => 0,
    }
}

pub fn set_fee_rate(e: &mut Env, rate: u32)
    requires
        ledger(*old(e)).ready(),
    ensures
        ledger(*final(e)) == ledger(*old(e)).put_instance(
            StorageKey::FeeRate@,
            Datum::Count(rate),
        ),
        ledger(*old(e)).wf() ==> ledger(*final(e)).wf(),
        lifetime(*final(e)) == lifetime(*old(e)),
        authorized(*final(e)) == authorized(*old(e)),
{
    let key = StorageKey::FeeRate.to_val(e);
    let value = host::count_val(e, rate);
    host::instance_set(e, &key, &value);
    proof {
        reveal_key_names();
    }
}

/// Who receives the fees.
pub fn get_fee_to(e: &Env) -> (fee_to: Address)
    requires
        ledger(*e).wf(),
        ledger(*e).fee_to() is Some,
    ensures
        ledger(*e).fee_to() == Some(fee_to),
{
    get_fee_to_optional(e).unwrap()
}

/// Who receives the fees, if anyone was named.
pub fn get_fee_to_optional(e: &Env) -> (fee_to: Option<Address>)
    requires
        ledger(*e).wf(),
    ensures
        fee_to == ledger(*e).fee_to(),
{
    let key = StorageKey::FeeTo.to_val(e);
    match host::instance_get(e, &key) {
        Some(value) => Some(host::to_account(e, &value)),
        None => None,
    }
}

/// Names who receives the fees.
pub(crate) fn set_fee_to(e: &mut Env, fee_to: &Address)
    requires
        ledger(*old(e)).ready(),
    ensures
        ledger(*final(e)) == ledger(*old(e)).put_instance(
            StorageKey::FeeTo@,
            Datum::Account(*fee_to),
        ),
        ledger(*old(e)).wf() ==> ledger(*final(e)).wf(),
        lifetime(*final(e)) == lifetime(*old(e)),
        authorized(*final(e)) == authorized(*old(e)),
{
    let key = StorageKey::FeeTo.to_val(e);
    let value = host::account_val(e, fee_to);
    host::instance_set(e, &key, &value);
    proof {
        reveal_key_names();
    }
}

/// How many pools were registered.
pub fn get_pool_count(e: &Env) -> (count: u32)
    requires
        ledger(*e).wf(),
    ensures
        count == ledger(*e).pool_count(),
{
    let key = StorageKey::PoolCount.to_val(e);
    match host::instance_get(e, &key) {
        Some(value) => host::to_count(e, &value),
        None => 0,
    }
}

pub fn set_pool_count(e: &mut Env, count: u32)
    requires
        ledger(*old(e)).ready(),
    ensures
        ledger(*final(e)) == ledger(*old(e)).put_instance(
            StorageKey::PoolCount@,
            Datum::Count(count),
        ),
        ledger(*old(e)).wf() ==> ledger(*final(e)).wf(),
        lifetime(*final(e)) == lifetime(*old(e)),
        authorized(*final(e)) == authorized(*old(e)),
{
    let key = StorageKey::PoolCount.to_val(e);
    let value = host::count_val(e, count);
    host::instance_set(e, &key, &value);
    proof {
        reveal_key_names();
    }
}

/// Whether swaps are suspended.
pub fn get_paused(e: &Env) -> (paused: bool)
    requires
        ledger(*e).wf(),
    ensures
        paused == ledger(*e).paused(),
{
    let key = StorageKey::Paused.to_val(e);
    match host::instance_get(e, &key) {
        Some(value) => host::to_flag(e, &value),
        None => false,
    }
}

/// Suspends swaps, or lets them run again.
pub(crate) fn set_paused(e: &mut Env, paused: bool)
    requires
        ledger(*old(e)).ready(),
    ensures
        ledger(*final(e)) == ledger(*old(e)).put_instance(
            StorageKey::Paused@,
            Datum::Flag(paused),
        ),
        ledger(*old(e)).wf() ==> ledger(*final(e)).wf(),
        lifetime(*final(e)) == lifetime(*old(e)),
        authorized(*final(e)) == authorized(*old(e)),
{
    let key = StorageKey::Paused.to_val(e);
    let value = host::flag_val(e, paused);
    host::instance_set(e, &key, &value);
    proof {
        reveal_key_names();
    }
}

/// Whether the contract has an administrator.
pub fn is_initialized(e: &Env) -> (r: bool)
    requires
        ledger(*e).ready(),
    ensures
        r == ledger(*e).initialized(),
{
    let key = StorageKey::Admin.to_val(e);
    host::instance_has(e, &key)
}

/// The registered pools, oldest first.
pub fn get_pool_list(e: &Env) -> (list: soroban_sdk::Vec<Address>)
    requires
        ledger(*e).wf(),
    ensures
        listed(list) == ledger(*e).pool_list(),
        of_addresses(list),
{
    let key = StorageKey::PoolList.to_val(e);
    match host::instance_get(e, &key) {
        Some(value) => host::to_accounts(e, &value),
        None => host::list_new(e),
    }
}

/// Adds a pool to the end of the list.
pub fn add_to_pool_list(e: &mut Env, pool: &Address)
    requires
        ledger(*old(e)).wf(),
        ledger(*old(e)).pool_list().len() < u32::MAX,
    ensures
        ledger(*final(e)) == ledger(*old(e)).put_instance(
            StorageKey::PoolList@,
            Datum::Accounts(ledger(*old(e)).pool_list().push(*pool)),
        ),
        ledger(*final(e)).wf(),
        lifetime(*final(e)) == lifetime(*old(e)),
        authorized(*final(e)) == authorized(*old(e)),
{
    let mut list = get_pool_list(e);
    host::list_push_back(&mut list, pool.clone());
    let key = StorageKey::PoolList.to_val(e);
    let value = host::accounts_val(e, &list);
    host::instance_set(e, &key, &value);
    proof {
        reveal_key_names();
    }
}

/// The ledger at which the TTLs were last extended; zero if they never were.
pub fn get_last_ttl_extension(e: &Env) -> (sequence: u32)
    requires
        ledger(*e).wf(),
    ensures
        sequence == ledger(*e).last_ttl_extension(),
{
    let key = StorageKey::LastTtlExtension.to_val(e);
    match host::instance_get(e, &key) {
        Some(value) => host::to_count(e, &value),
        None => 0,
    }
}

pub fn set_last_ttl_extension(e: &mut Env, sequence: u32)
    requires
        ledger(*old(e)).ready(),
    ensures
        ledger(*final(e)) == ledger(*old(e)).put_instance(
            StorageKey::LastTtlExtension@,
            Datum::Count(sequence),
        ),
        ledger(*old(e)).wf() ==> ledger(*final(e)).wf(),
        lifetime(*final(e)) == lifetime(*old(e)),
        authorized(*final(e)) == authorized(*old(e)),
{
    let key = StorageKey::LastTtlExtension.to_val(e);
    let value = host::count_val(e, sequence);
    host::instance_set(e, &key, &value);
    proof {
        reveal_key_names();
    }
}

// ---- Persistent storage ----

/// Whether a pool was registered.
pub fn is_supported_pool(e: &Env, pool: Address) -> (r: bool)
    requires
        ledger(*e).ready(),
    ensures
        r == ledger(*e).supports(pool),
{
    let key = StorageKey::SupportedPool(pool).to_val(e);
    host::persistent_has(e, &key)
}

/// Marks a pool as registered.
pub(crate) fn support_pool(e: &mut Env, pool: &Address)
    requires
        ledger(*old(e)).ready(),
    ensures
        ledger(*final(e)) == ledger(*old(e)).put_persistent(
            StorageKey::SupportedPool(*pool)@,
            Datum::Flag(true),
        ),
        ledger(*old(e)).wf() ==> ledger(*final(e)).wf(),
        lifetime(*final(e)) == lifetime(*old(e)),
        authorized(*final(e)) == authorized(*old(e)),
{
    let key = StorageKey::SupportedPool(pool.clone()).to_val(e);
    let value = host::flag_val(e, true);
    host::persistent_set(e, &key, &value);
    proof {
        reveal_key_names();
    }
}

/// How many swaps a user has made.
pub fn get_nonce(e: &Env, address: Address) -> (nonce: i128)
    requires
        ledger(*e).wf(),
    ensures
        nonce == ledger(*e).nonce(address),
{
    let ghost key_of = StorageKey::SwapNonce(address);
    let key = StorageKey::SwapNonce(address).to_val(e);
    match host::persistent_get(e, &key) {
        Some(value) => {
            assert(key_of.holds(ledger(*e).persistent[key_of@]));
            host::to_amount(e, &value)
        },
        None => 0,
    }
}

/// Counts a swap of a user.
pub fn increment_nonce(e: &mut Env, address: Address)
    requires
        ledger(*old(e)).wf(),
        ledger(*old(e)).nonce(address) < i128::MAX,
    ensures
        ledger(*final(e)) == ledger(*old(e)).bump_nonce(address),
        ledger(*final(e)).wf(),
        lifetime(*final(e)) == lifetime(*old(e)),
        authorized(*final(e)) == authorized(*old(e)),
{
    let key = StorageKey::SwapNonce(address.clone()).to_val(e);
    let current: i128 = get_nonce(e, address.clone());
    let value = host::amount_val(e, current + 1);
    host::persistent_set(e, &key, &value);
    extend_nonce_ttl(e, &address);
    proof {
        reveal_key_names();
    }
}

/// The sum of what went into all swaps.
pub fn get_total_swap_volume(e: &Env) -> (volume: i128)
    requires
        ledger(*e).wf(),
    ensures
        volume == ledger(*e).volume(),
{
    let key = StorageKey::TotalSwapVolume.to_val(e);
    match host::persistent_get(e, &key) {
        Some(value) => host::to_amount(e, &value),
        None => 0,
    }
}

/// Adds what went into a swap to the sum.
pub fn add_swap_volume(e: &mut Env, amount: i128)
    requires
        ledger(*old(e)).wf(),
        i128::MIN <= ledger(*old(e)).volume() + amount <= i128::MAX,
    ensures
        ledger(*final(e)) == ledger(*old(e)).add_volume(amount),
        ledger(*final(e)).wf(),
        lifetime(*final(e)) == lifetime(*old(e)),
        authorized(*final(e)) == authorized(*old(e)),
{
    let current: i128 = get_total_swap_volume(e);
    let key = StorageKey::TotalSwapVolume.to_val(e);
    let value = host::amount_val(e, current + amount);
    host::persistent_set(e, &key, &value);
    extend_volume_ttl(e);
    proof {
        reveal_key_names();
    }
}

// ---- Tokens ----

/// Whether an address is that of a contract.
pub(crate) fn is_contract_address(a: &Address) -> (r: bool)
    ensures
        r == is_contract(*a),
{
    let text = host::address_strkey(a);
    text.len() > 0 && text[0] == 0x43u8
}

/// Moves an asset. Only tokens are moved here: the native asset takes care of itself. The
/// invocation cannot go on where the token refuses, or is no contract.
pub fn transfer_asset(e: &mut Env, asset: &Asset, from: &Address, to: &Address, amount: i128) -> (r:
    Result<(), Abort>)
    requires
        ledger(*old(e)).ready(),
    ensures
        (ledger(*final(e)), r is Ok) == ledger(*old(e)).transfer(
            *asset,
            *from,
            *to,
            amount,
            r is Ok,
        ),
        r is Err ==> r->Err_0 == Abort::Trap,
        only_called(*old(e), *final(e)),
{
    match asset {
        Asset::Soroban(token) => {
            if is_contract_address(token) && host::try_transfer(e, token, from, to, amount) {
                Ok(())
            } else {
                Err(Abort::Trap)
            }
        },
        Asset::Native => Ok(()),
    }
}

} // verus!
