use soroban_sdk::testutils::storage::{Instance as _, Persistent as _};
use soroban_sdk::testutils::{Address as _, ContractFunctionSet, EnvTestConfig, Ledger as _};
use soroban_sdk::{Address, BytesN, Env, IntoVal, Symbol, Val};
use stellar_route::errors::Abort;
use stellar_route::storage;
use stellar_route::storage::StorageKey;
use stellar_route::types::Asset;

struct Blank;

impl ContractFunctionSet for Blank {
    fn call(&self, _func: &str, _env: Env, _args: &[Val]) -> Option<Val> {
        None
    }
}

fn new_env() -> Env {
    let env = Env::new_with_config(EnvTestConfig { capture_snapshot_at_drop: false });
    env.ledger().with_mut(|li| {
        li.sequence_number = 1_000;
        li.min_persistent_entry_ttl = 4_096;
        li.max_entry_ttl = 6_312_000;
    });
    env
}

fn run<T>(env: &Env, contract: &Address, f: impl FnOnce(&mut Env) -> T) -> T {
    let mut e = env.clone();
    env.as_contract(contract, || f(&mut e))
}

#[test]
fn settings_have_their_defaults() {
    let env = new_env();
    let id = env.register(Blank, ());
    let someone = Address::generate(&env);
    run(&env, &id, |e| {
        assert!(!storage::is_initialized(e));
        assert_eq!(storage::get_fee_rate(e), 0);
        assert_eq!(storage::get_fee_to_optional(e), None);
        assert_eq!(storage::get_pool_count(e), 0);
        assert!(!storage::get_paused(e));
        assert_eq!(storage::get_pool_list(e).len(), 0);
        assert_eq!(storage::get_last_ttl_extension(e), 0);
        assert!(!storage::is_supported_pool(e, someone.clone()));
        assert_eq!(storage::get_nonce(e, someone.clone()), 0);
        assert_eq!(storage::get_total_swap_volume(e), 0);
    });
}

#[test]
fn settings_are_read_back() {
    let env = new_env();
    let id = env.register(Blank, ());
    let admin = Address::generate(&env);
    run(&env, &id, |e| {
        storage::set_admin(e, &admin);
        storage::set_fee_rate(e, 37);
        storage::set_pool_count(e, 5);
        storage::set_last_ttl_extension(e, 99);
        assert!(storage::is_initialized(e));
        assert_eq!(storage::get_admin(e), admin);
        assert_eq!(storage::get_fee_rate(e), 37);
        assert_eq!(storage::get_pool_count(e), 5);
        assert_eq!(storage::get_last_ttl_extension(e), 99);
        assert_eq!(storage::get_fee_to_optional(e), None);
        assert!(!storage::get_paused(e));
    });
}

#[test]
fn keys_have_the_form_of_enum_variants() {
    let env = new_env();
    let id = env.register(Blank, ());
    let admin = Address::generate(&env);
    run(&env, &id, |e| {
        storage::set_admin(e, &admin);
        storage::increment_nonce(e, admin.clone());
        let stored: Option<Address> = e.storage().instance().get(&(Symbol::new(e, "Admin"),));
        assert_eq!(stored, Some(admin.clone()));
        let key = (Symbol::new(e, "SwapNonce"), admin.clone());
        let nonce: Option<i128> = e.storage().persistent().get(&key);
        assert_eq!(nonce, Some(1));
    });
}

#[test]
fn every_key_names_its_own_entry() {
    let env = new_env();
    let id = env.register(Blank, ());
    let a = Address::generate(&env);
    run(&env, &id, |e| {
        let names = [
            "Admin",
            "FeeRate",
            "FeeTo",
            "Paused",
            "PoolCount",
            "TotalSwapVolume",
            "PoolList",
            "LastTtlExtension",
            "PendingUpgrade",
        ];
        for name in names {
            e.storage().persistent().set(&(Symbol::new(e, name),), &1u32);
        }
        for name in ["SupportedPool", "SwapNonce", "RateLimit"] {
            e.storage().persistent().set(&(Symbol::new(e, name), a.clone()), &1u32);
        }
        let hash = BytesN::from_array(e, &[7u8; 32]);
        e.storage().persistent().set(&(Symbol::new(e, "Commitment"), hash.clone()), &1u32);

        let keys = [
            StorageKey::Admin,
            StorageKey::FeeRate,
            StorageKey::FeeTo,
            StorageKey::Paused,
            StorageKey::SupportedPool(a.clone()),
            StorageKey::PoolCount,
            StorageKey::SwapNonce(a.clone()),
            StorageKey::TotalSwapVolume,
            StorageKey::PoolList,
            StorageKey::LastTtlExtension,
            StorageKey::PendingUpgrade,
            StorageKey::Commitment([7u8; 32]),
            StorageKey::RateLimit(a.clone()),
        ];
        let mut goal: u32 = 10_000;
        for key in keys.iter() {
            storage::extend_persistent_ttl(e, key, goal, goal);
            goal += 1;
        }
        let ttl = |key: Val| e.storage().persistent().get_ttl(&key);
        assert_eq!(ttl((Symbol::new(e, "Admin"),).into_val(e)), 10_000);
        assert_eq!(ttl((Symbol::new(e, "FeeRate"),).into_val(e)), 10_001);
        assert_eq!(ttl((Symbol::new(e, "FeeTo"),).into_val(e)), 10_002);
        assert_eq!(ttl((Symbol::new(e, "Paused"),).into_val(e)), 10_003);
        assert_eq!(ttl((Symbol::new(e, "SupportedPool"), a.clone()).into_val(e)), 10_004);
        assert_eq!(ttl((Symbol::new(e, "PoolCount"),).into_val(e)), 10_005);
        assert_eq!(ttl((Symbol::new(e, "SwapNonce"), a.clone()).into_val(e)), 10_006);
        assert_eq!(ttl((Symbol::new(e, "TotalSwapVolume"),).into_val(e)), 10_007);
        assert_eq!(ttl((Symbol::new(e, "PoolList"),).into_val(e)), 10_008);
        assert_eq!(ttl((Symbol::new(e, "LastTtlExtension"),).into_val(e)), 10_009);
        assert_eq!(ttl((Symbol::new(e, "PendingUpgrade"),).into_val(e)), 10_010);
        assert_eq!(ttl((Symbol::new(e, "Commitment"), hash).into_val(e)), 10_011);
        assert_eq!(ttl((Symbol::new(e, "RateLimit"), a.clone()).into_val(e)), 10_012);
    });
}

#[test]
fn pool_list_keeps_its_order() {
    let env = new_env();
    let id = env.register(Blank, ());
    let a = Address::generate(&env);
    let b = Address::generate(&env);
    run(&env, &id, |e| {
        storage::add_to_pool_list(e, &a);
        storage::add_to_pool_list(e, &b);
        storage::add_to_pool_list(e, &a);
        let list = storage::get_pool_list(e);
        assert_eq!(list.len(), 3);
        assert_eq!(list.get(0), Some(a.clone()));
        assert_eq!(list.get(1), Some(b.clone()));
        assert_eq!(list.get(2), Some(a.clone()));
    });
}

#[test]
fn nonces_are_counted_per_user() {
    let env = new_env();
    let id = env.register(Blank, ());
    let a = Address::generate(&env);
    let b = Address::generate(&env);
    run(&env, &id, |e| {
        storage::increment_nonce(e, a.clone());
        storage::increment_nonce(e, a.clone());
        storage::increment_nonce(e, b.clone());
        assert_eq!(storage::get_nonce(e, a.clone()), 2);
        assert_eq!(storage::get_nonce(e, b.clone()), 1);
    });
}

#[test]
fn volume_is_a_sum() {
    let env = new_env();
    let id = env.register(Blank, ());
    run(&env, &id, |e| {
        storage::add_swap_volume(e, 100);
        storage::add_swap_volume(e, -30);
        assert_eq!(storage::get_total_swap_volume(e), 70);
    });
}

#[test]
fn new_entries_are_extended_at_once() {
    let env = new_env();
    let id = env.register(Blank, ());
    let a = Address::generate(&env);
    run(&env, &id, |e| {
        storage::increment_nonce(e, a.clone());
        storage::add_swap_volume(e, 1);
        let nonce = (Symbol::new(e, "SwapNonce"), a.clone());
        let volume = (Symbol::new(e, "TotalSwapVolume"),);
        assert_eq!(e.storage().persistent().get_ttl(&nonce), storage::NONCE_TTL_EXTEND_TO);
        assert_eq!(e.storage().persistent().get_ttl(&volume), storage::VOLUME_TTL_EXTEND_TO);
    });
}

#[test]
fn missing_entries_are_not_extended() {
    let env = new_env();
    let id = env.register(Blank, ());
    let a = Address::generate(&env);
    run(&env, &id, |e| {
        storage::extend_pool_ttl(e, &a);
        storage::extend_nonce_ttl(e, &a);
        storage::extend_volume_ttl(e);
        assert!(!storage::is_supported_pool(e, a.clone()));
        assert_eq!(e.storage().persistent().all().len(), 0);
    });
}

#[test]
fn entries_are_extended_only_at_the_threshold() {
    let env = new_env();
    let id = env.register(Blank, ());
    let a = Address::generate(&env);
    let key = (Symbol::new(&env, "SupportedPool"), a.clone());
    let ttl = |env: &Env| run(env, &id, |e| e.storage().persistent().get_ttl(&key));
    run(&env, &id, |e| {
        e.storage().persistent().set(&key, &true);
        assert_eq!(e.storage().persistent().get_ttl(&key), 4_095);
        storage::extend_pool_ttl(e, &a);
        assert_eq!(e.storage().persistent().get_ttl(&key), storage::POOL_TTL_EXTEND_TO);
        storage::extend_instance_ttl(e);
    });
    let wait = storage::POOL_TTL_EXTEND_TO - storage::POOL_TTL_THRESHOLD - 1;
    run(&env, &id, |e| e.storage().instance().extend_ttl(6_000_000, 6_000_000));
    env.ledger().with_mut(|li| li.sequence_number += wait);
    run(&env, &id, |e| storage::extend_pool_ttl(e, &a));
    assert_eq!(ttl(&env), storage::POOL_TTL_THRESHOLD + 1);
    env.ledger().with_mut(|li| li.sequence_number += 1);
    assert_eq!(ttl(&env), storage::POOL_TTL_THRESHOLD);
    run(&env, &id, |e| storage::extend_pool_ttl(e, &a));
    assert_eq!(ttl(&env), storage::POOL_TTL_EXTEND_TO);
}

#[test]
fn extensions_stop_at_the_network_limit() {
    let env = new_env();
    env.ledger().with_mut(|li| li.max_entry_ttl = 50_001);
    let id = env.register(Blank, ());
    let a = Address::generate(&env);
    run(&env, &id, |e| {
        storage::increment_nonce(e, a.clone());
        let nonce = (Symbol::new(e, "SwapNonce"), a.clone());
        assert_eq!(e.storage().persistent().get_ttl(&nonce), 50_000);
        storage::extend_instance_ttl(e);
        assert_eq!(e.storage().instance().get_ttl(), 50_000);
    });
}

#[test]
fn instance_is_extended_to_a_month() {
    let env = new_env();
    let id = env.register(Blank, ());
    run(&env, &id, |e| {
        storage::extend_instance_ttl(e);
        assert_eq!(e.storage().instance().get_ttl(), storage::INSTANCE_TTL_EXTEND_TO);
    });
}

#[test]
fn ttl_constants_are_days_of_ledgers() {
    assert_eq!(storage::DAY_IN_LEDGERS, 17_280);
    assert_eq!(storage::INSTANCE_TTL_EXTEND_TO, 518_400);
    assert_eq!(storage::INSTANCE_TTL_THRESHOLD, 120_960);
    assert_eq!(storage::POOL_TTL_EXTEND_TO, 1_555_200);
    assert_eq!(storage::POOL_TTL_THRESHOLD, 380_160);
    assert_eq!(storage::VOLUME_TTL_EXTEND_TO, 518_400);
    assert_eq!(storage::VOLUME_TTL_THRESHOLD, 120_960);
    assert_eq!(storage::NONCE_TTL_EXTEND_TO, 518_400);
    assert_eq!(storage::NONCE_TTL_THRESHOLD, 120_960);
    assert_eq!(storage::PENDING_UPGRADE_TTL, 4_320);
    assert_eq!(storage::COMMITMENT_TTL, 720);
    assert_eq!(storage::RATE_LIMIT_TTL, 120);
}

#[test]
fn native_asset_is_not_moved() {
    let env = new_env();
    let id = env.register(Blank, ());
    let a = Address::generate(&env);
    let b = Address::generate(&env);
    run(&env, &id, |e| {
        assert_eq!(storage::transfer_asset(e, &Asset::Native, &a, &b, 10), Ok(()));
    });
}

#[test]
fn tokens_are_moved_by_their_contract() {
    let env = new_env();
    env.mock_all_auths();
    let id = env.register(Blank, ());
    let issuer = Address::generate(&env);
    let token = env.register_stellar_asset_contract_v2(issuer).address();
    soroban_sdk::token::StellarAssetClient::new(&env, &token).mint(&id, &100);
    let b = Address::generate(&env);
    let asset = Asset::Soroban(token.clone());
    run(&env, &id, |e| {
        assert_eq!(storage::transfer_asset(e, &asset, &id, &b, 40), Ok(()));
        assert_eq!(storage::transfer_asset(e, &asset, &id, &b, 61), Err(Abort::Trap));
    });
    let client = soroban_sdk::token::Client::new(&env, &token);
    assert_eq!(client.balance(&id), 60);
    assert_eq!(client.balance(&b), 40);
}

#[test]
fn an_account_is_no_token() {
    let env = new_env();
    let id = env.register(Blank, ());
    let a = Address::generate(&env);
    let account =
        Address::from_str(&env, "GA7QYNF7SOWQ3GLR2BGMZEHXAVIRZA4KVWLTJJFC7MGXUA74P7UJVSGZ");
    let asset = Asset::Soroban(account);
    run(&env, &id, |e| {
        assert_eq!(storage::transfer_asset(e, &asset, &id, &a, 1), Err(Abort::Trap));
    });
}
