use soroban_sdk::testutils::storage::{Instance as _, Persistent as _};
use soroban_sdk::testutils::{Address as _, ContractFunctionSet, EnvTestConfig, Ledger as _};
use soroban_sdk::token::{Client, StellarAssetClient};
use soroban_sdk::{Address, Env, Error, FromVal, IntoVal, Symbol, Val};
use stellar_route::errors::{Abort, ContractError};
use stellar_route::events::{Event, EventLog};
use stellar_route::storage;
use stellar_route::types::{Asset, Hop, Route, SwapParams, SwapResult};
use stellar_route::StellarRoute;

const START: u32 = 2_000_000;
const ACCOUNT: &str = "GA7QYNF7SOWQ3GLR2BGMZEHXAVIRZA4KVWLTJJFC7MGXUA74P7UJVSGZ";

/// A contract that runs the entry points which demand an authorization.
struct Router;

impl ContractFunctionSet for Router {
    fn call(&self, func: &str, env: Env, args: &[Val]) -> Option<Val> {
        let mut e = env.clone();
        let mut log = EventLog::new();
        match func {
            "set_admin" => {
                let new_admin = Address::from_val(&env, &args[0]);
                StellarRoute::set_admin(&mut e, &mut log, new_admin).unwrap();
                Some(().into_val(&env))
            }
            "pause" => {
                StellarRoute::pause(&mut e, &mut log).unwrap();
                Some(().into_val(&env))
            }
            "unpause" => {
                StellarRoute::unpause(&mut e, &mut log).unwrap();
                Some(().into_val(&env))
            }
            "register_pool" => {
                let pool = Address::from_val(&env, &args[0]);
                StellarRoute::register_pool(&mut e, &mut log, pool).unwrap();
                Some(().into_val(&env))
            }
            "swap_native" => {
                let sender = Address::from_val(&env, &args[0]);
                let pool = Address::from_val(&env, &args[1]);
                let amount = i128::from_val(&env, &args[2]);
                let hop = Hop { source: Asset::Native, destination: Asset::Native, pool };
                let params = SwapParams {
                    route: Route { hops: vec![hop] },
                    amount_in: amount,
                    min_amount_out: 0,
                    recipient: sender.clone(),
                    deadline: u64::MAX,
                };
                let done = StellarRoute::execute_swap(&mut e, &mut log, sender, params).unwrap();
                Some(done.amount_out.into_val(&env))
            }
            _ => None,
        }
    }
}

/// A pool that gives `num` for every `den` that it gets, and remembers what it was last told.
struct Pool {
    num: i128,
    den: i128,
}

impl ContractFunctionSet for Pool {
    fn call(&self, func: &str, env: Env, args: &[Val]) -> Option<Val> {
        if func != "adapter_quote" && func != "swap" {
            return None;
        }
        let told = soroban_sdk::Vec::from_slice(&env, args);
        env.storage().instance().set(&Symbol::new(&env, func), &told);
        let amount = i128::from_val(&env, &args[2]);
        Some((amount * self.num / self.den).into_val(&env))
    }
}

/// A pool that answers with a number whatever it is told.
struct Fixed(i128);

impl ContractFunctionSet for Fixed {
    fn call(&self, func: &str, env: Env, _args: &[Val]) -> Option<Val> {
        match func {
            "adapter_quote" | "swap" => Some(self.0.into_val(&env)),
            _ => None,
        }
    }
}

/// A pool that answers with something else than an amount.
struct Talker;

impl ContractFunctionSet for Talker {
    fn call(&self, func: &str, env: Env, _args: &[Val]) -> Option<Val> {
        match func {
            "adapter_quote" | "swap" => Some(Symbol::new(&env, "nothing").into_val(&env)),
            _ => None,
        }
    }
}

/// A contract that is no pool.
struct Blank;

impl ContractFunctionSet for Blank {
    fn call(&self, _func: &str, _env: Env, _args: &[Val]) -> Option<Val> {
        None
    }
}

struct Stage {
    env: Env,
    router: Address,
    admin: Address,
    fee_to: Address,
    user: Address,
    recipient: Address,
    coin: Address,
    gold: Address,
    silver: Address,
}

fn bare() -> Stage {
    let env = Env::new_with_config(EnvTestConfig { capture_snapshot_at_drop: false });
    env.ledger().with_mut(|li| {
        li.sequence_number = START;
        li.min_persistent_entry_ttl = 4_096;
        li.max_entry_ttl = 6_312_000;
    });
    env.mock_all_auths();
    let router = env.register(Router, ());
    let admin = Address::generate(&env);
    let fee_to = Address::generate(&env);
    let user = Address::generate(&env);
    let recipient = Address::generate(&env);
    let issuer = Address::generate(&env);
    let coin = env.register_stellar_asset_contract_v2(issuer.clone()).address();
    let issuer = Address::generate(&env);
    let gold = env.register_stellar_asset_contract_v2(issuer.clone()).address();
    let issuer = Address::generate(&env);
    let silver = env.register_stellar_asset_contract_v2(issuer).address();
    Stage { env, router, admin, fee_to, user, recipient, coin, gold, silver }
}

fn ready(fee_rate: u32) -> Stage {
    let s = bare();
    let (admin, fee_to) = (s.admin.clone(), s.fee_to.clone());
    let (r, _) = s.run(|e, log| StellarRoute::initialize(e, log, admin, fee_rate, fee_to));
    assert_eq!(r, Ok(()));
    s
}

impl Stage {
    fn run<T>(&self, f: impl FnOnce(&mut Env, &mut EventLog) -> T) -> (T, EventLog) {
        let mut e = self.env.clone();
        let mut log = EventLog::new();
        let r = self.env.as_contract(&self.router, || f(&mut e, &mut log));
        (r, log)
    }

    fn read<T>(&self, f: impl FnOnce(&Env) -> T) -> T {
        self.env.as_contract(&self.router, || f(&self.env))
    }

    fn add(&self, pool: &Address) {
        let (r, _) = self.run(|e, log| StellarRoute::register_pool(e, log, pool.clone()));
        assert_eq!(r, Ok(()));
    }

    fn pool(&self, num: i128, den: i128) -> Address {
        let pool = self.env.register(Pool { num, den }, ());
        self.add(&pool);
        pool
    }

    fn mint(&self, token: &Address, to: &Address, amount: i128) {
        StellarAssetClient::new(&self.env, token).mint(to, &amount);
    }

    fn balance(&self, token: &Address, of: &Address) -> i128 {
        Client::new(&self.env, token).balance(of)
    }

    fn params(&self, hops: Vec<Hop>, amount_in: i128, min_amount_out: i128) -> SwapParams {
        SwapParams {
            route: Route { hops },
            amount_in,
            min_amount_out,
            recipient: self.recipient.clone(),
            deadline: START as u64,
        }
    }

    fn swap(&self, params: SwapParams) -> (Result<SwapResult, Abort>, EventLog) {
        let sender = self.user.clone();
        self.run(|e, log| StellarRoute::execute_swap(e, log, sender, params))
    }

    fn swap_error(&self, params: SwapParams) -> Abort {
        let (r, log) = self.swap(params);
        assert!(log.entries.is_empty());
        r.unwrap_err()
    }

    fn told(&self, pool: &Address, func: &str) -> soroban_sdk::Vec<Val> {
        let env = &self.env;
        env.as_contract(pool, || env.storage().instance().get(&Symbol::new(env, func)).unwrap())
    }
}

fn hop(source: &Address, destination: &Address, pool: &Address) -> Hop {
    Hop {
        source: Asset::Soroban(source.clone()),
        destination: Asset::Soroban(destination.clone()),
        pool: pool.clone(),
    }
}

fn native(pool: &Address) -> Hop {
    Hop { source: Asset::Native, destination: Asset::Native, pool: pool.clone() }
}

// ---- Administration ----

#[test]
fn set_up_is_read_back() {
    let s = bare();
    let (admin, fee_to) = (s.admin.clone(), s.fee_to.clone());
    let (r, log) = s.run(|e, log| StellarRoute::initialize(e, log, admin, 1000, fee_to));
    assert_eq!(r, Ok(()));
    assert_eq!(log.entries.len(), 1);
    assert!(matches!(
        &log.entries[0],
        Event::Initialized { admin, fee_rate: 1000 } if *admin == s.admin
    ));
    s.read(|e| {
        assert_eq!(StellarRoute::get_admin(e), Ok(s.admin.clone()));
        assert_eq!(StellarRoute::get_fee_rate_value(e), 1000);
        assert_eq!(StellarRoute::get_fee_to_address(e), Ok(s.fee_to.clone()));
        assert_eq!(storage::get_fee_to(e), s.fee_to);
        assert!(!StellarRoute::is_paused(e));
        assert_eq!(StellarRoute::get_pool_count(e), 0);
        assert_eq!(StellarRoute::get_total_swap_volume(e), 0);
        assert_eq!(storage::get_last_ttl_extension(e), START);
        assert_eq!(e.storage().instance().get_ttl(), storage::INSTANCE_TTL_EXTEND_TO);
    });
}

#[test]
fn contract_is_set_up_once() {
    let s = ready(30);
    let (other, fee_to) = (s.user.clone(), s.user.clone());
    let (r, log) = s.run(|e, log| StellarRoute::initialize(e, log, other, 5, fee_to));
    assert_eq!(r, Err(ContractError::AlreadyInitialized));
    assert!(log.entries.is_empty());
    s.read(|e| {
        assert_eq!(StellarRoute::get_admin(e), Ok(s.admin.clone()));
        assert_eq!(StellarRoute::get_fee_rate_value(e), 30);
        assert_eq!(StellarRoute::get_fee_to_address(e), Ok(s.fee_to.clone()));
    });
}

#[test]
fn fee_rate_above_a_tenth_is_refused() {
    let s = bare();
    let (admin, fee_to) = (s.admin.clone(), s.fee_to.clone());
    let (r, log) = s.run(|e, log| StellarRoute::initialize(e, log, admin, 1001, fee_to));
    assert_eq!(r, Err(ContractError::InvalidAmount));
    assert!(log.entries.is_empty());
    s.read(|e| assert!(!storage::is_initialized(e)));
}

#[test]
fn contract_that_is_not_set_up_says_so() {
    let s = bare();
    s.read(|e| {
        assert_eq!(StellarRoute::get_admin(e), Err(ContractError::NotInitialized));
        assert_eq!(StellarRoute::get_fee_to_address(e), Err(ContractError::NotInitialized));
        assert_eq!(StellarRoute::version(e), 1);
    });
}

#[test]
fn admin_is_handed_over() {
    let s = ready(0);
    let next = s.user.clone();
    let (r, log) = s.run(|e, log| StellarRoute::set_admin(e, log, next));
    assert_eq!(r, Ok(()));
    assert!(matches!(
        &log.entries[..],
        [Event::AdminChanged { old_admin, new_admin }]
            if *old_admin == s.admin && *new_admin == s.user
    ));
    s.read(|e| assert_eq!(StellarRoute::get_admin(e), Ok(s.user.clone())));
}

#[test]
fn only_the_admin_governs() {
    let s = ready(0);
    let env = &s.env;
    let pool = env.register(Fixed(1), ());
    let arg: soroban_sdk::Vec<Val> = soroban_sdk::Vec::from_array(env, [s.user.into_val(env)]);
    let pool_arg: soroban_sdk::Vec<Val> = soroban_sdk::Vec::from_array(env, [pool.into_val(env)]);
    let nothing: soroban_sdk::Vec<Val> = soroban_sdk::Vec::new(env);
    let ask = |func: &str, args: &soroban_sdk::Vec<Val>| {
        env.try_invoke_contract::<(), Error>(&s.router, &Symbol::new(env, func), args.clone())
            .is_ok()
    };

    env.mock_auths(&[]);
    assert!(!ask("set_admin", &arg));
    assert!(!ask("pause", &nothing));
    assert!(!ask("unpause", &nothing));
    assert!(!ask("register_pool", &pool_arg));
    s.read(|e| {
        assert_eq!(StellarRoute::get_admin(e), Ok(s.admin.clone()));
        assert!(!StellarRoute::is_paused(e));
        assert_eq!(StellarRoute::get_pool_count(e), 0);
    });

    env.mock_all_auths();
    assert!(ask("pause", &nothing));
    assert_eq!(env.auths().len(), 1);
    assert_eq!(env.auths()[0].0, s.admin);
    assert!(ask("unpause", &nothing));
    assert!(ask("register_pool", &pool_arg));
    assert!(ask("set_admin", &arg));
    assert_eq!(env.auths()[0].0, s.admin);
    s.read(|e| {
        assert_eq!(StellarRoute::get_admin(e), Ok(s.user.clone()));
        assert!(StellarRoute::is_pool_registered(e, pool.clone()));
    });
}

#[test]
fn registration_is_read_back() {
    let s = ready(0);
    let a = s.env.register(Blank, ());
    let b = s.env.register(Blank, ());
    let (r, log) = s.run(|e, log| StellarRoute::register_pool(e, log, a.clone()));
    assert_eq!(r, Ok(()));
    assert!(matches!(&log.entries[..], [Event::PoolRegistered { pool }] if *pool == a));
    s.add(&b);
    s.read(|e| {
        assert_eq!(StellarRoute::get_pool_count(e), 2);
        assert!(StellarRoute::is_pool_registered(e, a.clone()));
        assert!(StellarRoute::is_pool_registered(e, b.clone()));
        assert!(!StellarRoute::is_pool_registered(e, s.user.clone()));
        let list = storage::get_pool_list(e);
        assert_eq!(list.len(), 2);
        assert_eq!(list.get(0), Some(a.clone()));
        assert_eq!(list.get(1), Some(b.clone()));
        let key = (Symbol::new(e, "SupportedPool"), a.clone());
        assert_eq!(e.storage().persistent().get_ttl(&key), storage::POOL_TTL_EXTEND_TO);
        let stored: Option<bool> = e.storage().persistent().get(&key);
        assert_eq!(stored, Some(true));
    });
}

#[test]
fn pool_is_registered_once() {
    let s = ready(0);
    let a = s.pool(1, 1);
    let (r, log) = s.run(|e, log| StellarRoute::register_pool(e, log, a.clone()));
    assert_eq!(r, Err(ContractError::PoolNotSupported));
    assert!(log.entries.is_empty());
    s.read(|e| {
        assert_eq!(StellarRoute::get_pool_count(e), 1);
        assert_eq!(storage::get_pool_list(e).len(), 1);
    });
}

#[test]
fn unpause_undoes_pause() {
    let s = ready(0);
    let (r, log) = s.run(|e, log| StellarRoute::pause(e, log));
    assert_eq!(r, Ok(()));
    assert!(matches!(&log.entries[..], [Event::Paused]));
    s.read(|e| {
        assert!(StellarRoute::is_paused(e));
        assert_eq!(StellarRoute::require_not_paused(e), Err(ContractError::Paused));
    });
    let (r, log) = s.run(|e, log| StellarRoute::unpause(e, log));
    assert_eq!(r, Ok(()));
    assert!(matches!(&log.entries[..], [Event::Unpaused]));
    s.read(|e| {
        assert!(!StellarRoute::is_paused(e));
        assert_eq!(StellarRoute::require_not_paused(e), Ok(()));
        assert_eq!(StellarRoute::get_admin(e), Ok(s.admin.clone()));
    });
}

// ---- Quotes ----

#[test]
fn quote_follows_the_route() {
    let s = ready(30);
    let a = s.pool(2, 1);
    let b = s.pool(3, 2);
    let hops = vec![hop(&s.coin, &s.gold, &a), hop(&s.gold, &s.silver, &b)];
    let (r, _) = s.run(|e, _| StellarRoute::get_quote(e, 1_000, Route { hops }));
    let quote = r.unwrap();
    assert_eq!(quote.expected_output, 2_991);
    assert_eq!(quote.fee_amount, 9);
    assert_eq!(quote.price_impact_bps, 10);
    assert_eq!(quote.valid_until, START as u64 + 120);
    assert_eq!(quote.route.hops.len(), 2);
    assert_eq!(quote.route.hops[0].pool, a);
    assert_eq!(quote.route.hops[1].pool, b);

    let told = s.told(&b, "adapter_quote");
    assert_eq!(told.len(), 3);
    let source = <(Symbol, Address)>::from_val(&s.env, &told.get(0).unwrap());
    let destination = <(Symbol, Address)>::from_val(&s.env, &told.get(1).unwrap());
    assert_eq!(source, (Symbol::new(&s.env, "Soroban"), s.gold.clone()));
    assert_eq!(destination, (Symbol::new(&s.env, "Soroban"), s.silver.clone()));
    assert_eq!(i128::from_val(&s.env, &told.get(2).unwrap()), 2_000);
}

#[test]
fn quote_names_the_native_asset() {
    let s = ready(0);
    let a = s.pool(1, 1);
    let hops = vec![native(&a)];
    let (r, _) = s.run(|e, _| StellarRoute::get_quote(e, 7, Route { hops }));
    assert_eq!(r.unwrap().expected_output, 7);
    let told = s.told(&a, "adapter_quote");
    let source = <(Symbol,)>::from_val(&s.env, &told.get(0).unwrap());
    assert_eq!(source, (Symbol::new(&s.env, "Native"),));
}

#[test]
fn quote_stores_nothing() {
    let s = ready(30);
    let a = s.pool(2, 1);
    let hops = vec![native(&a)];
    let before = s.read(|e| (e.storage().instance().all(), e.storage().persistent().all()));
    let (r, log) = s.run(|e, _| StellarRoute::get_quote(e, 1_000, Route { hops }));
    assert!(r.is_ok());
    assert!(log.entries.is_empty());
    let after = s.read(|e| (e.storage().instance().all(), e.storage().persistent().all()));
    assert!(before == after);
}

#[test]
fn quote_for_nothing_or_for_no_route_is_refused() {
    let s = ready(30);
    let a = s.pool(1, 1);
    let ask = |amount: i128, n: usize| {
        let mut hops = Vec::new();
        for _ in 0..n {
            hops.push(native(&a));
        }
        s.run(|e, _| StellarRoute::get_quote(e, amount, Route { hops })).0
    };
    let refused = Abort::Error(ContractError::InvalidRoute);
    assert_eq!(ask(0, 1).unwrap_err(), refused);
    assert_eq!(ask(-1, 1).unwrap_err(), refused);
    assert_eq!(ask(1, 0).unwrap_err(), refused);
    assert_eq!(ask(1, 5).unwrap_err(), refused);
    let longest = ask(1, 4).unwrap();
    assert_eq!(longest.price_impact_bps, 20);
}

#[test]
fn quote_needs_pools_that_answer() {
    let s = ready(30);
    let stranger = s.env.register(Fixed(1), ());
    let blank = s.env.register(Blank, ());
    let talker = s.env.register(Talker, ());
    let account = Address::from_str(&s.env, ACCOUNT);
    s.add(&blank);
    s.add(&talker);
    s.add(&account);
    let ask = |pool: &Address| {
        let hops = vec![native(pool)];
        s.run(|e, _| StellarRoute::get_quote(e, 1, Route { hops })).0.unwrap_err()
    };
    assert_eq!(ask(&stranger), Abort::Error(ContractError::PoolNotSupported));
    assert_eq!(ask(&blank), Abort::Error(ContractError::PoolCallFailed));
    assert_eq!(ask(&talker), Abort::Error(ContractError::PoolCallFailed));
    assert_eq!(ask(&s.router), Abort::Error(ContractError::PoolNotSupported));
    assert_eq!(ask(&account), Abort::Trap);
}

#[test]
fn contract_cannot_be_its_own_pool() {
    let s = ready(30);
    s.add(&s.router);
    let hops = vec![native(&s.router)];
    let (r, _) = s.run(|e, _| StellarRoute::get_quote(e, 1, Route { hops }));
    assert_eq!(r.unwrap_err(), Abort::Error(ContractError::PoolCallFailed));
}

#[test]
fn quote_that_overflows_traps() {
    let s = ready(30);
    let huge = s.env.register(Fixed(i128::MAX), ());
    s.add(&huge);
    let hops = vec![native(&huge)];
    let (r, _) = s.run(|e, _| StellarRoute::get_quote(e, 1, Route { hops }));
    assert_eq!(r.unwrap_err(), Abort::Trap);
}

// ---- Swaps ----

#[test]
fn swap_moves_the_tokens() {
    let s = ready(30);
    let a = s.pool(2, 1);
    let b = s.pool(3, 2);
    s.mint(&s.coin, &s.user, 1_500);
    s.mint(&s.silver, &s.router, 5_000);
    let hops = vec![hop(&s.coin, &s.gold, &a), hop(&s.gold, &s.silver, &b)];
    let (r, log) = s.swap(s.params(hops, 1_000, 2_991));
    let done = r.unwrap();
    assert_eq!(done.amount_in, 1_000);
    assert_eq!(done.amount_out, 2_991);
    assert_eq!(done.executed_at, START as u64);
    assert_eq!(done.route.hops.len(), 2);

    assert_eq!(s.balance(&s.coin, &s.user), 500);
    assert_eq!(s.balance(&s.coin, &a), 1_000);
    assert_eq!(s.balance(&s.silver, &s.recipient), 2_991);
    assert_eq!(s.balance(&s.silver, &s.fee_to), 9);
    assert_eq!(s.balance(&s.silver, &s.router), 2_000);

    let told = s.told(&b, "swap");
    assert_eq!(told.len(), 4);
    assert_eq!(i128::from_val(&s.env, &told.get(2).unwrap()), 2_000);
    assert_eq!(i128::from_val(&s.env, &told.get(3).unwrap()), 0);

    s.read(|e| {
        assert_eq!(storage::get_nonce(e, s.user.clone()), 1);
        assert_eq!(storage::get_nonce(e, s.recipient.clone()), 0);
        assert_eq!(StellarRoute::get_total_swap_volume(e), 1_000);
    });
    assert_eq!(log.entries.len(), 1);
    assert!(matches!(
        &log.entries[0],
        Event::SwapExecuted { sender, amount_in: 1_000, amount_out: 2_991, fee_amount: 9, route }
            if *sender == s.user && route.hops.len() == 2 && route.hops[1].pool == b
    ));
}

#[test]
fn swaps_add_up() {
    let s = ready(0);
    let a = s.pool(1, 1);
    for _ in 0..3 {
        let (r, _) = s.swap(s.params(vec![native(&a)], 10, 10));
        assert!(r.is_ok());
    }
    s.read(|e| {
        assert_eq!(storage::get_nonce(e, s.user.clone()), 3);
        assert_eq!(StellarRoute::get_total_swap_volume(e), 30);
    });
}

#[test]
fn quote_foretells_swap() {
    let s = ready(77);
    let a = s.pool(7, 3);
    let b = s.pool(5, 2);
    let hops = vec![native(&a), native(&b)];
    let (quote, _) = s.run(|e, _| StellarRoute::get_quote(e, 12_345, Route { hops }));
    let hops = vec![native(&a), native(&b)];
    let (swap, _) = s.swap(s.params(hops, 12_345, 0));
    assert_eq!(quote.unwrap().expected_output, swap.unwrap().amount_out);
}

#[test]
fn native_swaps_move_no_tokens() {
    let s = ready(100);
    let a = s.pool(1, 1);
    let (r, _) = s.swap(s.params(vec![native(&a)], -20_000, -20_000));
    assert_eq!(r.unwrap().amount_out, -19_800);
    s.read(|e| assert_eq!(StellarRoute::get_total_swap_volume(e), -20_000));
}

#[test]
fn swap_extends_what_it_uses() {
    let s = ready(0);
    let a = s.pool(1, 1);
    let key = (Symbol::new(&s.env, "SupportedPool"), a.clone());
    let wait = storage::POOL_TTL_EXTEND_TO - storage::POOL_TTL_THRESHOLD;
    for contract in [&s.router, &a] {
        s.env.as_contract(contract, || {
            s.env.storage().instance().extend_ttl(6_000_000, 6_000_000)
        });
    }
    s.env.ledger().with_mut(|li| li.sequence_number += wait);
    let mut params = s.params(vec![native(&a)], 10, 10);
    params.deadline = u64::MAX;
    let (r, _) = s.swap(params);
    assert!(r.is_ok());
    s.read(|e| {
        assert_eq!(e.storage().persistent().get_ttl(&key), storage::POOL_TTL_EXTEND_TO);
        let nonce = (Symbol::new(e, "SwapNonce"), s.user.clone());
        assert_eq!(e.storage().persistent().get_ttl(&nonce), storage::NONCE_TTL_EXTEND_TO);
    });
}

#[test]
fn swap_warns_when_pools_run_out() {
    let s = ready(0);
    let a = s.pool(1, 1);
    let warned = |elapsed: u32| {
        s.run(|e, _| storage::set_last_ttl_extension(e, START - elapsed));
        let (r, log) = s.swap(s.params(vec![native(&a)], 10, 10));
        assert!(r.is_ok());
        log
    };
    assert_eq!(warned(1_175_040).entries.len(), 1);
    let log = warned(1_175_041);
    assert_eq!(log.entries.len(), 2);
    assert!(matches!(
        &log.entries[0],
        Event::TtlWarning { remaining: 380_159, threshold: 380_160 }
    ));
    assert!(matches!(&log.entries[1], Event::SwapExecuted { .. }));
    assert!(matches!(
        &warned(1_999_999).entries[0],
        Event::TtlWarning { remaining: 0, threshold: 380_160 }
    ));
    assert_eq!(warned(START).entries.len(), 1);
}

#[test]
fn paused_contract_moves_nothing() {
    let s = ready(0);
    let a = s.pool(1, 1);
    s.mint(&s.coin, &s.user, 100);
    s.mint(&s.gold, &s.router, 100);
    let (r, _) = s.run(|e, log| StellarRoute::pause(e, log));
    assert_eq!(r, Ok(()));
    let params = s.params(vec![hop(&s.coin, &s.gold, &a)], 10, 0);
    assert_eq!(s.swap_error(params), Abort::Error(ContractError::Paused));
    assert_eq!(s.balance(&s.coin, &s.user), 100);
    s.read(|e| assert_eq!(storage::get_nonce(e, s.user.clone()), 0));
    let (r, _) = s.run(|e, log| StellarRoute::unpause(e, log));
    assert_eq!(r, Ok(()));
    let (r, _) = s.swap(s.params(vec![hop(&s.coin, &s.gold, &a)], 10, 0));
    assert!(r.is_ok());
}

#[test]
fn swap_after_its_deadline_is_refused() {
    let s = ready(0);
    let a = s.pool(1, 1);
    let mut params = s.params(vec![native(&a)], 10, 0);
    params.deadline = START as u64 - 1;
    assert_eq!(s.swap_error(params), Abort::Error(ContractError::DeadlineExceeded));
}

#[test]
fn swap_along_no_route_is_refused() {
    let s = ready(0);
    let a = s.pool(1, 1);
    let refused = Abort::Error(ContractError::InvalidRoute);
    assert_eq!(s.swap_error(s.params(Vec::new(), 10, 0)), refused);
    let five = vec![native(&a), native(&a), native(&a), native(&a), native(&a)];
    assert_eq!(s.swap_error(s.params(five, 10, 0)), refused);
    let four = vec![native(&a), native(&a), native(&a), native(&a)];
    assert!(s.swap(s.params(four, 10, 0)).0.is_ok());
}

#[test]
fn swap_needs_pools_that_answer() {
    let s = ready(0);
    let a = s.pool(1, 1);
    let stranger = s.env.register(Fixed(1), ());
    let blank = s.env.register(Blank, ());
    let account = Address::from_str(&s.env, ACCOUNT);
    s.add(&blank);
    s.add(&account);
    let ask = |pool: &Address| s.swap_error(s.params(vec![native(&a), native(pool)], 10, 0));
    assert_eq!(ask(&stranger), Abort::Error(ContractError::PoolNotSupported));
    assert_eq!(ask(&blank), Abort::Error(ContractError::PoolCallFailed));
    assert_eq!(ask(&account), Abort::Trap);
    s.read(|e| {
        assert_eq!(storage::get_nonce(e, s.user.clone()), 0);
        assert_eq!(StellarRoute::get_total_swap_volume(e), 0);
    });
}

#[test]
fn swap_that_brings_too_little_is_refused() {
    let s = ready(100);
    let a = s.pool(1, 1);
    let params = s.params(vec![native(&a)], 1_000, 991);
    assert_eq!(s.swap_error(params), Abort::Error(ContractError::SlippageExceeded));
    let (r, _) = s.swap(s.params(vec![native(&a)], 1_000, 990));
    assert_eq!(r.unwrap().amount_out, 990);
}

#[test]
fn swap_without_funds_traps() {
    let s = ready(100);
    let a = s.pool(1, 1);
    let hops = || vec![hop(&s.coin, &s.gold, &a)];
    assert_eq!(s.swap_error(s.params(hops(), 1_000, 0)), Abort::Trap);
    s.mint(&s.coin, &s.user, 10_000);
    assert_eq!(s.swap_error(s.params(hops(), 1_000, 0)), Abort::Trap);
    s.mint(&s.gold, &s.router, 995);
    assert_eq!(s.swap_error(s.params(hops(), 1_000, 0)), Abort::Trap);
    s.mint(&s.gold, &s.router, 1_000);
    assert!(s.swap(s.params(hops(), 1_000, 0)).0.is_ok());
}

#[test]
fn swap_without_fee_receiver_traps() {
    let s = bare();
    let admin = s.admin.clone();
    s.run(|e, _| storage::set_admin(e, &admin));
    let a = s.pool(1, 1);
    assert_eq!(s.swap_error(s.params(vec![native(&a)], 10, 0)), Abort::Trap);
}

#[test]
fn swap_that_overflows_traps() {
    let s = ready(30);
    let a = s.pool(1, 1);
    let huge = s.env.register(Fixed(i128::MAX), ());
    s.add(&huge);
    assert_eq!(s.swap_error(s.params(vec![native(&huge)], 10, 0)), Abort::Trap);
    s.run(|e, _| storage::add_swap_volume(e, i128::MAX - 9));
    assert_eq!(s.swap_error(s.params(vec![native(&a)], 10, 0)), Abort::Trap);
    let (r, _) = s.swap(s.params(vec![native(&a)], 9, 0));
    assert!(r.is_ok());
    s.read(|e| {
        let key = (Symbol::new(e, "SwapNonce"), s.user.clone());
        e.storage().persistent().set(&key, &i128::MAX);
    });
    assert_eq!(s.swap_error(s.params(vec![native(&a)], -1, -1)), Abort::Trap);
}

#[test]
fn swap_is_authorized_by_its_sender() {
    let s = ready(0);
    let env = &s.env;
    let a = s.pool(1, 1);
    let args: soroban_sdk::Vec<Val> = soroban_sdk::Vec::from_array(
        env,
        [s.user.into_val(env), a.into_val(env), 10i128.into_val(env)],
    );
    let ask = || {
        env.try_invoke_contract::<i128, Error>(
            &s.router,
            &Symbol::new(env, "swap_native"),
            args.clone(),
        )
    };
    env.mock_auths(&[]);
    assert!(ask().is_err());
    s.read(|e| assert_eq!(storage::get_nonce(e, s.user.clone()), 0));
    env.mock_all_auths();
    assert!(matches!(ask(), Ok(Ok(10))));
    assert_eq!(env.auths().len(), 1);
    assert_eq!(env.auths()[0].0, s.user);
    s.read(|e| assert_eq!(storage::get_nonce(e, s.user.clone()), 1));
}

// ---- TTLs ----

#[test]
fn extension_reaches_every_pool() {
    let s = ready(0);
    let a = s.pool(1, 1);
    let b = s.pool(1, 1);
    s.run(|e, _| storage::add_swap_volume(e, 5));
    let wait = storage::POOL_TTL_EXTEND_TO - storage::POOL_TTL_THRESHOLD;
    s.read(|e| {
        e.storage().instance().extend_ttl(1_300_000, 1_300_000);
        let volume = (Symbol::new(e, "TotalSwapVolume"),);
        e.storage().persistent().extend_ttl(&volume, wait + 100, wait + 100);
    });
    s.env.ledger().with_mut(|li| li.sequence_number += wait);
    let (_, log) = s.run(|e, log| StellarRoute::extend_storage_ttl(e, log));
    let now = START + wait;
    assert!(matches!(
        &log.entries[..],
        [Event::TtlExtended { pools_extended: 2, ledger }] if *ledger == now
    ));
    s.read(|e| {
        for pool in [&a, &b] {
            let key = (Symbol::new(e, "SupportedPool"), pool.clone());
            assert_eq!(e.storage().persistent().get_ttl(&key), storage::POOL_TTL_EXTEND_TO);
        }
        let volume = (Symbol::new(e, "TotalSwapVolume"),);
        assert_eq!(e.storage().persistent().get_ttl(&volume), storage::VOLUME_TTL_EXTEND_TO);
        assert_eq!(storage::get_last_ttl_extension(e), now);
        assert_eq!(StellarRoute::get_total_swap_volume(e), 5);
    });
}

#[test]
fn extension_keeps_the_contract_alive() {
    let s = ready(0);
    let wait = storage::INSTANCE_TTL_EXTEND_TO - storage::INSTANCE_TTL_THRESHOLD;
    s.env.ledger().with_mut(|li| li.sequence_number += wait - 1);
    s.run(|e, log| StellarRoute::extend_storage_ttl(e, log));
    s.read(|e| {
        let left = storage::INSTANCE_TTL_THRESHOLD + 1;
        assert_eq!(e.storage().instance().get_ttl(), left);
    });
    s.env.ledger().with_mut(|li| li.sequence_number += 1);
    s.run(|e, log| StellarRoute::extend_storage_ttl(e, log));
    s.read(|e| {
        assert_eq!(e.storage().instance().get_ttl(), storage::INSTANCE_TTL_EXTEND_TO);
    });
}

#[test]
fn status_counts_down() {
    let s = ready(0);
    let status = |elapsed: u32| {
        s.run(|e, _| storage::set_last_ttl_extension(e, START - elapsed));
        s.read(StellarRoute::get_ttl_status)
    };
    let fresh = status(0);
    assert_eq!(fresh.instance_ttl_remaining, 518_400);
    assert_eq!(fresh.pools_min_ttl, 1_555_200);
    assert!(!fresh.needs_extension);
    assert_eq!(fresh.last_extended_ledger, START);

    let last = status(397_440);
    assert_eq!(last.instance_ttl_remaining, 120_960);
    assert!(!last.needs_extension);
    let due = status(397_441);
    assert_eq!(due.instance_ttl_remaining, 120_959);
    assert_eq!(due.pools_min_ttl, 1_157_759);
    assert!(due.needs_extension);

    let gone = status(START);
    assert_eq!(gone.instance_ttl_remaining, 0);
    assert_eq!(gone.pools_min_ttl, 0);
    assert!(gone.needs_extension);
    assert_eq!(gone.last_extended_ledger, 0);
}

#[test]
fn warning_goes_by_the_status() {
    let s = ready(0);
    for elapsed in [0, 397_441, 1_175_040, 1_175_041, 1_555_200, 1_900_000, START] {
        s.run(|e, _| storage::set_last_ttl_extension(e, START - elapsed));
        let status = s.read(StellarRoute::get_ttl_status);
        let (_, log) = s.run(|e, log| StellarRoute::check_ttl_health(e, log));
        if elapsed > 1_175_040 && elapsed < START {
            assert!(matches!(
                &log.entries[..],
                [Event::TtlWarning { remaining, threshold: 380_160 }]
                    if *remaining == status.pools_min_ttl
            ));
            assert!(status.needs_extension);
        } else {
            assert!(log.entries.is_empty());
        }
    }
}

#[test]
fn quote_extends_nothing() {
    let s = ready(0);
    let a = s.pool(1, 1);
    s.env.ledger().with_mut(|li| li.sequence_number += 450_000);
    s.env.as_contract(&a, || s.env.storage().instance().extend_ttl(500_000, 500_000));
    let life = |e: &Env| e.storage().instance().get_ttl();
    let before = s.read(life);
    assert!(before < storage::INSTANCE_TTL_THRESHOLD);
    let (r, _) = s.run(|e, _| StellarRoute::get_quote(e, 0, Route { hops: Vec::new() }));
    assert!(r.is_err());
    assert_eq!(s.read(life), before);
    let hops = vec![native(&a)];
    let (r, _) = s.run(|e, _| StellarRoute::get_quote(e, 10, Route { hops }));
    assert!(r.is_ok());
    assert_eq!(s.read(life), before);
}

#[test]
fn pause_leaves_quotes_alone() {
    let s = ready(30);
    let a = s.pool(2, 1);
    let ask = || {
        let hops = vec![native(&a)];
        let quote = s.run(|e, _| StellarRoute::get_quote(e, 1_000, Route { hops })).0.unwrap();
        (quote.expected_output, quote.fee_amount, quote.valid_until)
    };
    assert_eq!(ask(), (1_994, 6, START as u64 + 120));
    let (r, _) = s.run(|e, log| StellarRoute::pause(e, log));
    assert_eq!(r, Ok(()));
    assert_eq!(ask(), (1_994, 6, START as u64 + 120));
}

#[test]
fn only_extensions_are_noted() {
    let s = ready(0);
    s.env.ledger().with_mut(|li| li.sequence_number += 10);
    let noted = || s.read(storage::get_last_ttl_extension);
    let a = s.pool(1, 1);
    assert_eq!(noted(), START);
    let mut params = s.params(vec![native(&a)], 10, 0);
    params.deadline = u64::MAX;
    assert!(s.swap(params).0.is_ok());
    let (admin, fee_to) = (s.admin.clone(), s.fee_to.clone());
    let (r, _) = s.run(|e, log| StellarRoute::initialize(e, log, admin, 0, fee_to));
    assert_eq!(r, Err(ContractError::AlreadyInitialized));
    assert_eq!(noted(), START);
    s.run(|e, log| StellarRoute::extend_storage_ttl(e, log));
    assert_eq!(noted(), START + 10);
}

#[test]
fn status_of_a_later_extension_is_full() {
    let s = ready(0);
    s.run(|e, _| storage::set_last_ttl_extension(e, START + 50));
    let status = s.read(StellarRoute::get_ttl_status);
    assert_eq!(status.instance_ttl_remaining, 518_400);
    assert_eq!(status.pools_min_ttl, 1_555_200);
    assert!(!status.needs_extension);
}
