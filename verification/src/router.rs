//! The entry points of the contract.

use crate::errors::{Abort, ContractError};
use crate::events::{Event, EventLog};
use crate::fees;
use crate::fees::{fee_fits, fee_on, Settlement, MAX_FEE_RATE};
use crate::host;
use crate::host::{approves, authorized, ledger, lifetime, listed, of_addresses, only_called};
use crate::ledger::{Call, Datum, Ledger, Lifetime};
use crate::route;
use crate::route::{pools_of, way_taken, MAX_HOPS};
use crate::storage;
use crate::storage::{
    StorageKey, INSTANCE_TTL_EXTEND_TO, INSTANCE_TTL_THRESHOLD, POOL_TTL_EXTEND_TO,
    POOL_TTL_THRESHOLD,
};
use crate::types::{Hop, QuoteResult, Route, SwapParams, SwapResult, TTLStatus};
use soroban_sdk::{Address, Env};
use vstd::prelude::*;

verus! {

pub const CONTRACT_VERSION: u32 = 1;

/// What each hop adds to the estimated price impact, in hundredths of a percent.
pub const IMPACT_PER_HOP_BPS: u32 = 5;

/// For how many ledgers a quote holds.
pub const QUOTE_LIFETIME: u32 = 120;

/// The contract.
pub struct StellarRoute;

// ---- What the entry points do to the ledger ----

/// The contract's life was extended once, from where the calls that left the contract had brought
/// it. They may have lengthened the life of the instance on their own.
pub open spec fn renewed(before: Lifetime, after: Lifetime, max_ttl: u32) -> bool {
    let found = Lifetime {
        instance: after.found_instance,
        code: after.found_code,
        asked: before.asked,
        ..after
    };
    &&& found.follows(before)
    &&& after == found.extended(INSTANCE_TTL_THRESHOLD, INSTANCE_TTL_EXTEND_TO, max_ttl)
}

/// How many ledgers are left of a TTL that was `extend_to` at ledger `since`.
pub open spec fn ttl_left(extend_to: u32, since: u32, now: u32) -> u32 {
    let elapsed = if now > since {
        now - since
    } else {
        0
    };
    if extend_to > elapsed {
        (extend_to - elapsed) as u32
    } else {
        0
    }
}

impl Ledger {
    pub open spec fn set_up(self, admin: Address, fee_rate: u32, fee_to: Address) -> Ledger {
        self.put_instance(StorageKey::Admin@, Datum::Account(admin)).put_instance(
            StorageKey::FeeRate@,
            Datum::Count(fee_rate),
        ).put_instance(StorageKey::FeeTo@, Datum::Account(fee_to)).put_instance(
            StorageKey::Paused@,
            Datum::Flag(false),
        ).put_instance(StorageKey::LastTtlExtension@, Datum::Count(self.sequence))
    }

    /// The administrator was asked for authorization.
    pub open spec fn approved_by_admin(self) -> Ledger {
        self.call(Call::Approval { by: self.admin() })
    }

    pub open spec fn with_pool(self, pool: Address) -> Ledger {
        self.put_persistent(StorageKey::SupportedPool(pool)@, Datum::Flag(true)).refresh_pool(
            pool,
        ).put_instance(
            StorageKey::PoolCount@,
            Datum::Count((self.pool_count() + 1) as u32),
        ).put_instance(
            StorageKey::PoolList@,
            Datum::Accounts(self.pool_list().push(pool)),
        )
    }

    pub open spec fn refresh_pools(self, pools: Seq<Address>) -> Ledger
        decreases pools.len(),
    {
        if pools.len() == 0 {
            self
        } else {
            self.refresh_pools(pools.drop_last()).refresh_pool(pools.last())
        }
    }

    /// All TTLs of the persistent storage that can be extended were, and it was noted when.
    pub open spec fn refresh_all(self) -> Ledger {
        self.refresh_pools(self.pool_list()).refresh_volume().put_instance(
            StorageKey::LastTtlExtension@,
            Datum::Count(self.sequence),
        )
    }

    pub open spec fn ttl_status(self) -> TTLStatus {
        let since = self.last_ttl_extension();
        let instance = ttl_left(INSTANCE_TTL_EXTEND_TO, since, self.sequence);
        let pools = ttl_left(POOL_TTL_EXTEND_TO, since, self.sequence);
        TTLStatus {
            instance_ttl_remaining: instance as u64,
            pools_min_ttl: pools as u64,
            needs_extension: instance < INSTANCE_TTL_THRESHOLD || pools < POOL_TTL_THRESHOLD,
            last_extended_ledger: since,
        }
    }

    /// The warning that is due where the pools are estimated to run out. None is due where no
    /// extension was ever noted.
    pub open spec fn ttl_warning(self) -> Seq<Event<Seq<Hop>>> {
        let since = self.last_ttl_extension();
        let pools = ttl_left(POOL_TTL_EXTEND_TO, since, self.sequence);
        if since != 0 && pools < POOL_TTL_THRESHOLD {
            seq![Event::TtlWarning { remaining: pools as u64, threshold: POOL_TTL_THRESHOLD }]
        } else {
            Seq::empty()
        }
    }
}

/// Extending TTLs changes nothing else.
pub proof fn refresh_pools_only_ttl(l: Ledger, pools: Seq<Address>)
    ensures
        l.refresh_pools(pools) == (Ledger { ttl: l.refresh_pools(pools).ttl, ..l }),
    decreases pools.len(),
{
    if pools.len() > 0 {
        refresh_pools_only_ttl(l, pools.drop_last());
    }
}

/// Whether a way has a length that the contract follows.
pub open spec fn followable(hops: Seq<Hop>) -> bool {
    0 < hops.len() <= MAX_HOPS
}

/// The quote for a route whose last pool answered `received`.
pub open spec fn quoted(received: i128, fee_rate: u32, sequence: u32, route: Route) -> Result<
    QuoteResult,
    Abort,
> {
    if !fee_fits(received, fee_rate) || sequence + QUOTE_LIFETIME > u32::MAX {
        Err(Abort::Trap)
    } else {
        Ok(
            QuoteResult {
                expected_output: (received - fee_on(received as int, fee_rate as int)) as i128,
                price_impact_bps: (IMPACT_PER_HOP_BPS * route@.len()) as u32,
                fee_amount: fee_on(received as int, fee_rate as int) as i128,
                route,
                valid_until: (sequence + QUOTE_LIFETIME) as u64,
            },
        )
    }
}

/// A request for a quote: the ledger after it, and the answer, where `replies` is what the pools
/// answered.
pub open spec fn quote_outcome(
    l: Ledger,
    amount_in: i128,
    route: Route,
    replies: Seq<Option<i128>>,
) -> (Ledger, Result<QuoteResult, Abort>) {
    if amount_in <= 0 || !followable(route@) {
        (l, Err(Abort::Error(ContractError::InvalidRoute)))
    } else {
        let (after, reached) = way_taken(l, route@, "adapter_quote"@, None, amount_in, replies);
        match reached {
            Ok(received) => (after, quoted(received, l.fee_rate(), l.sequence, route)),
            Err(abort) => (after, Err(abort)),
        }
    }
}

/// What the other contracts answer in the course of a swap: the token of the deposit, the pools
/// on the way, the token of the payout, and the same token for the fee.
pub struct SwapReplies {
    pub deposit: bool,
    pub pools: Seq<Option<i128>>,
    pub payout: bool,
    pub fee: bool,
}

/// How a swap ends.
pub struct SwapOutcome {
    pub ledger: Ledger,
    pub events: Seq<Event<Seq<Hop>>>,
    pub result: Result<SwapResult, Abort>,
}

/// How the answer of the last pool is shared out, unless too little of it is left.
pub open spec fn accepted(received: i128, fee_rate: u32, min_amount_out: i128) -> Result<
    Settlement,
    Abort,
> {
    let fee = fee_on(received as int, fee_rate as int);
    if !fee_fits(received, fee_rate) {
        Err(Abort::Trap)
    } else if received - fee < min_amount_out {
        Err(Abort::Error(ContractError::SlippageExceeded))
    } else {
        Ok(Settlement { fee: fee as i128, output: (received - fee) as i128 })
    }
}

/// A swap that comes to nothing.
pub open spec fn swap_failed(l: Ledger, abort: Abort) -> SwapOutcome {
    SwapOutcome { ledger: l, events: Seq::empty(), result: Err(abort) }
}

/// Why a swap is not even begun, if there is a reason.
pub open spec fn swap_refusal(l: Ledger, params: SwapParams) -> Option<ContractError> {
    if l.paused() {
        Some(ContractError::Paused)
    } else if l.sequence > params.deadline {
        Some(ContractError::DeadlineExceeded)
    } else if !followable(params.route@) {
        Some(ContractError::InvalidRoute)
    } else {
        None
    }
}

/// The end of a swap that is paid out: it is counted, and the pools on its way live on.
pub open spec fn swap_counted(
    l: Ledger,
    sender: Address,
    params: SwapParams,
    shares: Settlement,
) -> SwapOutcome {
    let end = l.bump_nonce(sender).add_volume(params.amount_in).refresh_pools(
        pools_of(params.route@),
    );
    SwapOutcome {
        ledger: end,
        events: end.ttl_warning().push(
            Event::SwapExecuted {
                sender,
                amount_in: params.amount_in,
                amount_out: shares.output,
                fee_amount: shares.fee,
                route: params.route@,
            },
        ),
        result: Ok(
            SwapResult {
                amount_in: params.amount_in,
                amount_out: shares.output,
                route: params.route,
                executed_at: l.sequence as u64,
            },
        ),
    }
}

/// The rest of a swap whose last pool answered `received`.
pub open spec fn swap_settled(
    l: Ledger,
    sender: Address,
    params: SwapParams,
    received: i128,
    replies: SwapReplies,
) -> SwapOutcome {
    let asset = params.route@.last().destination;
    match accepted(received, l.fee_rate(), params.min_amount_out) {
        Err(abort) => swap_failed(l, abort),
        Ok(shares) => {
            let (paid, payout_done) = l.transfer(
                asset,
                l.contract,
                params.recipient,
                shares.output,
                replies.payout,
            );
            if !payout_done || l.fee_to() is None {
                swap_failed(paid, Abort::Trap)
            } else {
                let (shared, fee_done) = paid.transfer(
                    asset,
                    l.contract,
                    l.fee_to()->0,
                    shares.fee,
                    replies.fee,
                );
                if !fee_done || l.nonce(sender) == i128::MAX {
                    swap_failed(shared, Abort::Trap)
                } else if !(i128::MIN <= l.volume() + params.amount_in <= i128::MAX) {
                    swap_failed(shared.bump_nonce(sender), Abort::Trap)
                } else {
                    swap_counted(shared, sender, params, shares)
                }
            }
        },
    }
}

/// A whole swap, where `replies` is what the other contracts answer.
pub open spec fn swap_outcome(
    l: Ledger,
    sender: Address,
    params: SwapParams,
    replies: SwapReplies,
) -> SwapOutcome {
    let begun = l.call(Call::Approval { by: sender });
    match swap_refusal(l, params) {
        Some(error) => swap_failed(begun, Abort::Error(error)),
        None => {
            let first = params.route@.first();
            let (deposited, deposit_done) = begun.transfer(
                first.source,
                sender,
                first.pool,
                params.amount_in,
                replies.deposit,
            );
            if !deposit_done {
                swap_failed(deposited, Abort::Trap)
            } else {
                let (walked, reached) = way_taken(
                    deposited,
                    params.route@,
                    "swap"@,
                    Some(0),
                    params.amount_in,
                    replies.pools,
                );
                match reached {
                    Ok(received) => swap_settled(walked, sender, params, received, replies),
                    Err(abort) => swap_failed(walked, abort),
                }
            }
        },
    }
}

/// Everything that the contract can be asked to do to the ledger. What other contracts answer in
/// the course of it is part of the request.
pub enum Operation {
    Initialize { admin: Address, fee_rate: u32, fee_to: Address },
    SetAdmin { new_admin: Address },
    RegisterPool { pool: Address },
    Pause,
    Unpause,
    Quote { amount_in: i128, route: Route, answers: Seq<Option<i128>> },
    Swap { sender: Address, params: SwapParams, replies: SwapReplies },
    ExtendStorageTtl,
}

impl Ledger {
    /// The ledger on which an entry point leaves off.
    pub open spec fn after(self, operation: Operation) -> Ledger {
        match operation {
            Operation::Initialize { admin, fee_rate, fee_to } => if self.initialized() || fee_rate
                > MAX_FEE_RATE {
                self
            } else {
                self.set_up(admin, fee_rate, fee_to)
            },
            Operation::SetAdmin { new_admin } => self.approved_by_admin().put_instance(
                StorageKey::Admin@,
                Datum::Account(new_admin),
            ),
            Operation::RegisterPool { pool } => if self.supports(pool) {
                self.approved_by_admin()
            } else {
                self.approved_by_admin().with_pool(pool)
            },
            Operation::Pause => self.approved_by_admin().put_instance(
                StorageKey::Paused@,
                Datum::Flag(true),
            ),
            Operation::Unpause => self.approved_by_admin().put_instance(
                StorageKey::Paused@,
                Datum::Flag(false),
            ),
            Operation::Quote { amount_in, route, answers } => quote_outcome(
                self,
                amount_in,
                route,
                answers,
            ).0,
            Operation::Swap { sender, params, replies } => swap_outcome(
                self,
                sender,
                params,
                replies,
            ).ledger,
            Operation::ExtendStorageTtl => self.refresh_all(),
        }
    }

    /// Whether an entry point can be run at all. Those of the administrator need one, and the
    /// number of pools has its limit.
    pub open spec fn permits(self, operation: Operation) -> bool {
        &&& self.wf()
        &&& match operation {
            Operation::SetAdmin { .. } | Operation::Pause | Operation::Unpause =>
                self.initialized(),
            Operation::RegisterPool { pool } => self.initialized() && (self.supports(pool) || (
            self.pool_count() < u32::MAX && self.pool_list().len() < u32::MAX)),
            _ => true,
        }
    }
}

// ---- Administration ----

impl StellarRoute {
    /// Sets the contract up, once.
    pub fn initialize(
        e: &mut Env,
        log: &mut EventLog,
        admin: Address,
        fee_rate: u32,
        fee_to: Address,
    ) -> (r: Result<(), ContractError>)
        requires
            ledger(*old(e)).ready(),
        ensures
            r == (if ledger(*old(e)).initialized() {
                Err(ContractError::AlreadyInitialized)
            } else if fee_rate > MAX_FEE_RATE {
                Err(ContractError::InvalidAmount)
            } else {
                Ok(())
            }),
            ledger(*final(e)) == ledger(*old(e)).after(
                Operation::Initialize { admin, fee_rate, fee_to },
            ),
            r is Ok ==> {
                &&& lifetime(*final(e)) == lifetime(*old(e)).extended(
                    INSTANCE_TTL_THRESHOLD,
                    INSTANCE_TTL_EXTEND_TO,
                    ledger(*old(e)).max_ttl,
                )
                &&& final(log)@ == old(log)@.push(Event::Initialized { admin, fee_rate })
            },
            r is Err ==> *final(e) == *old(e) && final(log)@ == old(log)@,
            ledger(*old(e)).wf() ==> ledger(*final(e)).wf(),
            authorized(*final(e)) == authorized(*old(e)),
    {
        if storage::is_initialized(e) {
            return Err(ContractError::AlreadyInitialized);
        }
        if fee_rate > MAX_FEE_RATE {
            return Err(ContractError::InvalidAmount);
        }
        storage::set_admin(e, &admin);
        storage::set_fee_rate(e, fee_rate);
        storage::set_fee_to(e, &fee_to);
        storage::set_paused(e, false);
        let now: u32 = host::sequence(e);
        storage::set_last_ttl_extension(e, now);
        log.emit(Event::Initialized { admin, fee_rate });
        storage::extend_instance_ttl(e);
        Ok(())
    }

    /// Hands the administration over. The administrator has to authorize it.
    pub fn set_admin(e: &mut Env, log: &mut EventLog, new_admin: Address) -> (r: Result<
        (),
        ContractError,
    >)
        requires
            ledger(*old(e)).wf(),
            ledger(*old(e)).initialized(),
            approves(*old(e), ledger(*old(e)).admin()),
        ensures
            r is Ok,
            ledger(*final(e)) == ledger(*old(e)).after(Operation::SetAdmin { new_admin }),
            ledger(*final(e)).wf(),
            renewed(lifetime(*old(e)), lifetime(*final(e)), ledger(*old(e)).max_ttl),
            final(log)@ == old(log)@.push(
                Event::AdminChanged { old_admin: ledger(*old(e)).admin(), new_admin },
            ),
    {
        let admin = storage::get_admin(e);
        host::require_auth(e, &admin);
        storage::set_admin(e, &new_admin);
        log.emit(Event::AdminChanged { old_admin: admin, new_admin });
        storage::extend_instance_ttl(e);
        Ok(())
    }

    /// Registers a pool, so that routes may lead through it. The administrator has to authorize
    /// it. A pool that is registered already is refused.
    pub fn register_pool(e: &mut Env, log: &mut EventLog, pool: Address) -> (r: Result<
        (),
        ContractError,
    >)
        requires
            approves(*old(e), ledger(*old(e)).admin()),
            ledger(*old(e)).permits(Operation::RegisterPool { pool }),
        ensures
            r == (if ledger(*old(e)).supports(pool) {
                Err(ContractError::PoolNotSupported)
            } else {
                Ok(())
            }),
            ledger(*final(e)) == ledger(*old(e)).after(Operation::RegisterPool { pool }),
            r is Ok ==> {
                &&& renewed(lifetime(*old(e)), lifetime(*final(e)), ledger(*old(e)).max_ttl)
                &&& final(log)@ == old(log)@.push(Event::PoolRegistered { pool })
            },
            r is Err ==> {
                &&& lifetime(*final(e)).follows(lifetime(*old(e)))
                &&& lifetime(*final(e)).as_found()
                &&& final(log)@ == old(log)@
            },
            ledger(*final(e)).wf(),
    {
        let admin = storage::get_admin(e);
        host::require_auth(e, &admin);
        if storage::is_supported_pool(e, pool.clone()) {
            return Err(ContractError::PoolNotSupported);
        }
        storage::support_pool(e, &pool);
        storage::extend_pool_ttl(e, &pool);
        let new_count: u32 = storage::get_pool_count(e) + 1;
        storage::set_pool_count(e, new_count);
        storage::add_to_pool_list(e, &pool);
        log.emit(Event::PoolRegistered { pool });
        storage::extend_instance_ttl(e);
        Ok(())
    }

    /// Suspends swaps. The administrator has to authorize it.
    pub fn pause(e: &mut Env, log: &mut EventLog) -> (r: Result<(), ContractError>)
        requires
            ledger(*old(e)).wf(),
            ledger(*old(e)).initialized(),
            approves(*old(e), ledger(*old(e)).admin()),
        ensures
            r is Ok,
            ledger(*final(e)) == ledger(*old(e)).after(Operation::Pause),
            ledger(*final(e)).wf(),
            renewed(lifetime(*old(e)), lifetime(*final(e)), ledger(*old(e)).max_ttl),
            final(log)@ == old(log)@.push(Event::Paused),
    {
        let admin = storage::get_admin(e);
        host::require_auth(e, &admin);
        storage::set_paused(e, true);
        log.emit(Event::Paused);
        storage::extend_instance_ttl(e);
        Ok(())
    }

    /// Lets swaps run again. The administrator has to authorize it.
    pub fn unpause(e: &mut Env, log: &mut EventLog) -> (r: Result<(), ContractError>)
        requires
            ledger(*old(e)).wf(),
            ledger(*old(e)).initialized(),
            approves(*old(e), ledger(*old(e)).admin()),
        ensures
            r is Ok,
            ledger(*final(e)) == ledger(*old(e)).after(Operation::Unpause),
            ledger(*final(e)).wf(),
            renewed(lifetime(*old(e)), lifetime(*final(e)), ledger(*old(e)).max_ttl),
            final(log)@ == old(log)@.push(Event::Unpaused),
    {
        let admin = storage::get_admin(e);
        host::require_auth(e, &admin);
        storage::set_paused(e, false);
        log.emit(Event::Unpaused);
        storage::extend_instance_ttl(e);
        Ok(())
    }
}

// ---- What anyone may ask ----

impl StellarRoute {
    pub fn version(_e: &Env) -> (r: u32)
        ensures
            r == CONTRACT_VERSION,
    {
        CONTRACT_VERSION
    }

    pub fn get_admin(e: &Env) -> (r: Result<Address, ContractError>)
        requires
            ledger(*e).wf(),
        ensures
            r == (if ledger(*e).initialized() {
                Ok(ledger(*e).admin())
            } else {
                Err(ContractError::NotInitialized)
            }),
    {
        if !storage::is_initialized(e) {
            return Err(ContractError::NotInitialized);
        }
        Ok(storage::get_admin(e))
    }

    pub fn get_fee_rate_value(e: &Env) -> (r: u32)
        requires
            ledger(*e).wf(),
        ensures
            r == ledger(*e).fee_rate(),
    {
        storage::get_fee_rate(e)
    }

    pub fn get_fee_to_address(e: &Env) -> (r: Result<Address, ContractError>)
        requires
            ledger(*e).wf(),
        ensures
            r == (match ledger(*e).fee_to() {
                Some(fee_to) => Ok(fee_to),
                None => Err(ContractError::NotInitialized),
            }),
    {
        match storage::get_fee_to_optional(e) {
            Some(fee_to) => Ok(fee_to),
            None => Err(ContractError::NotInitialized),
        }
    }

    pub fn is_paused(e: &Env) -> (r: bool)
        requires
            ledger(*e).wf(),
        ensures
            r == ledger(*e).paused(),
    {
        storage::get_paused(e)
    }

    pub fn get_pool_count(e: &Env) -> (r: u32)
        requires
            ledger(*e).wf(),
        ensures
            r == ledger(*e).pool_count(),
    {
        storage::get_pool_count(e)
    }

    pub fn is_pool_registered(e: &Env, pool: Address) -> (r: bool)
        requires
            ledger(*e).ready(),
        ensures
            r == ledger(*e).supports(pool),
    {
        storage::is_supported_pool(e, pool)
    }

    /// The sum of what went into all swaps.
    pub fn get_total_swap_volume(e: &Env) -> (r: i128)
        requires
            ledger(*e).wf(),
        ensures
            r == ledger(*e).volume(),
    {
        storage::get_total_swap_volume(e)
    }

    pub fn require_not_paused(e: &Env) -> (r: Result<(), ContractError>)
        requires
            ledger(*e).wf(),
        ensures
            r == (if ledger(*e).paused() {
                Err(ContractError::Paused)
            } else {
                Ok(())
            }),
    {
        if storage::get_paused(e) {
            return Err(ContractError::Paused);
        }
        Ok(())
    }
}

// ---- Quotes and swaps ----

/// The quote for a route whose last pool answered `received`.
pub fn quote_for(received: i128, fee_rate: u32, sequence: u32, route: Route) -> (r: Result<
    QuoteResult,
    Abort,
>)
    requires
        route@.len() <= MAX_HOPS,
    ensures
        r == quoted(received, fee_rate, sequence, route),
{
    match (fees::settle(received, fee_rate), sequence.checked_add(QUOTE_LIFETIME)) {
        (Some(shares), Some(valid_until)) => {
            let hops: u32 = route.hops.len() as u32;
            Ok(
                QuoteResult {
                    expected_output: shares.output,
                    price_impact_bps: hops * IMPACT_PER_HOP_BPS,
                    fee_amount: shares.fee,
                    route,
                    valid_until: valid_until as u64,
                },
            )
        },
        _ => Err(Abort::Trap),
    }
}

/// Shares out the answer of the last pool, unless too little of it is left.
pub fn accept(received: i128, fee_rate: u32, min_amount_out: i128) -> (r: Result<Settlement, Abort>)
    ensures
        r == accepted(received, fee_rate, min_amount_out),
{
    match fees::settle(received, fee_rate) {
        Some(shares) => if shares.output < min_amount_out {
            Err(Abort::Error(ContractError::SlippageExceeded))
        } else {
            Ok(shares)
        },
        None => Err(Abort::Trap),
    }
}

/// Extends the TTLs of the pools on a way.
fn extend_way_ttl(e: &mut Env, hops: &Vec<Hop>)
    requires
        ledger(*old(e)).ready(),
    ensures
        ledger(*final(e)) == ledger(*old(e)).refresh_pools(pools_of(hops@)),
        lifetime(*final(e)) == lifetime(*old(e)),
        authorized(*final(e)) == authorized(*old(e)),
{
    let n: usize = hops.len();
    let mut i: usize = 0;
    assert(pools_of(hops@).take(0) =~= Seq::<Address>::empty());
    while i < n
        invariant
            n == hops@.len(),
            i <= n,
            ledger(*e).ready(),
            ledger(*e) == ledger(*old(e)).refresh_pools(pools_of(hops@).take(i as int)),
            lifetime(*e) == lifetime(*old(e)),
            authorized(*e) == authorized(*old(e)),
        decreases n - i,
    {
        storage::extend_pool_ttl(e, &hops[i].pool);
        i = i + 1;
        assert(pools_of(hops@).take(i as int).drop_last() =~= pools_of(hops@).take(i - 1));
    }
    assert(pools_of(hops@).take(n as int) =~= pools_of(hops@));
}

/// The rest of a swap whose last pool answered `received`: the fee is taken, the rest is paid out
/// unless it is too little, and the swap is counted.
fn settle_swap(
    e: &mut Env,
    log: &mut EventLog,
    sender: Address,
    params: SwapParams,
    received: i128,
) -> (r: (Result<SwapResult, Abort>, Ghost<SwapReplies>))
    requires
        ledger(*old(e)).wf(),
        lifetime(*old(e)).as_found(),
        followable(params.route@),
    ensures
        ({
            let outcome = swap_settled(ledger(*old(e)), sender, params, received, r.1@);
            &&& r.0 == outcome.result
            &&& ledger(*final(e)) == outcome.ledger
            &&& final(log)@ == old(log)@ + outcome.events
        }),
        ledger(*final(e)).wf(),
        r.0 is Err ==> {
            &&& lifetime(*final(e)).follows(lifetime(*old(e)))
            &&& lifetime(*final(e)).as_found()
        },
        r.0 is Ok ==> renewed(
            lifetime(*old(e)),
            lifetime(*final(e)),
            ledger(*old(e)).max_ttl,
        ),
{
    let ghost start = ledger(*e);
    let ghost mut replies = SwapReplies {
        deposit: true,
        pools: Seq::empty(),
        payout: false,
        fee: false,
    };
    assert(log@ + Seq::<Event<Seq<Hop>>>::empty() =~= log@);
    let shares = match accept(received, storage::get_fee_rate(e), params.min_amount_out) {
        Ok(shares) => shares,
        Err(abort) => {
            return (Err(abort), Ghost(replies));
        },
    };
    let contract = host::current_contract(e);
    let last = &params.route.hops[params.route.hops.len() - 1];
    let payout = storage::transfer_asset(
        e,
        &last.destination,
        &contract,
        &params.recipient,
        shares.output,
    );
    proof {
        replies = SwapReplies { payout: payout is Ok, ..replies };
    }
    if payout.is_err() {
        return (Err(Abort::Trap), Ghost(replies));
    }
    let fee_to = match storage::get_fee_to_optional(e) {
        Some(fee_to) => fee_to,
        None => {
            return (Err(Abort::Trap), Ghost(replies));
        },
    };
    let fee = storage::transfer_asset(e, &last.destination, &contract, &fee_to, shares.fee);
    proof {
        replies = SwapReplies { fee: fee is Ok, ..replies };
    }
    if fee.is_err() {
        return (Err(Abort::Trap), Ghost(replies));
    }
    if storage::get_nonce(e, sender.clone()) == i128::MAX {
        return (Err(Abort::Trap), Ghost(replies));
    }
    storage::increment_nonce(e, sender.clone());
    proof {
        storage::nonce_is_apart(start, sender);
    }
    if storage::get_total_swap_volume(e).checked_add(params.amount_in).is_none() {
        return (Err(Abort::Trap), Ghost(replies));
    }
    storage::add_swap_volume(e, params.amount_in);
    let ghost counted = ledger(*e);
    extend_way_ttl(e, &params.route.hops);
    proof {
        refresh_pools_only_ttl(counted, pools_of(params.route@));
    }
    storage::extend_instance_ttl(e);
    StellarRoute::check_ttl_health(e, log);
    log.emit(
        Event::SwapExecuted {
            sender,
            amount_in: params.amount_in,
            amount_out: shares.output,
            fee_amount: shares.fee,
            route: params.route.duplicate(),
        },
    );
    let executed_at: u64 = host::sequence(e) as u64;
    (
        Ok(
            SwapResult {
                amount_in: params.amount_in,
                amount_out: shares.output,
                route: params.route,
                executed_at,
            },
        ),
        Ghost(replies),
    )
}

impl StellarRoute {
    /// What a swap would bring, as far as the pools can tell.
    pub fn get_quote(e: &mut Env, amount_in: i128, route: Route) -> (r: Result<QuoteResult, Abort>)
        requires
            ledger(*old(e)).wf(),
        ensures
            exists|replies: Seq<Option<i128>>|
                (ledger(*final(e)), r) == #[trigger] quote_outcome(
                    ledger(*old(e)),
                    amount_in,
                    route,
                    replies,
                ),
            ledger(*final(e)).wf(),
            only_called(*old(e), *final(e)),
    {
        let ghost none: Seq<Option<i128>> = Seq::empty();
        if amount_in <= 0 || route.hops.len() == 0 || route.hops.len() > MAX_HOPS {
            assert((ledger(*e), Err::<QuoteResult, Abort>(Abort::Error(ContractError::InvalidRoute)))
                == quote_outcome(ledger(*old(e)), amount_in, route, none));
            return Err(Abort::Error(ContractError::InvalidRoute));
        }
        proof {
            reveal_strlit("adapter_quote");
        }
        let (reached, Ghost(replies)) = route::take_way(
            e,
            &route.hops,
            "adapter_quote",
            None,
            amount_in,
        );
        proof {
            route::way_taken_only_calls(
                ledger(*old(e)),
                route@,
                "adapter_quote"@,
                None,
                amount_in,
                replies,
            );
        }
        let r = match reached {
            Ok(received) => quote_for(received, storage::get_fee_rate(e), host::sequence(e), route),
            Err(abort) => Err(abort),
        };
        assert((ledger(*e), r) == quote_outcome(ledger(*old(e)), amount_in, route, replies));
        r
    }

    /// Swaps along a route. The sender has to authorize it.
    pub fn execute_swap(e: &mut Env, log: &mut EventLog, sender: Address, params: SwapParams) -> (r:
        Result<SwapResult, Abort>)
        requires
            ledger(*old(e)).wf(),
            approves(*old(e), sender),
        ensures
            exists|replies: SwapReplies|
                ({
                    let outcome = #[trigger] swap_outcome(
                        ledger(*old(e)),
                        sender,
                        params,
                        replies,
                    );
                    &&& r == outcome.result
                    &&& ledger(*final(e)) == outcome.ledger
                    &&& final(log)@ == old(log)@ + outcome.events
                }),
            ledger(*final(e)).wf(),
            r is Err ==> {
                &&& lifetime(*final(e)).follows(lifetime(*old(e)))
                &&& lifetime(*final(e)).as_found()
            },
            r is Ok ==> renewed(
                lifetime(*old(e)),
                lifetime(*final(e)),
                ledger(*old(e)).max_ttl,
            ),
    {
        let ghost start = ledger(*e);
        let ghost mut replies = SwapReplies {
            deposit: false,
            pools: Seq::empty(),
            payout: false,
            fee: false,
        };
        assert(log@ + Seq::<Event<Seq<Hop>>>::empty() =~= log@);
        host::require_auth(e, &sender);
        if let Err(error) = StellarRoute::require_not_paused(e) {
            assert(swap_outcome(start, sender, params, replies).ledger == ledger(*e));
            return Err(Abort::Error(error));
        }
        if host::sequence(e) as u64 > params.deadline {
            assert(swap_outcome(start, sender, params, replies).ledger == ledger(*e));
            return Err(Abort::Error(ContractError::DeadlineExceeded));
        }
        if params.route.hops.len() == 0 || params.route.hops.len() > MAX_HOPS {
            assert(swap_outcome(start, sender, params, replies).ledger == ledger(*e));
            return Err(Abort::Error(ContractError::InvalidRoute));
        }
        let first = &params.route.hops[0];
        let deposit = storage::transfer_asset(
            e,
            &first.source,
            &sender,
            &first.pool,
            params.amount_in,
        );
        proof {
            replies = SwapReplies { deposit: deposit is Ok, ..replies };
        }
        if let Err(abort) = deposit {
            assert(swap_outcome(start, sender, params, replies).ledger == ledger(*e));
            return Err(abort);
        }
        let ghost deposited = ledger(*e);
        proof {
            reveal_strlit("swap");
        }
        let (reached, Ghost(answers)) = route::take_way(
            e,
            &params.route.hops,
            "swap",
            Some(0),
            params.amount_in,
        );
        proof {
            replies = SwapReplies { pools: answers, ..replies };
            route::way_taken_only_calls(
                deposited,
                params.route@,
                "swap"@,
                Some(0),
                params.amount_in,
                answers,
            );
        }
        match reached {
            Ok(received) => {
                let ghost walked = ledger(*e);
                let (r, Ghost(rest)) = settle_swap(e, log, sender, params, received);
                proof {
                    replies = SwapReplies { payout: rest.payout, fee: rest.fee, ..replies };
                    assert(swap_settled(walked, sender, params, received, rest) == swap_settled(
                        walked,
                        sender,
                        params,
                        received,
                        replies,
                    ));
                    assert(swap_outcome(start, sender, params, replies).ledger == ledger(*e));
                }
                r
            },
            Err(abort) => {
                assert(swap_outcome(start, sender, params, replies).ledger == ledger(*e));
                Err(abort)
            },
        }
    }
}

// ---- TTLs ----

impl StellarRoute {
    /// Extends the TTLs of the instance, of every pool in the list, and of the swap volume.
    /// Anyone may ask for it: keeping the contract alive is a public good.
    pub fn extend_storage_ttl(e: &mut Env, log: &mut EventLog)
        requires
            ledger(*old(e)).wf(),
        ensures
            ledger(*final(e)) == ledger(*old(e)).after(Operation::ExtendStorageTtl),
            ledger(*final(e)).wf(),
            lifetime(*final(e)) == lifetime(*old(e)).extended(
                INSTANCE_TTL_THRESHOLD,
                INSTANCE_TTL_EXTEND_TO,
                ledger(*old(e)).max_ttl,
            ),
            authorized(*final(e)) == authorized(*old(e)),
            final(log)@ == old(log)@.push(
                Event::TtlExtended {
                    pools_extended: ledger(*old(e)).pool_list().len() as u32,
                    ledger: ledger(*old(e)).sequence,
                },
            ),
    {
        storage::extend_instance_ttl(e);
        let pool_list = storage::get_pool_list(e);
        let ghost pools = listed(pool_list);
        let pools_extended: u32 = host::list_len(&pool_list);
        let mut i: u32 = 0;
        assert(pools.take(0) =~= Seq::<Address>::empty());
        while i < pools_extended
            invariant
                pools == listed(pool_list),
                of_addresses(pool_list),
                pools_extended == pools.len(),
                i <= pools_extended,
                ledger(*old(e)).wf(),
                ledger(*e) == ledger(*old(e)).refresh_pools(pools.take(i as int)),
                ledger(*e) == (Ledger { ttl: ledger(*e).ttl, ..ledger(*old(e)) }),
                lifetime(*e) == lifetime(*old(e)).extended(
                    INSTANCE_TTL_THRESHOLD,
                    INSTANCE_TTL_EXTEND_TO,
                    ledger(*old(e)).max_ttl,
                ),
                authorized(*e) == authorized(*old(e)),
            decreases pools_extended - i,
        {
            let pool = host::list_get(&pool_list, i).unwrap();
            storage::extend_pool_ttl(e, &pool);
            i = i + 1;
            assert(pools.take(i as int).drop_last() =~= pools.take(i - 1));
        }
        assert(pools.take(pools_extended as int) =~= pools);
        storage::extend_volume_ttl(e);
        let now: u32 = host::sequence(e);
        storage::set_last_ttl_extension(e, now);
        log.emit(Event::TtlExtended { pools_extended, ledger: now });
    }

    /// How long the storage is estimated to live, going by when its TTLs were last extended.
    pub fn get_ttl_status(e: &Env) -> (r: TTLStatus)
        requires
            ledger(*e).wf(),
        ensures
            r == ledger(*e).ttl_status(),
    {
        let current_ledger: u32 = host::sequence(e);
        let last_extended: u32 = storage::get_last_ttl_extension(e);
        let elapsed: u32 = current_ledger.saturating_sub(last_extended);
        let instance_remaining: u64 = INSTANCE_TTL_EXTEND_TO.saturating_sub(elapsed) as u64;
        let pools_remaining: u64 = POOL_TTL_EXTEND_TO.saturating_sub(elapsed) as u64;
        let needs_extension = instance_remaining < INSTANCE_TTL_THRESHOLD as u64 || pools_remaining
            < POOL_TTL_THRESHOLD as u64;
        TTLStatus {
            instance_ttl_remaining: instance_remaining,
            pools_min_ttl: pools_remaining,
            needs_extension,
            last_extended_ledger: last_extended,
        }
    }

    /// Warns where the pools are estimated to run out.
    pub fn check_ttl_health(e: &Env, log: &mut EventLog)
        requires
            ledger(*e).wf(),
        ensures
            final(log)@ == old(log)@ + ledger(*e).ttl_warning(),
    {
        let last_extended: u32 = storage::get_last_ttl_extension(e);
        if last_extended == 0 {
            assert(log@ =~= log@ + ledger(*e).ttl_warning());
            return;
        }
        let elapsed: u32 = host::sequence(e).saturating_sub(last_extended);
        let pools_remaining: u32 = POOL_TTL_EXTEND_TO.saturating_sub(elapsed);
        if pools_remaining < POOL_TTL_THRESHOLD {
            log.emit(
                Event::TtlWarning {
                    remaining: pools_remaining as u64,
                    threshold: POOL_TTL_THRESHOLD,
                },
            );
        }
        assert(log@ =~= old(log)@ + ledger(*e).ttl_warning());
    }
}

} // verus!
