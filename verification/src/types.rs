//! The values that the entry points take and return.

use soroban_sdk::Address;
use vstd::prelude::*;

verus! {

/// What is exchanged: the native asset, or a token of a Soroban contract.
#[derive(Debug)]
pub enum Asset {
    Native,
    Soroban(Address),
}

/// One exchange on the way of a swap: `pool` takes `source` and gives `destination`.
#[derive(Debug)]
pub struct Hop {
    pub source: Asset,
    pub destination: Asset,
    pub pool: Address,
}

/// The way of a swap, first hop first.
#[derive(Debug)]
pub struct Route {
    pub hops: Vec<Hop>,
}

impl View for Route {
    type V = Seq<Hop>;

    open spec fn view(&self) -> Seq<Hop> {
        self.hops@
    }
}

impl Asset {
    /// A copy of the asset.
    pub fn duplicate(&self) -> (r: Asset)
        ensures
            r == *self,
    {
        match self {
            Asset::Native => Asset::Native,
            Asset::Soroban(token) => Asset::Soroban(token.clone()),
        }
    }
}

impl Hop {
    /// A copy of the hop.
    pub fn duplicate(&self) -> (r: Hop)
        ensures
            r == *self,
    {
        Hop {
            source: self.source.duplicate(),
            destination: self.destination.duplicate(),
            pool: self.pool.clone(),
        }
    }
}

impl Route {
    /// A copy of the route.
    pub fn duplicate(&self) -> (r: Route)
        ensures
            r@ == self@,
    {
        let mut hops: Vec<Hop> = Vec::new();
        let n: usize = self.hops.len();
        let mut i: usize = 0;
        while i < n
            invariant
                n == self.hops@.len(),
                i <= n,
                hops@ == self.hops@.take(i as int),
            decreases n - i,
        {
            hops.push(self.hops[i].duplicate());
            i = i + 1;
            assert(hops@ =~= self.hops@.take(i as int));
        }
        assert(self.hops@.take(n as int) =~= self.hops@);
        Route { hops }
    }
}

/// The answer to a request for a quote.
#[derive(Debug)]
pub struct QuoteResult {
    pub expected_output: i128,
    pub price_impact_bps: u32,
    pub fee_amount: i128,
    pub route: Route,
    pub valid_until: u64,
}

/// What a swap is to do.
#[derive(Debug)]
pub struct SwapParams {
    pub route: Route,
    pub amount_in: i128,
    pub min_amount_out: i128,
    pub recipient: Address,
    pub deadline: u64,
}

/// What a swap did.
#[derive(Debug)]
pub struct SwapResult {
    pub amount_in: i128,
    pub amount_out: i128,
    pub route: Route,
    pub executed_at: u64,
}

/// How long the contract's storage is estimated to live.
#[derive(Debug)]
pub struct TTLStatus {
    pub instance_ttl_remaining: u64,
    pub pools_min_ttl: u64,
    pub needs_extension: bool,
    pub last_extended_ledger: u32,
}

} // verus!
