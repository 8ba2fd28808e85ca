//! The contract's share of a swap.

use vstd::prelude::*;

verus! {

/// How many parts of an amount the fee rate is counted in.
pub const FEE_PARTS: i128 = 10000;

/// The highest fee rate that the contract can be set up with: a tenth of the amount.
pub const MAX_FEE_RATE: u32 = 1000;

/// The fee on an amount: its share at the rate, rounded toward zero.
pub open spec fn fee_on(amount: int, rate: int) -> int {
    if amount >= 0 {
        (amount * rate) / 10000
    } else {
        -((-amount * rate) / 10000)
    }
}

/// Whether the fee on an amount can be computed.
pub open spec fn fee_fits(amount: i128, rate: u32) -> bool {
    i128::MIN <= amount * rate <= i128::MAX
}

/// How an amount is shared out: what the contract keeps, and what is left.
#[derive(Clone, Copy, Debug, PartialEq, Eq, Structural)]
pub struct Settlement {
    pub fee: i128,
    pub output: i128,
}

/// Shares out an amount at a rate, if the product of the two can be held.
pub fn settle(amount: i128, rate: u32) -> (r: Option<Settlement>)
    ensures
        r is Some <==> fee_fits(amount, rate),
        r is Some ==> r->0.fee == fee_on(amount as int, rate as int),
        r is Some ==> r->0.output == amount - fee_on(amount as int, rate as int),
{
    match amount.checked_mul(rate as i128) {
        Some(share) => {
            proof {
                assert((amount >= 0 ==> share >= 0) && (amount < 0 ==> share <= 0)
                    && -amount * rate == -share) by (nonlinear_arith)
                    requires
                        share == amount * rate,
                        rate >= 0,
                ;
            }
            let fee: i128 = share / FEE_PARTS;
            Some(Settlement { fee, output: amount - fee })
        },
        None => None,
    }
}

} // verus!
