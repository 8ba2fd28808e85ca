use stellar_route::errors::{Abort, ContractError};
use stellar_route::fees::{settle, Settlement};
use stellar_route::router::{accept, quote_for};
use stellar_route::types::Route;

fn empty_route() -> Route {
    Route { hops: Vec::new() }
}

#[test]
fn fee_is_the_share_at_the_rate() {
    assert_eq!(settle(1_000_000, 30), Some(Settlement { fee: 3_000, output: 997_000 }));
    assert_eq!(settle(1_000_000, 1000), Some(Settlement { fee: 100_000, output: 900_000 }));
}

#[test]
fn fee_is_rounded_toward_zero() {
    assert_eq!(settle(333, 30), Some(Settlement { fee: 0, output: 333 }));
    assert_eq!(settle(334, 30), Some(Settlement { fee: 1, output: 333 }));
    assert_eq!(settle(-333, 30), Some(Settlement { fee: 0, output: -333 }));
    assert_eq!(settle(-20_001, 1000), Some(Settlement { fee: -2_000, output: -18_001 }));
}

#[test]
fn rate_zero_keeps_nothing() {
    assert_eq!(settle(i128::MAX, 0), Some(Settlement { fee: 0, output: i128::MAX }));
    assert_eq!(settle(0, 1000), Some(Settlement { fee: 0, output: 0 }));
}

#[test]
fn product_that_does_not_fit_is_refused() {
    assert_eq!(settle(i128::MAX, 2), None);
    assert_eq!(settle(i128::MIN, 2), None);
    assert_eq!(settle(i128::MAX / 1000 + 1, 1000), None);
    assert!(settle(i128::MAX / 1000, 1000).is_some());
}

#[test]
fn shares_add_up_to_the_amount() {
    for amount in [0i128, 1, 9, 10, 9_999, 10_000, 10_001, 123_456_789, -77_777] {
        for rate in [0u32, 1, 30, 999, 1000, 12_345] {
            let shares = settle(amount, rate).unwrap();
            assert_eq!(shares.fee + shares.output, amount);
        }
    }
}

#[test]
fn fee_never_exceeds_a_tenth() {
    for amount in [0i128, 1, 10, 99, 101, 5_000_000] {
        let shares = settle(amount, 1000).unwrap();
        assert!(shares.fee * 10 <= amount);
        assert!(shares.output * 10 >= amount * 9);
    }
}

#[test]
fn more_in_is_not_less_out() {
    let mut last: i128 = 0;
    for amount in 0..2_000i128 {
        let output = settle(amount, 777).unwrap().output;
        assert!(output >= last);
        last = output;
    }
}

#[test]
fn output_below_the_minimum_is_refused() {
    assert_eq!(accept(1_000, 100, 990), Ok(Settlement { fee: 10, output: 990 }));
    assert_eq!(accept(1_000, 100, 991), Err(Abort::Error(ContractError::SlippageExceeded)));
    assert_eq!(accept(i128::MAX, 100, 0), Err(Abort::Trap));
}

#[test]
fn quote_counts_ledgers_from_now() {
    let quote = quote_for(10_000, 100, 500, empty_route()).unwrap();
    assert_eq!(quote.expected_output, 9_900);
    assert_eq!(quote.fee_amount, 100);
    assert_eq!(quote.price_impact_bps, 0);
    assert_eq!(quote.valid_until, 620);
    assert!(quote.route.hops.is_empty());
}

#[test]
fn quote_that_cannot_be_held_traps() {
    assert!(matches!(quote_for(i128::MAX, 2, 0, empty_route()), Err(Abort::Trap)));
    assert!(matches!(quote_for(1, 0, u32::MAX - 119, empty_route()), Err(Abort::Trap)));
    let last = quote_for(1, 0, u32::MAX - 120, empty_route()).unwrap();
    assert_eq!(last.valid_until, u32::MAX as u64);
}
