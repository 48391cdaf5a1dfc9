use exchange_rate::aggregate::{
    aggregate, aggregate_with, balance, count_successes, needs_eviction, partition,
};
use exchange_rate::decimal::Price;
use exchange_rate::median::{median, sort_prices};
use exchange_rate::quote::Quote;
use exchange_rate::routing::{ExchangePair, USD_NUMERIC};
use rust_decimal::Decimal;

fn price(n: i128) -> Price {
    Price::new(n, 0).unwrap()
}

fn value(p: Price) -> Decimal {
    Decimal::from_i128_with_scale(p.mantissa, p.scale)
}

fn quote(n: i128) -> Quote {
    Quote::new(price(n), price(n)).unwrap()
}

fn ok(n: i128) -> Result<Quote, u32> {
    Ok(quote(n))
}

#[test]
fn even_others_with_held_out_are_kept() {
    let others = vec![ok(100), ok(102), ok(104), ok(98)];
    let r = aggregate(others, ok(101)).unwrap();
    assert_eq!(value(r), Decimal::from(101));
    for evict in 0..4 {
        let others = vec![ok(100), ok(102), ok(104), ok(98)];
        let r = aggregate_with(others, ok(101), evict).unwrap();
        assert_eq!(value(r), Decimal::from(101));
    }
    let set = balance(vec![price(100), price(102), price(104), price(98)], Some(price(101)), 0);
    assert_eq!(set.len(), 5);
}

#[test]
fn all_venues_fail() {
    let others: Vec<Result<Quote, u32>> = vec![Err(1), Err(2), Err(3), Err(4), Err(5)];
    assert_eq!(aggregate(others, Err(6)), Err(1));
    let others: Vec<Result<Quote, u32>> = vec![Err(1), Err(2), Err(3), Err(4), Err(5)];
    assert_eq!(aggregate_with(others, Err(6), 0), Err(1));
}

#[test]
fn held_out_error_surfaces_when_it_is_the_only_one() {
    let others: Vec<Result<Quote, u32>> = vec![];
    assert_eq!(aggregate(others, Err(9)), Err(9));
}

#[test]
fn held_out_fails_with_odd_others() {
    let others = vec![ok(100), ok(102), ok(104)];
    let r = aggregate(others, Err(7)).unwrap();
    assert_eq!(value(r), Decimal::from(102));
}

#[test]
fn unsupported_currency_has_no_pair() {
    assert_eq!(ExchangePair::get(978), None);
    assert_eq!(ExchangePair::get(0), None);
    assert_eq!(ExchangePair::get(USD_NUMERIC), Some(ExchangePair::Usd));
    assert_eq!(ExchangePair::get(840), Some(ExchangePair::Usd));
}

#[test]
fn venue_symbols() {
    let pair = ExchangePair::Usd;
    assert_eq!(pair.binance(), "ZECUSDT");
    assert_eq!(pair.coinbase(), "ZEC-USD");
    assert_eq!(pair.gate_io(), "ZEC_USDT");
    assert_eq!(pair.gemini(), "zecusd");
    assert_eq!(pair.ku_coin(), "ZEC-USDT");
    assert_eq!(pair.mexc(), "ZECUSDT");
}

#[test]
fn random_eviction_is_uniform() {
    // Held-out succeeds and three others succeed: one of the three is evicted,
    // and the median of {a, b, 10} reveals which one went.
    let trials = 3000;
    let mut evicted_three = 0;
    for _ in 0..trials {
        let others = vec![ok(1), ok(2), ok(3)];
        let r = value(aggregate(others, ok(10)).unwrap());
        if r == Decimal::from(2) {
            evicted_three += 1;
        } else {
            assert_eq!(r, Decimal::from(3));
        }
    }
    assert!(evicted_three > 850 && evicted_three < 1150, "{}", evicted_three);
}

#[test]
fn random_eviction_reaches_every_position() {
    // Held-out fails and four others succeed: one of the four is evicted.
    let mut seen = [0u32; 4];
    for _ in 0..2000 {
        let others = vec![ok(1), ok(2), ok(3), ok(4)];
        let r = value(aggregate(others, Err(0)).unwrap());
        if r == Decimal::from(2) {
            // 3 or 4 evicted
            seen[2] += 1;
        } else {
            // 1 or 2 evicted
            assert_eq!(r, Decimal::from(3));
            seen[0] += 1;
        }
    }
    assert!(seen[0] > 800 && seen[0] < 1200);
    assert!(seen[2] > 800 && seen[2] < 1200);
}

#[test]
fn eviction_by_index_is_exact() {
    let others = vec![ok(1), ok(2), ok(3), ok(4)];
    assert_eq!(value(aggregate_with(others, Err(0), 0).unwrap()), Decimal::from(3));
    let others = vec![ok(1), ok(2), ok(3), ok(4)];
    assert_eq!(value(aggregate_with(others, Err(0), 3).unwrap()), Decimal::from(2));
    let others = vec![ok(1), ok(2), ok(3)];
    assert_eq!(value(aggregate_with(others, ok(10), 2).unwrap()), Decimal::from(2));
    let others = vec![ok(1), ok(2), ok(3)];
    assert_eq!(value(aggregate_with(others, ok(10), 0).unwrap()), Decimal::from(3));
}

#[test]
fn parity_matrix() {
    assert!(!needs_eviction(0, true));
    assert!(needs_eviction(1, true));
    assert!(!needs_eviction(2, true));
    assert!(needs_eviction(5, true));
    assert!(!needs_eviction(0, false));
    assert!(!needs_eviction(1, false));
    assert!(needs_eviction(2, false));
    assert!(!needs_eviction(5, false));
    assert!(needs_eviction(4, false));
}

#[test]
fn balance_sizes() {
    assert_eq!(balance(vec![], None, 0).len(), 0);
    assert_eq!(balance(vec![], Some(price(1)), 0), vec![price(1)]);
    assert_eq!(balance(vec![price(5)], Some(price(1)), 0), vec![price(1)]);
    assert_eq!(balance(vec![price(5)], None, 0), vec![price(5)]);
    assert_eq!(balance(vec![price(5), price(6)], None, 1), vec![price(5)]);
    assert_eq!(
        balance(vec![price(5), price(6)], Some(price(1)), 0),
        vec![price(5), price(6), price(1)]
    );
    assert_eq!(
        balance(vec![price(5), price(6), price(7)], Some(price(1)), 1),
        vec![price(5), price(7), price(1)]
    );
}

#[test]
fn only_held_out_succeeds() {
    let others: Vec<Result<Quote, u32>> = vec![Err(1), Err(2)];
    assert_eq!(value(aggregate(others, ok(42)).unwrap()), Decimal::from(42));
}

#[test]
fn single_other_succeeds() {
    let others: Vec<Result<Quote, u32>> = vec![Err(1), ok(17), Err(2)];
    assert_eq!(value(aggregate(others, Err(3)).unwrap()), Decimal::from(17));
}

#[test]
fn partition_keeps_order() {
    let outcomes: Vec<Result<Quote, u32>> = vec![ok(3), Err(1), ok(1), Err(2), ok(2)];
    assert_eq!(count_successes(&outcomes), 3);
    let (prices, errors) = partition(outcomes);
    assert_eq!(prices, vec![price(3), price(1), price(2)]);
    assert_eq!(errors, vec![1, 2]);
}

#[test]
fn median_is_middle_not_average() {
    let m = median(&vec![price(1), price(2), price(10), price(20), price(30)]);
    assert_eq!(value(m), Decimal::from(10));
    let m = median(&vec![price(5), price(1), price(3)]);
    assert_eq!(value(m), Decimal::from(3));
    let m = median(&vec![price(7)]);
    assert_eq!(value(m), Decimal::from(7));
}

#[test]
fn median_is_order_independent() {
    let a = vec![price(9), price(4), price(6), price(1), price(8)];
    let b = vec![price(1), price(8), price(9), price(6), price(4)];
    let c = vec![price(8), price(6), price(4), price(9), price(1)];
    assert_eq!(value(median(&a)), Decimal::from(6));
    assert_eq!(value(median(&b)), Decimal::from(6));
    assert_eq!(value(median(&c)), Decimal::from(6));
}

#[test]
fn median_with_equal_values() {
    let m = median(&vec![price(4), price(4), price(4)]);
    assert_eq!(value(m), Decimal::from(4));
    let m = median(&vec![price(4), price(1), price(4)]);
    assert_eq!(value(m), Decimal::from(4));
}

#[test]
fn sort_orders_by_value_across_scales() {
    // 1.5, 2, 1.00, 0.3
    let ps = vec![
        Price::new(15, 1).unwrap(),
        Price::new(2, 0).unwrap(),
        Price::new(100, 2).unwrap(),
        Price::new(3, 1).unwrap(),
    ];
    let sorted = sort_prices(&ps);
    let values: Vec<Decimal> = sorted.into_iter().map(value).collect();
    assert_eq!(
        values,
        vec![
            Decimal::new(3, 1),
            Decimal::new(100, 2),
            Decimal::new(15, 1),
            Decimal::from(2)
        ]
    );
    let m = median(&vec![ps[0], ps[1], ps[2]]);
    assert_eq!(m, Price::new(15, 1).unwrap());
}

#[test]
fn quote_mid_price() {
    let q = Quote::new(price(1), price(2)).unwrap();
    assert_eq!(value(q.price()), Decimal::new(15, 1));
    assert_eq!(q.bid(), price(1));
    assert_eq!(q.ask(), price(2));
    let q = Quote::new(Price::new(4125, 2).unwrap(), Price::new(4127, 2).unwrap()).unwrap();
    assert_eq!(value(q.price()), Decimal::new(4126, 2));
    let q = Quote::new(price(100), price(102)).unwrap();
    assert_eq!(value(q.price()), Decimal::from(101));
}

#[test]
fn quote_rejects_overflowing_mid_price() {
    let max = Price::new(0xFFFF_FFFF_FFFF_FFFF_FFFF_FFFF, 0).unwrap();
    assert_eq!(Quote::new(max, max), None);
}

#[test]
fn price_bounds() {
    assert!(Price::new(1, 28).is_some());
    assert!(Price::new(1, 29).is_none());
    assert!(Price::new(0xFFFF_FFFF_FFFF_FFFF_FFFF_FFFF, 0).is_some());
    assert!(Price::new(0x1_0000_0000_0000_0000_0000_0000, 0).is_none());
    assert!(Price::new(-0x1_0000_0000_0000_0000_0000_0000, 0).is_none());
}
