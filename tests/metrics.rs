use orderbook::book::{
    compute_metrics, normalize_to_depths, top_volume, PriceLevel, Ratio, Side, SCALE,
};

fn lvl(price: f64, quantity: f64) -> PriceLevel {
    PriceLevel {
        price: (price * SCALE as f64).round() as u64,
        quantity: (quantity * SCALE as f64).round() as u64,
    }
}

fn value(r: Ratio) -> f64 {
    r.num as f64 / r.den as f64
}

fn scenario_book() -> (Vec<PriceLevel>, Vec<PriceLevel>) {
    (
        vec![lvl(100.0, 1.0), lvl(99.0, 2.0)],
        vec![lvl(101.0, 1.0), lvl(102.0, 2.0)],
    )
}

#[test]
fn scenario_a_metrics() {
    let (bids, asks) = scenario_book();
    let m = compute_metrics(&bids, &asks);
    assert_eq!(value(m.mid_price), 100.5);
    assert_eq!(value(m.spread), 1.0);
    assert_eq!(top_volume(&bids), 3 * SCALE as u128);
    assert_eq!(top_volume(&asks), 3 * SCALE as u128);
    assert_eq!(m.imbalance_ratio, Ratio { num: 0, den: 6 * SCALE as i128 });
    assert_eq!(value(m.imbalance_ratio), 0.0);
}

#[test]
fn scenario_b_tight_book_buckets() {
    let (bids, asks) = scenario_book();
    let m = compute_metrics(&bids, &asks);
    let buckets = normalize_to_depths(&bids, m.mid_price, Side::Bid);
    assert_eq!(buckets.len(), 5);
    // 100.48995 exactly
    let t0 = buckets[0].target_price;
    assert_eq!(t0.num * 100_000, 10_048_995 * t0.den);
    assert_eq!(buckets[0].cumulative_quantity, 0);
    // 99.495 exactly: 99.0 stays out, 100.0 is at or above the target
    let t4 = buckets[4].target_price;
    assert_eq!(t4.num * 1_000, 99_495 * t4.den);
    assert_eq!(buckets[4].cumulative_quantity, SCALE as u128);
    // 99.9975: 100.0 counts from the fourth bucket on
    assert_eq!(buckets[3].cumulative_quantity, SCALE as u128);
    for b in &buckets[..3] {
        assert_eq!(b.cumulative_quantity, 0);
    }
}

#[test]
fn ask_buckets_of_scenario_book() {
    let (bids, asks) = scenario_book();
    let m = compute_metrics(&bids, &asks);
    let buckets = normalize_to_depths(&asks, m.mid_price, Side::Ask);
    // targets 100.51005, 100.55025, 100.6005, 101.0025, 101.505
    let expected = [0u128, 0, 0, SCALE as u128, SCALE as u128];
    for (b, e) in buckets.iter().zip(expected.iter()) {
        assert_eq!(b.cumulative_quantity, *e);
    }
    assert_eq!(buckets[4].target_price.num * 1_000, 101_505 * buckets[4].target_price.den);
}

#[test]
fn imbalance_within_unit_interval() {
    let bids = vec![lvl(10.0, 3.0), lvl(9.0, 0.0)];
    let asks = vec![lvl(11.0, 1.0)];
    let m = compute_metrics(&bids, &asks);
    assert_eq!(m.imbalance_ratio, Ratio { num: 2 * SCALE as i128, den: 4 * SCALE as i128 });
    assert_eq!(value(m.imbalance_ratio), 0.5);
    let only_asks = compute_metrics(&vec![lvl(10.0, 0.0)], &vec![lvl(11.0, 2.0)]);
    assert_eq!(value(only_asks.imbalance_ratio), -1.0);
    let empty = compute_metrics(&vec![lvl(10.0, 0.0)], &vec![lvl(11.0, 0.0)]);
    assert_eq!(empty.imbalance_ratio, Ratio { num: 0, den: 1 });
}

#[test]
fn top_volume_counts_only_five_levels() {
    let side: Vec<PriceLevel> = (0..8).map(|i| lvl(100.0 - i as f64, 1.0)).collect();
    assert_eq!(top_volume(&side), 5 * SCALE as u128);
    let short = vec![lvl(1.0, 0.25), lvl(0.5, 0.5)];
    assert_eq!(top_volume(&short), 75_000_000);
}

#[test]
fn mid_between_touch_prices_and_spread() {
    let m = compute_metrics(&vec![lvl(50_000.5, 1.0)], &vec![lvl(50_001.0, 1.0)]);
    let mid = value(m.mid_price);
    assert!(50_000.5 <= mid && mid <= 50_001.0);
    assert_eq!(mid, 50_000.75);
    assert_eq!(value(m.spread), 0.5);
    let crossed = compute_metrics(&vec![lvl(101.0, 1.0)], &vec![lvl(100.0, 1.0)]);
    assert_eq!(value(crossed.mid_price), 100.5);
    assert_eq!(value(crossed.spread), -1.0);
}

#[test]
fn buckets_never_shrink_with_depth() {
    let bids: Vec<PriceLevel> = (0..20).map(|i| lvl(1000.0 - 0.5 * i as f64, 1.0 + i as f64)).collect();
    let asks: Vec<PriceLevel> = (0..20).map(|i| lvl(1000.5 + 0.5 * i as f64, 2.0)).collect();
    let m = compute_metrics(&bids, &asks);
    for (side, levels) in [(Side::Bid, &bids), (Side::Ask, &asks)] {
        let b = normalize_to_depths(levels, m.mid_price, side);
        for w in b.windows(2) {
            assert!(w[0].cumulative_quantity <= w[1].cumulative_quantity);
        }
    }
    let b = normalize_to_depths(&bids, m.mid_price, Side::Bid);
    // mid 1000.25; the first bucket reaches down to 1000.149975: no level
    assert_eq!(b[0].cumulative_quantity, 0);
    // the third reaches down to 999.249750: 1000.0, 999.5
    assert_eq!(b[2].cumulative_quantity, 3 * SCALE as u128);
    // the last one reaches down to 990.2475: all twenty levels
    assert_eq!(b[4].cumulative_quantity, (1..=20).sum::<u128>() * SCALE as u128);
}

#[test]
fn level_at_target_counts() {
    // bid exactly at mid * (1 - 0.01)
    let bids = vec![lvl(99.0, 4.0)];
    let mid = Ratio { num: 100 * SCALE as i128, den: SCALE as i128 };
    let b = normalize_to_depths(&bids, mid, Side::Bid);
    assert_eq!(b[4].cumulative_quantity, 4 * SCALE as u128);
    assert_eq!(b[3].cumulative_quantity, 0);
}
