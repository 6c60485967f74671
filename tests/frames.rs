use orderbook::book::{PriceLevel, SCALE};
use orderbook::frame::{depth_from_rows, parse_frame, parse_level, parse_side, Skip};
use orderbook::record::{capture_frame, ingest_frame};
use orderbook::text::{is_ping, parse_integer, parse_units};

fn rows(items: &[&[&str]]) -> Vec<Vec<String>> {
    items.iter().map(|r| r.iter().map(|s| s.to_string()).collect()).collect()
}

#[test]
fn digit_frames_are_pings() {
    assert!(is_ping("1700000000000"));
    assert!(is_ping("0000"));
    assert!(is_ping("7"));
    assert!(!is_ping("12a"));
    assert!(!is_ping("{\"bids\":[]}"));
    assert_eq!(parse_frame("000123").unwrap_err(), Skip::Ping);
    assert_eq!(parse_frame("98765432109876543210987654321").unwrap_err(), Skip::Ping);
}

#[test]
fn units_of_decimal_text() {
    assert_eq!(parse_units("100.00000000"), Some(100 * SCALE));
    assert_eq!(parse_units("0.5"), Some(SCALE / 2));
    assert_eq!(parse_units("5."), Some(5 * SCALE));
    assert_eq!(parse_units(".25"), Some(SCALE / 4));
    assert_eq!(parse_units("42"), Some(42 * SCALE));
    assert_eq!(parse_units("0.00000001"), Some(1));
    assert_eq!(parse_units("184467440737.09551615"), Some(u64::MAX));
    assert_eq!(parse_units("184467440737.09551616"), None);
    assert_eq!(parse_units("1.123456789"), None);
    assert_eq!(parse_units(""), None);
    assert_eq!(parse_units("."), None);
    assert_eq!(parse_units("1.2.3"), None);
    assert_eq!(parse_units("-1.0"), None);
    assert_eq!(parse_units("1e3"), None);
}

#[test]
fn integers_with_sign() {
    assert_eq!(parse_integer("1704164400000"), Some(1_704_164_400_000));
    assert_eq!(parse_integer("+5"), Some(5));
    assert_eq!(parse_integer("-42"), Some(-42));
    assert_eq!(parse_integer("-9223372036854775808"), Some(i64::MIN));
    assert_eq!(parse_integer("9223372036854775807"), Some(i64::MAX));
    assert_eq!(parse_integer("9223372036854775808"), None);
    assert_eq!(parse_integer("-"), None);
    assert_eq!(parse_integer(""), None);
    assert_eq!(parse_integer("12x"), None);
}

#[test]
fn short_or_bad_rows_are_dropped() {
    assert_eq!(parse_level(&vec!["100.0".to_string()]), None);
    assert_eq!(parse_level(&vec!["abc".to_string(), "1.0".to_string()]), None);
    assert_eq!(
        parse_level(&vec!["100.5".to_string(), "2".to_string(), "extra".to_string()]),
        Some(PriceLevel { price: 10_050_000_000, quantity: 2 * SCALE })
    );
    let side = parse_side(&rows(&[&["100.0"], &["99.0", "x"], &["98.0", "1.5"]]));
    assert_eq!(side, vec![PriceLevel { price: 98 * SCALE, quantity: 150_000_000 }]);
}

#[test]
fn only_first_twenty_rows_are_read() {
    let many: Vec<Vec<String>> = (0..30).map(|i| vec![format!("{}", 1000 - i), "1".to_string()]).collect();
    let side = parse_side(&many);
    assert_eq!(side.len(), 20);
    assert_eq!(side[19].price, 981 * SCALE);
    let mut bad_first: Vec<Vec<String>> = vec![vec!["x".to_string(), "1".to_string()]; 20];
    bad_first.push(vec!["5".to_string(), "1".to_string()]);
    assert!(parse_side(&bad_first).is_empty());
}

#[test]
fn empty_side_is_skipped() {
    let ok = rows(&[&["1.0", "1.0"]]);
    let bad = rows(&[&["x", "1.0"]]);
    assert_eq!(depth_from_rows(&ok, &bad).unwrap_err(), Skip::EmptySide);
    assert_eq!(depth_from_rows(&vec![], &ok).unwrap_err(), Skip::EmptySide);
    let d = depth_from_rows(&ok, &ok).unwrap();
    assert_eq!(d.bids, vec![PriceLevel { price: SCALE, quantity: SCALE }]);
}

#[test]
fn depth_frame_with_long_names() {
    let text = r#"{"lastUpdateId":160,"bids":[["100.0","1.0"],["99.0","2.0"]],"asks":[["101.0","1.0"],["102.0","2.0"]]}"#;
    let d = parse_frame(text).unwrap();
    assert_eq!(d.bids.len(), 2);
    assert_eq!(d.bids[1], PriceLevel { price: 99 * SCALE, quantity: 2 * SCALE });
    assert_eq!(d.asks[0], PriceLevel { price: 101 * SCALE, quantity: SCALE });
}

#[test]
fn depth_frame_with_short_names() {
    let text = r#"{"e":"depthUpdate","b":[["0.5","3"]],"a":[["0.6","4"],["bad"]]}"#;
    let d = parse_frame(text).unwrap();
    assert_eq!(d.bids, vec![PriceLevel { price: SCALE / 2, quantity: 3 * SCALE }]);
    assert_eq!(d.asks, vec![PriceLevel { price: 60_000_000, quantity: 4 * SCALE }]);
}

#[test]
fn malformed_frames_are_skipped() {
    assert_eq!(parse_frame("not json").unwrap_err(), Skip::Malformed);
    assert_eq!(parse_frame(r#"{"bids":[["1","1"]]}"#).unwrap_err(), Skip::Malformed);
    assert_eq!(parse_frame(r#"{"bids":[[1,1]],"asks":[["1","1"]]}"#).unwrap_err(), Skip::Malformed);
    assert_eq!(parse_frame(r#"{"bids":[],"asks":[["1","1"]]}"#).unwrap_err(), Skip::EmptySide);
    assert_eq!(parse_frame("").unwrap_err(), Skip::Ping);
}

#[test]
fn frame_to_record() {
    let text = r#"{"bids":[["100.0","1.0"],["99.0","2.0"]],"asks":[["101.0","1.0"],["102.0","2.0"]]}"#;
    let r = ingest_frame(text, 1_704_164_400_000).unwrap();
    assert_eq!(r.timestamp_ms, 1_704_164_400_000);
    assert_eq!(r.mid_price.num as f64 / r.mid_price.den as f64, 100.5);
    assert_eq!(r.spread.num as f64 / r.spread.den as f64, 1.0);
    assert_eq!(r.imbalance_ratio.num, 0);
    assert_eq!(r.bids.len(), 5);
    assert_eq!(r.asks.len(), 5);
    assert_eq!(r.asks[3].cumulative_quantity, SCALE as u128);
    assert_eq!(ingest_frame("123", 5).unwrap_err(), Skip::Ping);
}

#[test]
fn captured_frame_is_stamped_now() {
    let text = r#"{"bids":[["1","1"]],"asks":[["2","1"]]}"#;
    let r = capture_frame(text).unwrap();
    // after 2020-01-01
    assert!(r.timestamp_ms > 1_577_836_800_000);
    assert_eq!(capture_frame("not json").unwrap_err(), Skip::Malformed);
}
