use apache_avro::types::Value;
use apache_avro::{Reader, Schema, Writer};
use orderbook::book::{DepthBucket, Ratio, SCALE};
use orderbook::record::ingest_frame;

const SCHEMA: &str = r#"
{
  "type": "record",
  "name": "OrderBook",
  "fields": [
    {"name": "timestamp_ms", "type": "long"},
    {"name": "bids", "type": {"type": "array", "items": {"type": "array", "items": "double"}}},
    {"name": "asks", "type": {"type": "array", "items": {"type": "array", "items": "double"}}},
    {"name": "spread", "type": "double"},
    {"name": "mid_price", "type": "double"},
    {"name": "imbalance_ratio", "type": "double"}
  ]
}
"#;

fn value(r: Ratio) -> f64 {
    r.num as f64 / r.den as f64
}

fn buckets(bs: &[DepthBucket]) -> Value {
    Value::Array(
        bs.iter()
            .map(|b| {
                Value::Array(vec![
                    Value::Double(value(b.target_price)),
                    Value::Double(b.cumulative_quantity as f64 / SCALE as f64),
                ])
            })
            .collect(),
    )
}

#[test]
fn record_round_trips_through_avro() {
    let text = r#"{"bids":[["100.0","1.0"],["99.0","2.0"]],"asks":[["101.0","1.0"],["102.0","2.0"]]}"#;
    let r = ingest_frame(text, 1_704_164_400_000).unwrap();
    let original = Value::Record(vec![
        ("timestamp_ms".to_string(), Value::Long(r.timestamp_ms)),
        ("bids".to_string(), buckets(&r.bids)),
        ("asks".to_string(), buckets(&r.asks)),
        ("spread".to_string(), Value::Double(value(r.spread))),
        ("mid_price".to_string(), Value::Double(value(r.mid_price))),
        ("imbalance_ratio".to_string(), Value::Double(value(r.imbalance_ratio))),
    ]);
    let schema = Schema::parse_str(SCHEMA).unwrap();
    let mut writer = Writer::new(&schema, Vec::new()).unwrap();
    writer.append_value_ref(&original).unwrap();
    let bytes = writer.into_inner().unwrap();
    let decoded: Vec<Value> = Reader::new(&bytes[..]).unwrap().map(|v| v.unwrap()).collect();
    assert_eq!(decoded.len(), 1);
    assert_eq!(decoded[0], original);
    if let (Value::Record(a), Value::Record(b)) = (&decoded[0], &original) {
        for ((_, x), (_, y)) in a.iter().zip(b.iter()) {
            if let (Value::Double(x), Value::Double(y)) = (x, y) {
                assert_eq!(x.to_bits(), y.to_bits());
            }
        }
    } else {
        panic!("not a record");
    }
}
