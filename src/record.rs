use vstd::prelude::*;
use crate::book::{
    bucket_spec, compute_metrics, metrics_spec, normalize_to_depths, DepthBucket, PriceLevel,
    Ratio, Side, DEPTH_BUCKETS,
};
use crate::frame::{frame_spec, parse_frame, DepthSnapshot, Skip};
use crate::keys::now_millis;

verus! {

/// The persisted summary of one book update.
#[derive(Debug)]
pub struct SnapshotRecord {
    pub timestamp_ms: i64,
    pub bids: Vec<DepthBucket>,
    pub asks: Vec<DepthBucket>,
    pub spread: Ratio,
    pub mid_price: Ratio,
    pub imbalance_ratio: Ratio,
}

/// The five depth buckets of one side.
pub open spec fn buckets_spec(levels: Seq<PriceLevel>, mid: Ratio, side: Side) -> Seq<DepthBucket> {
    Seq::new(DEPTH_BUCKETS as nat, |i: int| bucket_spec(levels, mid, side, i))
}

/// `r` is the record of the book `bids` / `asks` taken at `timestamp_ms`.
pub open spec fn is_record_of(
    r: SnapshotRecord,
    timestamp_ms: i64,
    bids: Seq<PriceLevel>,
    asks: Seq<PriceLevel>,
) -> bool {
    let m = metrics_spec(bids, asks);
    &&& r.timestamp_ms == timestamp_ms
    &&& r.mid_price == m.mid_price
    &&& r.spread == m.spread
    &&& r.imbalance_ratio == m.imbalance_ratio
    &&& r.bids@ == buckets_spec(bids, m.mid_price, Side::Bid)
    &&& r.asks@ == buckets_spec(asks, m.mid_price, Side::Ask)
}

/// The record of a book with both sides non-empty, stamped `timestamp_ms`.
pub fn build_record(timestamp_ms: i64, book: &DepthSnapshot) -> (r: SnapshotRecord)
    requires
        book.bids.len() >= 1,
        book.asks.len() >= 1,
    ensures
        is_record_of(r, timestamp_ms, book.bids@, book.asks@),
{
    let m = compute_metrics(&book.bids, &book.asks);
    let bids = normalize_to_depths(&book.bids, m.mid_price, Side::Bid);
    let asks = normalize_to_depths(&book.asks, m.mid_price, Side::Ask);
    let r = SnapshotRecord {
        timestamp_ms,
        bids,
        asks,
        spread: m.spread,
        mid_price: m.mid_price,
        imbalance_ratio: m.imbalance_ratio,
    };
    assert(r.bids@ == buckets_spec(book.bids@, m.mid_price, Side::Bid));
    assert(r.asks@ == buckets_spec(book.asks@, m.mid_price, Side::Ask));
    r
}

/// The record of one raw frame received at `now_ms`, or why it is skipped.
pub fn ingest_frame(text: &str, now_ms: i64) -> (r: Result<SnapshotRecord, Skip>)
    ensures
        match frame_spec(text@) {
            Ok((bids, asks)) => r matches Ok(rec) && is_record_of(rec, now_ms, bids, asks),
            Err(e) => r == Err::<SnapshotRecord, Skip>(e),
        },
{
    match parse_frame(text) {
        Ok(book) => Ok(build_record(now_ms, &book)),
        Err(e) => Err(e),
    }
}


/// The record of one raw frame, stamped with the current time, or why it is
/// skipped.
pub fn capture_frame(text: &str) -> (r: Result<SnapshotRecord, Skip>)
    ensures
        match frame_spec(text@) {
            Ok((bids, asks)) => r matches Ok(rec) && rec.timestamp_ms >= 0 && is_record_of(
                rec,
                rec.timestamp_ms,
                bids,
                asks,
            ),
            Err(e) => r == Err::<SnapshotRecord, Skip>(e),
        },
{
    let now = now_millis();
    ingest_frame(text, now)
}

} // verus!
