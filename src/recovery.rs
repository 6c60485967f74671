use vstd::prelude::*;
use crate::frame::{frame_spec, parse_frame, Skip};
use crate::keys::{
    key_timestamp, latest_spec, latest_timestamp, lemma_key_round_trip, lemma_latest_bounds,
    partition_key_spec, UtcFields,
};
use crate::record::{build_record, is_record_of, SnapshotRecord};

verus! {

/// Elapsed time since the last persisted record beyond which a backfill is due.
pub const GAP_THRESHOLD_MS: i64 = 5000;

/// Whether more than `threshold_ms` elapsed between `last` and `reference_ms`;
/// no prior record is an infinite gap.
pub open spec fn gap_spec(reference_ms: int, last: Option<int>, threshold_ms: int) -> bool {
    match last {
        None => true,
        Some(t) => reference_ms - t > threshold_ms,
    }
}

/// Whether more than `threshold_ms` elapsed since the last persisted record;
/// `None` (no record yet) always counts as a gap.
pub fn detect_gap(reference_time_ms: i64, last_persisted_ts_ms: Option<i64>, threshold_ms: i64) -> (r:
    bool)
    ensures
        r == gap_spec(
            reference_time_ms as int,
            match last_persisted_ts_ms {
                Some(t) => Some(t as int),
                None => None,
            },
            threshold_ms as int,
        ),
{
    match last_persisted_ts_ms {
        None => true,
        Some(t) => reference_time_ms as i128 - t as i128 > threshold_ms as i128,
    }
}

/// What one recovery invocation does.
#[derive(Debug)]
pub enum RecoveryPlan {
    /// The store is recent enough: write nothing.
    NoGap,
    /// Write this record.
    Backfill(SnapshotRecord),
    /// A gap is due but the snapshot gave no usable book.
    Unusable(Skip),
}

/// Whether a listing of persisted keys calls for a backfill at `now_ms`.
pub open spec fn backfill_due(keys: Seq<Seq<char>>, now_ms: int) -> bool {
    gap_spec(now_ms, latest_spec(keys), GAP_THRESHOLD_MS as int)
}

/// Decides one recovery invocation at `now_ms`, from the persisted keys and
/// the text of a point-in-time snapshot: a backfill record only when the
/// latest persisted timestamp is more than five seconds old (or absent).
pub fn plan_recovery(snapshot: &str, keys: &Vec<String>, now_ms: i64) -> (r: RecoveryPlan)
    ensures
        !backfill_due(keys.deep_view(), now_ms as int) ==> r is NoGap,
        backfill_due(keys.deep_view(), now_ms as int) ==> match frame_spec(snapshot@) {
            Ok((bids, asks)) => r matches RecoveryPlan::Backfill(rec) && is_record_of(
                rec,
                now_ms,
                bids,
                asks,
            ),
            Err(e) => r matches RecoveryPlan::Unusable(e2) && e2 == e,
        },
{
    let last = latest_timestamp(keys);
    if !detect_gap(now_ms, last, GAP_THRESHOLD_MS) {
        return RecoveryPlan::NoGap;
    }
    match parse_frame(snapshot) {
        Ok(book) => RecoveryPlan::Backfill(build_record(now_ms, &book)),
        Err(e) => RecoveryPlan::Unusable(e),
    }
}

/// Once the key of a record stamped `now_ms` is in the store, a recovery at
/// `now_ms` finds no gap: repeated invocations write at most one backfill.
pub proof fn lemma_backfill_closes_gap(keys: Seq<Seq<char>>, now_ms: i64, f: UtcFields)
    requires
        keys.contains(partition_key_spec(now_ms as int, f)),
    ensures
        !backfill_due(keys, now_ms as int),
{
    let i = choose|i: int| 0 <= i < keys.len() && keys[i] == partition_key_spec(now_ms as int, f);
    lemma_key_round_trip(now_ms, f);
    lemma_latest_bounds(keys, i);
}


/// The threshold is strict: a lag one millisecond past it is a gap, a lag of
/// exactly the threshold is not, and no prior record always is.
pub proof fn lemma_gap_threshold(reference_ms: int)
    ensures
        gap_spec(reference_ms, Some(reference_ms - GAP_THRESHOLD_MS - 1), GAP_THRESHOLD_MS as int),
        !gap_spec(reference_ms, Some(reference_ms - GAP_THRESHOLD_MS), GAP_THRESHOLD_MS as int),
        gap_spec(reference_ms, None, GAP_THRESHOLD_MS as int),
{
}

} // verus!
