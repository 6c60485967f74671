use vstd::prelude::*;
use crate::book::PriceLevel;
use crate::text::{all_digits, is_ping, parse_units, units_spec};

verus! {

/// Most levels read from each side of a frame.
pub const MAX_LEVELS: usize = 20;

/// Why a frame yields no record. None of these is fatal to the stream.
#[derive(Clone, Copy, Debug, PartialEq, Eq, Structural)]
pub enum Skip {
    /// A frame of decimal digits only: a liveness ping.
    Ping,
    /// The frame is not a JSON object holding both sides as arrays of
    /// arrays of strings.
    Malformed,
    /// One side has no usable level.
    EmptySide,
}

/// The levels of one book update: bids best first, then asks best first.
#[derive(Debug)]
pub struct DepthSnapshot {
    pub bids: Vec<PriceLevel>,
    pub asks: Vec<PriceLevel>,
}

impl DepthSnapshot {
    /// Both sides are non-empty and hold at most twenty levels.
    pub open spec fn wf(&self) -> bool {
        &&& 1 <= self.bids.len() <= MAX_LEVELS
        &&& 1 <= self.asks.len() <= MAX_LEVELS
    }
}

/// What serde_json decodes under the member `member` of the JSON object in
/// `text`, read as an array of arrays of strings.
pub uninterp spec fn json_string_rows(text: Seq<char>, member: Seq<char>) -> Option<
    Seq<Seq<Seq<char>>>,
>;

/// Relies on `serde_json::from_str` (to a `Value`), `Value::get` and
/// `serde_json::from_value` (to `Vec<Vec<String>>`): the member `member` of
/// the object in `text` as rows of strings, or `None` when the text is not
/// JSON, the member is missing or has another shape. The result depends on
/// the two texts alone.
#[verifier::external_body]
fn decode_rows(text: &str, member: &str) -> (r: Option<Vec<Vec<String>>>)
    ensures
        r matches Some(rows) ==> json_string_rows(text@, member@) == Some(rows.deep_view()),
        r is None ==> json_string_rows(text@, member@) is None,
{
    let v: serde_json::Value = serde_json::from_str(text).ok()?;
    serde_json::from_value(v.get(member)?.clone()).ok()
}

/// A row of at least two fields whose first two parse as decimals.
pub open spec fn level_spec(row: Seq<Seq<char>>) -> Option<PriceLevel> {
    if row.len() >= 2 {
        match (units_spec(row[0]), units_spec(row[1])) {
            (Some(p), Some(q)) => Some(PriceLevel { price: p as u64, quantity: q as u64 }),
            _ => None,
        }
    } else {
        None
    }
}

/// The levels of `rows` in order, rows that give no level left out.
pub open spec fn collect_levels(rows: Seq<Seq<Seq<char>>>) -> Seq<PriceLevel>
    decreases rows.len(),
{
    if rows.len() == 0 {
        Seq::empty()
    } else {
        match level_spec(rows.last()) {
            Some(l) => collect_levels(rows.drop_last()).push(l),
            None => collect_levels(rows.drop_last()),
        }
    }
}

/// The levels of the first twenty rows of one side.
pub open spec fn side_spec(rows: Seq<Seq<Seq<char>>>) -> Seq<PriceLevel> {
    if rows.len() <= MAX_LEVELS {
        collect_levels(rows)
    } else {
        collect_levels(rows.take(MAX_LEVELS as int))
    }
}

/// The levels of a frame whose two sides decoded to `bids` and `asks`.
pub open spec fn depth_spec(bids: Seq<Seq<Seq<char>>>, asks: Seq<Seq<Seq<char>>>) -> Result<
    (Seq<PriceLevel>, Seq<PriceLevel>),
    Skip,
> {
    if side_spec(bids).len() == 0 || side_spec(asks).len() == 0 {
        Err(Skip::EmptySide)
    } else {
        Ok((side_spec(bids), side_spec(asks)))
    }
}

/// The rows of one side: under the long member name, else the short one.
pub open spec fn side_rows(text: Seq<char>, long: Seq<char>, short: Seq<char>) -> Option<
    Seq<Seq<Seq<char>>>,
> {
    match json_string_rows(text, long) {
        Some(rows) => Some(rows),
        None => json_string_rows(text, short),
    }
}

/// What a raw frame yields.
pub open spec fn frame_spec(text: Seq<char>) -> Result<(Seq<PriceLevel>, Seq<PriceLevel>), Skip> {
    if all_digits(text) {
        Err(Skip::Ping)
    } else {
        match (side_rows(text, "bids"@, "b"@), side_rows(text, "asks"@, "a"@)) {
            (Some(b), Some(a)) => depth_spec(b, a),
            _ => Err(Skip::Malformed),
        }
    }
}

/// The levels of a parse result, as sequences.
pub open spec fn levels_of(r: Result<DepthSnapshot, Skip>) -> Result<
    (Seq<PriceLevel>, Seq<PriceLevel>),
    Skip,
> {
    match r {
        Ok(d) => Ok((d.bids@, d.asks@)),
        Err(e) => Err(e),
    }
}

proof fn lemma_collect_levels_len(rows: Seq<Seq<Seq<char>>>)
    ensures
        collect_levels(rows).len() <= rows.len(),
    decreases rows.len(),
{
    if rows.len() > 0 {
        lemma_collect_levels_len(rows.drop_last());
    }
}

/// The level of one row: its first two fields as price and quantity.
pub fn parse_level(row: &Vec<String>) -> (r: Option<PriceLevel>)
    ensures
        r == level_spec(row.deep_view()),
{
    if row.len() < 2 {
        return None;
    }
    let price = parse_units(row[0].as_str());
    let quantity = parse_units(row[1].as_str());
    match (price, quantity) {
        (Some(p), Some(q)) => Some(PriceLevel { price: p, quantity: q }),
        _ => None,
    }
}

/// The levels of the first twenty rows of one side, in order; a row with
/// fewer than two fields or a field that is no decimal gives no level.
pub fn parse_side(rows: &Vec<Vec<String>>) -> (r: Vec<PriceLevel>)
    ensures
        r@ == side_spec(rows.deep_view()),
        r@.len() <= MAX_LEVELS,
{
    let n: usize = if rows.len() < MAX_LEVELS { rows.len() } else { MAX_LEVELS };
    let ghost all = rows.deep_view();
    let mut out: Vec<PriceLevel> = Vec::new();
    let mut i: usize = 0;
    while i < n
        invariant
            n <= rows.len(),
            n == rows.len() || n == MAX_LEVELS,
            all == rows.deep_view(),
            i <= n,
            out@ == collect_levels(all.take(i as int)),
        decreases n - i,
    {
        assert(all.take(i + 1).drop_last() == all.take(i as int));
        assert(all.take(i + 1).last() == rows[i as int].deep_view());
        match parse_level(&rows[i]) {
            Some(l) => out.push(l),
            None => {},
        }
        i = i + 1;
    }
    assert(all.take(all.len() as int) == all);
    proof {
        lemma_collect_levels_len(all.take(n as int));
    }
    out
}

/// The levels of a frame whose two sides decoded to `bids` and `asks`:
/// up to twenty levels a side, or [`Skip::EmptySide`] when a side has none.
pub fn depth_from_rows(bids: &Vec<Vec<String>>, asks: &Vec<Vec<String>>) -> (r: Result<
    DepthSnapshot,
    Skip,
>)
    ensures
        r matches Ok(d) ==> d.wf(),
        levels_of(r) == depth_spec(bids.deep_view(), asks.deep_view()),
{
    let b = parse_side(bids);
    let a = parse_side(asks);
    if b.len() == 0 || a.len() == 0 {
        Err(Skip::EmptySide)
    } else {
        Ok(DepthSnapshot { bids: b, asks: a })
    }
}

/// Decodes the rows of one side under `long`, else under `short`.
fn side_rows_of(text: &str, long: &str, short: &str) -> (r: Option<Vec<Vec<String>>>)
    ensures
        r matches Some(rows) ==> side_rows(text@, long@, short@) == Some(rows.deep_view()),
        r is None ==> side_rows(text@, long@, short@) is None,
{
    match decode_rows(text, long) {
        Some(rows) => Some(rows),
        None => decode_rows(text, short),
    }
}

/// Parses one raw frame of the feed: a ping, a depth update with at least one
/// level a side, or a frame to skip.
pub fn parse_frame(text: &str) -> (r: Result<DepthSnapshot, Skip>)
    ensures
        r matches Ok(d) ==> d.wf(),
        levels_of(r) == frame_spec(text@),
{
    if is_ping(text) {
        return Err(Skip::Ping);
    }
    let bids = side_rows_of(text, "bids", "b");
    let asks = side_rows_of(text, "asks", "a");
    match (bids, asks) {
        (Some(b), Some(a)) => depth_from_rows(&b, &a),
        _ => Err(Skip::Malformed),
    }
}


/// A frame made of decimal digits only, of any length and with any leading
/// zeros, is always skipped as a ping.
pub proof fn lemma_digit_frames_are_pings(text: Seq<char>)
    requires
        all_digits(text),
    ensures
        frame_spec(text) == Err::<(Seq<PriceLevel>, Seq<PriceLevel>), Skip>(Skip::Ping),
{
}

} // verus!
