use vstd::prelude::*;

verus! {

/// Number of units in one whole price or quantity: values are exact to 10^-8.
pub const SCALE: u64 = 100_000_000;

/// How many levels per side count towards the near-touch volume.
pub const TOP_LEVELS: usize = 5;

/// Number of depth buckets in a normalized side.
pub const DEPTH_BUCKETS: usize = 5;

/// Denominator of the relative depth offsets: offsets are in basis points.
pub const OFFSET_DENOMINATOR: i128 = 10_000;

/// One price level of one side of the book, in units of 10^-8.
#[derive(Clone, Copy, Debug, PartialEq, Eq, Structural)]
pub struct PriceLevel {
    pub price: u64,
    pub quantity: u64,
}

/// Side of the book.
#[derive(Clone, Copy, Debug, PartialEq, Eq, Structural)]
pub enum Side {
    Bid,
    Ask,
}

/// An exact rational value `num / den`; well formed when `den > 0`.
/// Equality is on the two fields, not on the value.
#[derive(Clone, Copy, Debug, PartialEq, Eq, Structural)]
pub struct Ratio {
    pub num: i128,
    pub den: i128,
}

impl Ratio {
    pub open spec fn wf(self) -> bool {
        self.den > 0
    }

    /// A non-negative price whose cross products with a `u64` price and an
    /// offset factor stay within `i128`.
    pub open spec fn is_price(self) -> bool {
        &&& 0 <= self.num <= 0x4_0000_0000_0000_0000
        &&& 0 < self.den <= 0x100_0000_0000
    }

    /// `self <= other` as rational values (both well formed).
    pub open spec fn le(self, other: Ratio) -> bool {
        self.num * other.den <= other.num * self.den
    }
}

/// Liquidity summary of one book update.
#[derive(Clone, Copy, Debug, PartialEq, Eq, Structural)]
pub struct LiquidityMetrics {
    pub mid_price: Ratio,
    pub spread: Ratio,
    pub imbalance_ratio: Ratio,
}

/// One depth bucket: the target price and the quantity at least as favourable
/// to a taker as that price, in units of 10^-8.
#[derive(Clone, Copy, Debug, PartialEq, Eq, Structural)]
pub struct DepthBucket {
    pub target_price: Ratio,
    pub cumulative_quantity: u128,
}

/// Sum of the quantities of `levels`.
pub open spec fn total_quantity(levels: Seq<PriceLevel>) -> int
    decreases levels.len(),
{
    if levels.len() == 0 {
        0
    } else {
        total_quantity(levels.drop_last()) + levels.last().quantity
    }
}

/// Sum of the quantities over the first five levels (all of them if fewer).
pub open spec fn top_volume_spec(levels: Seq<PriceLevel>) -> int {
    if levels.len() <= TOP_LEVELS {
        total_quantity(levels)
    } else {
        total_quantity(levels.take(TOP_LEVELS as int))
    }
}

/// `(b - a) / (b + a)`, and `0` when the denominator is zero.
pub open spec fn imbalance_of(b: int, a: int) -> Ratio {
    if b + a == 0 {
        Ratio { num: 0, den: 1 }
    } else {
        Ratio { num: (b - a) as i128, den: (b + a) as i128 }
    }
}

/// The metrics of a book whose two sides are non-empty.
pub open spec fn metrics_spec(bids: Seq<PriceLevel>, asks: Seq<PriceLevel>) -> LiquidityMetrics {
    LiquidityMetrics {
        mid_price: Ratio { num: (bids[0].price + asks[0].price) as i128, den: (2 * SCALE) as i128 },
        spread: Ratio { num: (asks[0].price - bids[0].price) as i128, den: SCALE as i128 },
        imbalance_ratio: imbalance_of(top_volume_spec(bids), top_volume_spec(asks)),
    }
}

pub proof fn lemma_total_quantity_bounds(levels: Seq<PriceLevel>)
    ensures
        0 <= total_quantity(levels) <= levels.len() * (u64::MAX as int),
    decreases levels.len(),
{
    if levels.len() > 0 {
        lemma_total_quantity_bounds(levels.drop_last());
    }
}

/// Sum of the quantities over the first five levels of `levels`.
pub fn top_volume(levels: &Vec<PriceLevel>) -> (r: u128)
    ensures
        r == top_volume_spec(levels@),
{
    let n: usize = if levels.len() < TOP_LEVELS { levels.len() } else { TOP_LEVELS };
    let mut acc: u128 = 0;
    let mut i: usize = 0;
    while i < n
        invariant
            n <= levels.len(),
            n <= TOP_LEVELS,
            n == levels.len() || n == TOP_LEVELS,
            i <= n,
            acc == total_quantity(levels@.take(i as int)),
            acc <= i * (u64::MAX as int),
        decreases n - i,
    {
        assert(levels@.take(i + 1).drop_last() == levels@.take(i as int));
        acc = acc + levels[i].quantity as u128;
        i = i + 1;
    }
    assert(levels@.take(levels@.len() as int) == levels@);
    acc
}

/// Mid price, spread and imbalance of a book whose two sides are non-empty.
pub fn compute_metrics(bids: &Vec<PriceLevel>, asks: &Vec<PriceLevel>) -> (r: LiquidityMetrics)
    requires
        bids.len() >= 1,
        asks.len() >= 1,
    ensures
        r == metrics_spec(bids@, asks@),
{
    let best_bid = bids[0].price;
    let best_ask = asks[0].price;
    let mid_price = Ratio { num: best_bid as i128 + best_ask as i128, den: (2 * SCALE) as i128 };
    let spread = Ratio { num: best_ask as i128 - best_bid as i128, den: SCALE as i128 };
    let b = top_volume(bids);
    let a = top_volume(asks);
    proof {
        lemma_total_quantity_bounds(bids@);
        lemma_total_quantity_bounds(asks@);
        lemma_total_quantity_bounds(bids@.take(TOP_LEVELS as int));
        lemma_total_quantity_bounds(asks@.take(TOP_LEVELS as int));
    }
    let imbalance_ratio = if b + a == 0 {
        Ratio { num: 0, den: 1 }
    } else {
        Ratio { num: b as i128 - a as i128, den: (b + a) as i128 }
    };
    LiquidityMetrics { mid_price, spread, imbalance_ratio }
}


/// The relative depth offsets, ascending, in basis points.
pub open spec fn offset_spec(i: int) -> i128 {
    if i == 0 {
        1
    } else if i == 1 {
        5
    } else if i == 2 {
        10
    } else if i == 3 {
        50
    } else {
        100
    }
}

/// The `i`-th relative depth offset, in basis points.
pub fn depth_offset(i: usize) -> (r: i128)
    requires
        i < DEPTH_BUCKETS,
    ensures
        r == offset_spec(i as int),
{
    if i == 0 {
        1
    } else if i == 1 {
        5
    } else if i == 2 {
        10
    } else if i == 3 {
        50
    } else {
        100
    }
}

/// `mid * (1 + d)` for asks and `mid * (1 - d)` for bids, `d` the `i`-th offset.
pub open spec fn target_spec(mid: Ratio, side: Side, i: int) -> Ratio {
    let factor = match side {
        Side::Ask => OFFSET_DENOMINATOR + offset_spec(i),
        Side::Bid => OFFSET_DENOMINATOR - offset_spec(i),
    };
    Ratio { num: (mid.num * factor) as i128, den: (mid.den * OFFSET_DENOMINATOR) as i128 }
}

/// A level counts towards a target when it is at least as favourable to a
/// taker: at or below the target for asks, at or above it for bids. Level
/// prices are in units, targets in whole prices.
pub open spec fn qualifies(level: PriceLevel, target: Ratio, side: Side) -> bool {
    match side {
        Side::Ask => level.price * target.den <= target.num * SCALE,
        Side::Bid => level.price * target.den >= target.num * SCALE,
    }
}

/// Sum of the quantities of the levels that qualify for `target`.
pub open spec fn depth_volume(levels: Seq<PriceLevel>, target: Ratio, side: Side) -> int
    decreases levels.len(),
{
    if levels.len() == 0 {
        0
    } else {
        depth_volume(levels.drop_last(), target, side) + if qualifies(
            levels.last(),
            target,
            side,
        ) {
            levels.last().quantity as int
        } else {
            0
        }
    }
}

/// The `i`-th bucket of a normalized side.
pub open spec fn bucket_spec(levels: Seq<PriceLevel>, mid: Ratio, side: Side, i: int) -> DepthBucket {
    DepthBucket {
        target_price: target_spec(mid, side, i),
        cumulative_quantity: depth_volume(levels, target_spec(mid, side, i), side) as u128,
    }
}

pub proof fn lemma_depth_volume_bounds(levels: Seq<PriceLevel>, target: Ratio, side: Side)
    ensures
        0 <= depth_volume(levels, target, side) <= total_quantity(levels),
    decreases levels.len(),
{
    if levels.len() > 0 {
        lemma_depth_volume_bounds(levels.drop_last(), target, side);
    }
}

/// Sum of the quantities of the levels of `levels` that qualify for `target`.
fn volume_within(levels: &Vec<PriceLevel>, target: Ratio, side: Side) -> (r: u128)
    requires
        0 < target.den <= 0x100_0000_0000 * OFFSET_DENOMINATOR,
        0 <= target.num <= 0x4_0000_0000_0000_0000 * (OFFSET_DENOMINATOR + 100),
    ensures
        r == depth_volume(levels@, target, side),
{
    let mut acc: u128 = 0;
    let mut i: usize = 0;
    while i < levels.len()
        invariant
            0 < target.den <= 0x100_0000_0000 * OFFSET_DENOMINATOR,
            0 <= target.num <= 0x4_0000_0000_0000_0000 * (OFFSET_DENOMINATOR + 100),
            i <= levels.len(),
            acc == depth_volume(levels@.take(i as int), target, side),
        decreases levels.len() - i,
    {
        proof {
            assert(levels@.take(i + 1).drop_last() == levels@.take(i as int));
            lemma_depth_volume_bounds(levels@.take(i as int), target, side);
            lemma_total_quantity_bounds(levels@.take(i as int));
            assert(i * (u64::MAX as int) + u64::MAX as int <= (usize::MAX as int) * (u64::MAX as int))
                by (nonlinear_arith)
                requires
                    i < usize::MAX,
            ;
            assert((usize::MAX as int) * (u64::MAX as int) < u128::MAX) by (nonlinear_arith)
                requires
                    usize::MAX <= u64::MAX,
            ;
        }
        let level = levels[i];
        assert(level.price * target.den <= u64::MAX * (0x100_0000_0000 * OFFSET_DENOMINATOR))
            by (nonlinear_arith)
            requires
                0 <= level.price <= u64::MAX,
                0 < target.den <= 0x100_0000_0000 * OFFSET_DENOMINATOR,
        ;
        assert(target.num * SCALE <= 0x4_0000_0000_0000_0000 * (OFFSET_DENOMINATOR + 100) * SCALE)
            by (nonlinear_arith)
            requires
                0 <= target.num <= 0x4_0000_0000_0000_0000 * (OFFSET_DENOMINATOR + 100),
        ;
        let scaled: i128 = level.price as i128 * target.den;
        let bound: i128 = target.num * SCALE as i128;
        let counts = match side {
            Side::Ask => scaled <= bound,
            Side::Bid => scaled >= bound,
        };
        if counts {
            acc = acc + level.quantity as u128;
        }
        i = i + 1;
    }
    assert(levels@.take(levels@.len() as int) == levels@);
    acc
}

/// One bucket per relative depth offset, in ascending order of offset: the
/// target price and the total quantity of the levels at least as favourable
/// to a taker as that target. Each bucket scans every level anew.
pub fn normalize_to_depths(levels: &Vec<PriceLevel>, mid: Ratio, side: Side) -> (r: Vec<
    DepthBucket,
>)
    requires
        mid.is_price(),
    ensures
        r@.len() == DEPTH_BUCKETS,
        forall|i: int| 0 <= i < DEPTH_BUCKETS ==> r@[i] == bucket_spec(levels@, mid, side, i),
{
    let mut out: Vec<DepthBucket> = Vec::new();
    let mut i: usize = 0;
    while i < DEPTH_BUCKETS
        invariant
            mid.is_price(),
            i <= DEPTH_BUCKETS,
            out@.len() == i,
            forall|j: int| 0 <= j < i ==> out@[j] == bucket_spec(levels@, mid, side, j),
        decreases DEPTH_BUCKETS - i,
    {
        let d = depth_offset(i);
        let factor: i128 = match side {
            Side::Ask => OFFSET_DENOMINATOR + d,
            Side::Bid => OFFSET_DENOMINATOR - d,
        };
        assert(mid.num * factor <= 0x4_0000_0000_0000_0000 * (OFFSET_DENOMINATOR + 100))
            by (nonlinear_arith)
            requires
                0 <= mid.num <= 0x4_0000_0000_0000_0000,
                0 <= factor <= OFFSET_DENOMINATOR + 100,
        ;
        assert(0 <= mid.num * factor) by (nonlinear_arith)
            requires
                0 <= mid.num,
                0 <= factor,
        ;
        let target = Ratio { num: mid.num * factor, den: mid.den * OFFSET_DENOMINATOR };
        let cumulative_quantity = volume_within(levels, target, side);
        out.push(DepthBucket { target_price: target, cumulative_quantity });
        i = i + 1;
    }
    out
}

/// The imbalance ratio of every book lies in `[-1, 1]`, and it is exactly `0`
/// when the near-touch volumes of both sides are zero.
pub proof fn lemma_imbalance_bounded(bids: Seq<PriceLevel>, asks: Seq<PriceLevel>)
    requires
        bids.len() >= 1,
        asks.len() >= 1,
    ensures
        ({
            let r = metrics_spec(bids, asks).imbalance_ratio;
            &&& r.wf()
            &&& (Ratio { num: -1i128, den: 1 }).le(r)
            &&& r.le(Ratio { num: 1, den: 1 })
            &&& top_volume_spec(bids) == 0 && top_volume_spec(asks) == 0 ==> r == (Ratio {
                num: 0,
                den: 1,
            })
        }),
{
    lemma_total_quantity_bounds(bids);
    lemma_total_quantity_bounds(asks);
    lemma_total_quantity_bounds(bids.take(TOP_LEVELS as int));
    lemma_total_quantity_bounds(asks.take(TOP_LEVELS as int));
}

/// The mid price lies between the lower and the higher of the two
/// top-of-book prices, and the spread is positive when the best ask is above
/// the best bid.
pub proof fn lemma_mid_between_touch(bids: Seq<PriceLevel>, asks: Seq<PriceLevel>)
    requires
        bids.len() >= 1,
        asks.len() >= 1,
    ensures
        ({
            let m = metrics_spec(bids, asks);
            let lo = if bids[0].price <= asks[0].price {
                bids[0].price
            } else {
                asks[0].price
            };
            let hi = if bids[0].price <= asks[0].price {
                asks[0].price
            } else {
                bids[0].price
            };
            &&& m.mid_price.wf()
            &&& (Ratio { num: lo as i128, den: SCALE as i128 }).le(m.mid_price)
            &&& m.mid_price.le(Ratio { num: hi as i128, den: SCALE as i128 })
            &&& asks[0].price > bids[0].price ==> m.spread.num > 0 && m.spread.wf()
        }),
{
    let m = metrics_spec(bids, asks);
    let lo = if bids[0].price <= asks[0].price { bids[0].price } else { asks[0].price };
    let hi = if bids[0].price <= asks[0].price { asks[0].price } else { bids[0].price };
    assert(lo * (2 * SCALE) <= m.mid_price.num * SCALE) by (nonlinear_arith)
        requires
            m.mid_price.num == bids[0].price + asks[0].price,
            lo <= bids[0].price,
            lo <= asks[0].price,
    ;
    assert(m.mid_price.num * SCALE <= hi * (2 * SCALE)) by (nonlinear_arith)
        requires
            m.mid_price.num == bids[0].price + asks[0].price,
            hi >= bids[0].price,
            hi >= asks[0].price,
    ;
}

/// A level that qualifies for a bucket qualifies for every bucket further
/// from the mid price.
pub proof fn lemma_qualifies_widens(level: PriceLevel, mid: Ratio, side: Side, i: int, j: int)
    requires
        mid.is_price(),
        0 <= i < j < DEPTH_BUCKETS,
        qualifies(level, target_spec(mid, side, i), side),
    ensures
        qualifies(level, target_spec(mid, side, j), side),
{
    let fi = match side {
        Side::Ask => OFFSET_DENOMINATOR + offset_spec(i),
        Side::Bid => OFFSET_DENOMINATOR - offset_spec(i),
    };
    let fj = match side {
        Side::Ask => OFFSET_DENOMINATOR + offset_spec(j),
        Side::Bid => OFFSET_DENOMINATOR - offset_spec(j),
    };
    assert(0 <= mid.num * fi <= 0x4_0000_0000_0000_0000 * (OFFSET_DENOMINATOR + 100))
        by (nonlinear_arith)
        requires
            0 <= mid.num <= 0x4_0000_0000_0000_0000,
            0 <= fi <= OFFSET_DENOMINATOR + 100,
    ;
    assert(0 <= mid.num * fj <= 0x4_0000_0000_0000_0000 * (OFFSET_DENOMINATOR + 100))
        by (nonlinear_arith)
        requires
            0 <= mid.num <= 0x4_0000_0000_0000_0000,
            0 <= fj <= OFFSET_DENOMINATOR + 100,
    ;
    match side {
        Side::Ask => {
            assert(mid.num * fi * SCALE <= mid.num * fj * SCALE) by (nonlinear_arith)
                requires
                    0 <= mid.num,
                    fi <= fj,
            ;
        },
        Side::Bid => {
            assert(mid.num * fj * SCALE <= mid.num * fi * SCALE) by (nonlinear_arith)
                requires
                    0 <= mid.num,
                    fj <= fi,
            ;
        },
    }
}

proof fn lemma_depth_volume_widens(levels: Seq<PriceLevel>, mid: Ratio, side: Side, i: int, j: int)
    requires
        mid.is_price(),
        0 <= i < j < DEPTH_BUCKETS,
    ensures
        depth_volume(levels, target_spec(mid, side, i), side) <= depth_volume(
            levels,
            target_spec(mid, side, j),
            side,
        ),
    decreases levels.len(),
{
    if levels.len() > 0 {
        lemma_depth_volume_widens(levels.drop_last(), mid, side, i, j);
        if qualifies(levels.last(), target_spec(mid, side, i), side) {
            lemma_qualifies_widens(levels.last(), mid, side, i, j);
        }
    }
}

/// For one side and one list of levels, the cumulative quantity never
/// decreases from a bucket to a wider one.
pub proof fn lemma_buckets_monotone(levels: Seq<PriceLevel>, mid: Ratio, side: Side, i: int, j: int)
    requires
        mid.is_price(),
        levels.len() <= usize::MAX,
        0 <= i < j < DEPTH_BUCKETS,
    ensures
        bucket_spec(levels, mid, side, i).cumulative_quantity <= bucket_spec(
            levels,
            mid,
            side,
            j,
        ).cumulative_quantity,
{
    lemma_depth_volume_widens(levels, mid, side, i, j);
    lemma_depth_volume_bounds(levels, target_spec(mid, side, i), side);
    lemma_depth_volume_bounds(levels, target_spec(mid, side, j), side);
    lemma_total_quantity_bounds(levels);
    assert(levels.len() * (u64::MAX as int) <= u128::MAX) by (nonlinear_arith)
        requires
            levels.len() <= usize::MAX,
            usize::MAX <= u64::MAX,
    ;
}

} // verus!
