//! Price series and their reduction to the sample closest to a target time.
use vstd::prelude::*;
use crate::decimal::{Dec, SPLIT_BASE, distance, distance_between, split_less, split_value};
use crate::error::{TokenError, unknown_error, UNKNOWN_ERROR_CODE, unknown_error_message};

verus! {

/// One sample chosen from a series: its time and its value.
#[derive(Clone, Copy, Debug, PartialEq, Eq, Structural)]
pub struct PricePoint {
    pub timestamp: Dec,
    pub price: Dec,
}

/// Three series as the upstream sends them; each sample is a
/// `[timestamp, value]` pair.
#[derive(Debug)]
pub struct TimeSeries {
    pub prices: Vec<Vec<Dec>>,
    pub market_caps: Vec<Vec<Dec>>,
    pub total_volumes: Vec<Vec<Dec>>,
}

pub open spec fn row_wf(row: Seq<Dec>) -> bool {
    forall|i: int| 0 <= i < row.len() ==> (#[trigger] row[i]).wf()
}

pub open spec fn rows_wf(rows: Seq<Seq<Dec>>) -> bool {
    forall|i: int| 0 <= i < rows.len() ==> row_wf(#[trigger] rows[i])
}

/// The samples of a series as plain sequences.
pub open spec fn rows_view(rows: Seq<Vec<Dec>>) -> Seq<Seq<Dec>> {
    rows.map_values(|r: Vec<Dec>| r@)
}

impl TimeSeries {
    pub open spec fn wf(self) -> bool {
        rows_wf(rows_view(self.prices@)) && rows_wf(rows_view(self.market_caps@))
            && rows_wf(rows_view(self.total_volumes@))
    }
}

pub open spec fn zero_dec() -> Dec {
    Dec { mantissa: 0, scale: 0 }
}

/// The candidate a sample yields: its first entry as the time and its last
/// as the value, zero standing in for a missing entry.
pub open spec fn candidate(row: Seq<Dec>) -> PricePoint {
    if row.len() == 0 {
        PricePoint { timestamp: zero_dec(), price: zero_dec() }
    } else {
        PricePoint { timestamp: row[0], price: row.last() }
    }
}

pub open spec fn gap(rows: Seq<Seq<Dec>>, target: Dec, i: int) -> int {
    distance(candidate(rows[i]).timestamp, target)
}

/// Sample `i` is nearest to `target` of all, and strictly nearer than every
/// sample before it.
pub open spec fn is_closest(rows: Seq<Seq<Dec>>, target: Dec, i: int) -> bool {
    &&& 0 <= i < rows.len()
    &&& forall|j: int| 0 <= j < rows.len() ==> gap(rows, target, i) <= #[trigger] gap(rows, target, j)
    &&& forall|j: int| 0 <= j < i ==> gap(rows, target, i) < #[trigger] gap(rows, target, j)
}

/// The index of the sample nearest to `target`, the earliest one on a tie.
pub open spec fn closest(rows: Seq<Seq<Dec>>, target: Dec) -> int {
    choose|i: int| is_closest(rows, target, i)
}

/// The point that the reduction yields, where the series has samples.
pub open spec fn reduced(rows: Seq<Seq<Dec>>, target: Dec) -> Option<PricePoint> {
    if rows.len() == 0 {
        None
    } else {
        Some(candidate(rows[closest(rows, target)]))
    }
}

/// At most one sample is the nearest under the tie rule.
pub proof fn lemma_closest_unique(rows: Seq<Seq<Dec>>, target: Dec, i: int, j: int)
    requires
        is_closest(rows, target, i),
        is_closest(rows, target, j),
    ensures
        i == j,
{
    if i < j {
        assert(gap(rows, target, j) < gap(rows, target, i));
        assert(gap(rows, target, i) <= gap(rows, target, j));
    } else if j < i {
        assert(gap(rows, target, i) < gap(rows, target, j));
        assert(gap(rows, target, j) <= gap(rows, target, i));
    }
}

fn candidate_of(row: &Vec<Dec>) -> (r: PricePoint)
    ensures
        r == candidate(row@),
{
    if row.len() == 0 {
        PricePoint { timestamp: Dec::zero(), price: Dec::zero() }
    } else {
        PricePoint { timestamp: row[0], price: row[row.len() - 1] }
    }
}

/// The index of the sample whose time is nearest to `target`, the earliest
/// on a tie; `None` for an empty series.
pub fn closest_index(rows: &Vec<Vec<Dec>>, target: &Dec) -> (r: Option<usize>)
    requires
        rows_wf(rows_view(rows@)),
        target.wf(),
    ensures
        r is None <==> rows@.len() == 0,
        r matches Some(i) ==> is_closest(rows_view(rows@), *target, i as int)
            && i as int == closest(rows_view(rows@), *target),
{
    if rows.len() == 0 {
        return None;
    }
    let mut best: usize = 0;
    let first = candidate_of(&rows[0]);
    let ghost v = rows_view(rows@);
    proof {
        assert(row_wf(v[0]));
    }
    let mut best_gap: (i128, i128) = distance_between(&first.timestamp, target);
    let mut i: usize = 1;
    while i < rows.len()
        invariant
            v == rows_view(rows@),
            rows_wf(v),
            target.wf(),
            0 <= best < i <= rows@.len(),
            split_value(best_gap) == gap(v, *target, best as int),
            0 <= best_gap.1 < SPLIT_BASE,
            forall|j: int| 0 <= j < i ==> split_value(best_gap) <= #[trigger] gap(v, *target, j),
            forall|j: int| 0 <= j < best ==> split_value(best_gap) < #[trigger] gap(v, *target, j),
        decreases rows.len() - i,
    {
        let c = candidate_of(&rows[i]);
        proof {
            assert(row_wf(v[i as int]));
        }
        let g = distance_between(&c.timestamp, target);
        if split_less(g, best_gap) {
            best = i;
            best_gap = g;
        }
        i = i + 1;
    }
    proof {
        assert(is_closest(v, *target, best as int));
        lemma_closest_unique(v, *target, best as int, closest(v, *target));
    }
    Some(best)
}

/// The sample of `rows` whose time is nearest to `target`, as a point.
pub fn closest_point(rows: &Vec<Vec<Dec>>, target: &Dec) -> (r: Option<PricePoint>)
    requires
        rows_wf(rows_view(rows@)),
        target.wf(),
    ensures
        r == reduced(rows_view(rows@), *target),
{
    match closest_index(rows, target) {
        None => None,
        Some(i) => Some(candidate_of(&rows[i])),
    }
}

/// Reduces a series to its representative price, or to the unknown-error
/// sentinel when it has no price samples.
pub fn select_price(series: &TimeSeries, target: &Dec) -> (r: Result<PricePoint, TokenError>)
    requires
        series.wf(),
        target.wf(),
    ensures
        match r {
            Ok(p) => reduced(rows_view(series.prices@), *target) == Some(p),
            Err(e) => reduced(rows_view(series.prices@), *target) is None
                && e.model() == (UNKNOWN_ERROR_CODE, unknown_error_message()),
        },
        r is Err <==> series.prices@.len() == 0,
{
    match closest_point(&series.prices, target) {
        Some(p) => Ok(p),
        None => Err(unknown_error()),
    }
}

proof fn lemma_nearest_in_prefix(rows: Seq<Seq<Dec>>, target: Dec, n: int) -> (i: int)
    requires
        0 < n <= rows.len(),
    ensures
        0 <= i < n,
        forall|j: int| 0 <= j < n ==> gap(rows, target, i) <= #[trigger] gap(rows, target, j),
        forall|j: int| 0 <= j < i ==> gap(rows, target, i) < #[trigger] gap(rows, target, j),
    decreases n,
{
    if n == 1 {
        0
    } else {
        let k = lemma_nearest_in_prefix(rows, target, n - 1);
        if gap(rows, target, n - 1) < gap(rows, target, k) {
            n - 1
        } else {
            k
        }
    }
}

/// Every non-empty series has exactly one sample that is nearest to the
/// target and strictly nearer than all samples before it, and the reduction
/// yields that sample.
pub proof fn lemma_reduced_is_nearest(rows: Seq<Seq<Dec>>, target: Dec)
    requires
        rows.len() > 0,
    ensures
        is_closest(rows, target, closest(rows, target)),
        forall|i: int| is_closest(rows, target, i) ==> i == closest(rows, target),
        reduced(rows, target) == Some(candidate(rows[closest(rows, target)])),
{
    let w = lemma_nearest_in_prefix(rows, target, rows.len() as int);
    assert(is_closest(rows, target, w));
    assert forall|i: int| is_closest(rows, target, i) implies i == closest(rows, target) by {
        lemma_closest_unique(rows, target, i, closest(rows, target));
    }
}

} // verus!
