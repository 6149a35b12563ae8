//! The quantile extractor: a sorted sample of simulated portfolio values and
//! the Value-at-Risk read off it.

use vstd::prelude::*;
use vstd::arithmetic::div_mod::lemma_div_is_ordered;
use vstd::arithmetic::div_mod::lemma_fundamental_div_mod;
use vstd::arithmetic::div_mod::lemma_mod_bound;
use vstd::seq_lib::lemma_sorted_unique;
use crate::fixed::clamp_int;
use crate::fixed::div_floor;
use crate::fixed::lemma_mul_bounded;
use crate::fixed::SCALE;

verus! {

/// Confidence level used where the request gives none, in millionths.
pub const DEFAULT_CONFIDENCE: i32 = 950_000;

/// Bound on the magnitude of a simulated portfolio value.
pub const VALUE_BOUND: i128 = 0x800_0000_0000_0000_0000_0000_0000;

/// The confidence level that a request means: its own where that is
/// positive, else the default.
pub open spec fn effective_confidence(confidence: int) -> int {
    if confidence <= 0 {
        DEFAULT_CONFIDENCE as int
    } else {
        confidence
    }
}

/// The rank of the simulated value that marks the loss tail: the share
/// `1 - confidence` of the trials, rounded down and kept within the sample.
pub open spec fn quantile_index(confidence: int, trials: int) -> int {
    clamp_int((SCALE - confidence) * trials / (SCALE as int), 0, trials - 1)
}

/// The Value-at-Risk of a portfolio worth `total`, from the ascending
/// sample `sorted`: what is lost when the portfolio ends at the value of
/// the quantile rank.  It is negative where that value exceeds `total`.
pub open spec fn value_at_risk(total: int, sorted: Seq<int>, confidence: int) -> int {
    total - sorted[quantile_index(effective_confidence(confidence), sorted.len() as int)]
}

/// The order in which a sample is sorted.
pub open spec fn leq() -> spec_fn(int, int) -> bool {
    |a: int, b: int| a <= b
}

/// No value of the sequence is followed by a smaller one.
pub open spec fn is_ascending(values: Seq<int>) -> bool {
    forall|i: int, j: int| 0 <= i <= j < values.len() ==> values[i] <= values[j]
}

/// The values of `values` in ascending order.
pub open spec fn ascending(values: Seq<int>) -> Seq<int> {
    values.sort_by(leq())
}

/// A sequence of 128-bit numbers as mathematical integers.
pub open spec fn ints(values: Seq<i128>) -> Seq<int> {
    values.map_values(|v: i128| v as int)
}

/// An ascending sequence with the same values as another, each as often, is
/// that other's ascending arrangement.
pub proof fn lemma_ascending_unique(sorted: Seq<int>, values: Seq<int>)
    requires
        is_ascending(sorted),
        sorted.to_multiset() == values.to_multiset(),
    ensures
        sorted == ascending(values),
        is_ascending(ascending(values)),
        ascending(values).len() == values.len(),
{
    values.lemma_sort_by_ensures(leq());
    lemma_sorted_unique(sorted, values.sort_by(leq()), leq());
    sorted.to_multiset_ensures();
    values.to_multiset_ensures();
}

/// The ascending arrangement of a sequence is ascending and as long as the
/// sequence.
pub proof fn lemma_ascending(values: Seq<int>)
    ensures
        is_ascending(ascending(values)),
        ascending(values).len() == values.len(),
        ascending(values).to_multiset() == values.to_multiset(),
{
    values.lemma_sort_by_ensures(leq());
    ascending(values).to_multiset_ensures();
    values.to_multiset_ensures();
    assert forall|i: int, j: int| 0 <= i <= j < ascending(values).len() implies ascending(
        values,
    )[i] <= ascending(values)[j] by {
        if i < j {
            assert(leq()(ascending(values)[i], ascending(values)[j]));
        }
    }
}

/// `slice::sort` of the standard library: afterwards the vector is in
/// ascending order and holds the values it held before, each as often.
#[verifier::external_body]
fn sort_values(values: &mut Vec<i128>)
    ensures
        is_ascending(ints(final(values)@)),
        ints(final(values)@).to_multiset() == ints(old(values)@).to_multiset(),
        final(values)@.len() == old(values)@.len(),
{
    values.sort();
}

/// Computes the quantile rank for a sample of `trials` values.
pub fn quantile_rank(confidence: i32, trials: usize) -> (index: usize)
    requires
        trials > 0,
    ensures
        index == quantile_index(confidence as int, trials as int),
        index < trials,
{
    let tail: i128 = SCALE - confidence as i128;
    proof {
        lemma_mul_bounded(tail as int, trials as int, 0x1_0000_0000, 0x1_0000_0000_0000_0000);
    }
    let rank: i128 = div_floor(tail * trials as i128, SCALE);
    if rank < 0 {
        0
    } else if rank > trials as i128 - 1 {
        trials - 1
    } else {
        rank as usize
    }
}

/// The simulated portfolio values of one request, in ascending order.
pub struct SimulationResult {
    values: Vec<i128>,
}

impl View for SimulationResult {
    type V = Seq<int>;

    closed spec fn view(&self) -> Seq<int> {
        ints(self.values@)
    }
}

impl SimulationResult {
    /// The values are in ascending order and within [`VALUE_BOUND`].
    pub open spec fn wf(&self) -> bool {
        &&& is_ascending(self@)
        &&& forall|i: int|
            0 <= i < self@.len() ==> -VALUE_BOUND <= #[trigger] self@[i] <= VALUE_BOUND
    }

    /// Sorts `values` into a sample.
    pub(crate) fn from_unsorted(values: Vec<i128>) -> (sample: SimulationResult)
        requires
            forall|i: int|
                0 <= i < values@.len() ==> -VALUE_BOUND <= #[trigger] values@[i] <= VALUE_BOUND,
        ensures
            sample.wf(),
            sample@ == ascending(ints(values@)),
            sample@.len() == values@.len(),
    {
        let mut sorted = values;
        sort_values(&mut sorted);
        let sample = SimulationResult { values: sorted };
        proof {
            lemma_ascending_unique(sample@, ints(values@));
            assert forall|i: int| 0 <= i < sample@.len() implies -VALUE_BOUND
                <= #[trigger] sample@[i] <= VALUE_BOUND by {
                let v = sample@[i];
                sample@.to_multiset_ensures();
                ints(values@).to_multiset_ensures();
                assert(sample@.to_multiset().count(v) > 0);
            }
        }
        sample
    }

    /// The sample of the given portfolio values.
    pub fn from_values(values: &Vec<i64>) -> (sample: SimulationResult)
        ensures
            sample.wf(),
            sample@ == ascending(values@.map_values(|v: i64| v as int)),
            sample@.len() == values@.len(),
    {
        let mut wide: Vec<i128> = Vec::new();
        let mut i: usize = 0;
        while i < values.len()
            invariant
                i <= values.len(),
                wide@.len() == i,
                forall|k: int| 0 <= k < i ==> (#[trigger] wide@[k]) == values@[k],
            decreases values.len() - i,
        {
            wide.push(values[i] as i128);
            i += 1;
        }
        assert(ints(wide@) =~= values@.map_values(|v: i64| v as int));
        SimulationResult::from_unsorted(wide)
    }

    /// The number of simulated values.
    pub fn len(&self) -> (n: usize)
        ensures
            n == self@.len(),
    {
        self.values.len()
    }

    /// The simulated value of rank `index`, the smallest having rank zero.
    pub fn value_at(&self, index: usize) -> (value: i128)
        requires
            index < self@.len(),
        ensures
            value == self@[index as int],
    {
        self.values[index]
    }

    /// The Value-at-Risk of a portfolio worth `total` at the given
    /// confidence level, which is replaced by the default where it is not
    /// positive.  The result is not floored at zero.
    pub fn value_at_risk(&self, total: i64, confidence: i32) -> (var: i128)
        requires
            self.wf(),
            self@.len() > 0,
        ensures
            var == value_at_risk(total as int, self@, confidence as int),
    {
        let level: i32 = if confidence <= 0 {
            DEFAULT_CONFIDENCE
        } else {
            confidence
        };
        let index: usize = quantile_rank(level, self.values.len());
        assert(-VALUE_BOUND <= self@[index as int] <= VALUE_BOUND);
        total as i128 - self.values[index]
    }
}

/// What the Value-at-Risk means: in every trial from the quantile rank
/// upwards the loss is at most the Value-at-Risk, and these trials are at
/// least the share `confidence` of all trials.
pub proof fn lemma_value_at_risk_covers(total: int, sorted: Seq<int>, confidence: int)
    requires
        is_ascending(sorted),
        sorted.len() > 0,
        0 < confidence <= SCALE,
    ensures
        forall|t: int|
            quantile_index(confidence, sorted.len() as int) <= t < sorted.len() ==> total
                - #[trigger] sorted[t] <= value_at_risk(total, sorted, confidence),
        (sorted.len() - quantile_index(confidence, sorted.len() as int)) * SCALE >= confidence
            * sorted.len(),
{
    let trials = sorted.len() as int;
    let tail = (SCALE - confidence) * trials;
    assert(tail >= 0) by (nonlinear_arith)
        requires
            tail == (SCALE - confidence) * trials,
            confidence <= SCALE,
            trials > 0,
    ;
    lemma_fundamental_div_mod(tail, SCALE as int);
    lemma_mod_bound(tail, SCALE as int);
    let rank = tail / (SCALE as int);
    assert(0 <= rank && rank * SCALE <= tail) by (nonlinear_arith)
        requires
            tail == SCALE * rank + tail % (SCALE as int),
            0 <= tail % (SCALE as int) < SCALE,
            tail >= 0,
    ;
    let index = quantile_index(confidence, trials);
    assert((trials - index) * SCALE >= confidence * trials) by (nonlinear_arith)
        requires
            index * SCALE <= rank * SCALE,
            rank * SCALE <= tail,
            tail == (SCALE - confidence) * trials,
    ;
}

/// A higher confidence level never has a higher quantile rank.
pub proof fn lemma_quantile_index_monotone(lower: int, higher: int, trials: int)
    requires
        lower <= higher,
        trials > 0,
    ensures
        quantile_index(higher, trials) <= quantile_index(lower, trials),
{
    assert((SCALE - higher) * trials <= (SCALE - lower) * trials) by (nonlinear_arith)
        requires
            lower <= higher,
            trials > 0,
    ;
    lemma_div_is_ordered((SCALE - higher) * trials, (SCALE - lower) * trials, SCALE as int);
}

/// Monotonicity law: on one and the same sample, a higher confidence level
/// never gives a lower Value-at-Risk.  Both levels are positive, so that
/// neither is replaced by the default.
pub proof fn lemma_value_at_risk_monotone(total: int, sorted: Seq<int>, lower: int, higher: int)
    requires
        is_ascending(sorted),
        sorted.len() > 0,
        0 < lower < higher,
    ensures
        value_at_risk(total, sorted, higher) >= value_at_risk(total, sorted, lower),
{
    lemma_quantile_index_monotone(lower, higher, sorted.len() as int);
}

} // verus!
