//! Sample moments of return series: sums, means and covariances, as
//! mathematical functions of sequences, with the facts that hold of them.

use vstd::prelude::*;
use crate::fixed::lemma_div_between;
use crate::fixed::lemma_mul_bounded;

verus! {

/// Bound on the distance between a return and the mean of its series.
pub const DEVIATION_BOUND: i128 = 0x1_0000_0000;

/// Bound on one product of two deviations.
pub const PRODUCT_BOUND: i128 = 0x1_0000_0000_0000_0000;

/// The sum of a series.
pub open spec fn sum(s: Seq<i32>) -> int
    decreases s.len(),
{
    if s.len() == 0 {
        0
    } else {
        sum(s.drop_last()) + s.last()
    }
}

/// The mean of a non-empty series, rounded down to a whole fixed-point unit.
pub open spec fn mean(s: Seq<i32>) -> int {
    sum(s) / (s.len() as int)
}

/// The sum, over the first `upto` days, of the products of the distances of
/// `a` from `centre_a` and of `b` from `centre_b`.
pub open spec fn cross_sum(
    a: Seq<i32>,
    centre_a: int,
    b: Seq<i32>,
    centre_b: int,
    upto: nat,
) -> int
    decreases upto,
{
    if upto == 0 {
        0
    } else {
        let day = upto - 1;
        cross_sum(a, centre_a, b, centre_b, day as nat) + (a[day] - centre_a) * (b[day] - centre_b)
    }
}

/// The sum over all days of the products of the two series' deviations from
/// their means.  Both series cover the same days.
pub open spec fn co_moment(a: Seq<i32>, b: Seq<i32>) -> int {
    cross_sum(a, mean(a), b, mean(b), a.len())
}

/// The sample covariance of two series of the same two or more days: the
/// co-moment divided by one less than the number of days, rounded down.
pub open spec fn covariance(a: Seq<i32>, b: Seq<i32>) -> int {
    co_moment(a, b) / (a.len() - 1)
}

/// A sum of `n` returns lies within `n` times the range of one return.
pub proof fn lemma_sum_bounded(s: Seq<i32>)
    ensures
        -0x8000_0000 * s.len() <= sum(s) <= 0x7fff_ffff * s.len(),
    decreases s.len(),
{
    if s.len() > 0 {
        lemma_sum_bounded(s.drop_last());
    }
}

/// The mean of a series is itself within the range of a return.
pub proof fn lemma_mean_bounded(s: Seq<i32>)
    requires
        s.len() > 0,
    ensures
        -0x8000_0000 <= mean(s) <= 0x7fff_ffff,
{
    lemma_sum_bounded(s);
    lemma_div_between(sum(s), s.len() as int, -0x8000_0000, 0x7fff_ffff);
}

/// A cross sum over `upto` days is at most `upto` products of two
/// deviations, when the centres are themselves within the range of a return.
pub proof fn lemma_cross_sum_bounded(
    a: Seq<i32>,
    centre_a: int,
    b: Seq<i32>,
    centre_b: int,
    upto: nat,
)
    requires
        upto <= a.len(),
        upto <= b.len(),
        -0x8000_0000 <= centre_a <= 0x7fff_ffff,
        -0x8000_0000 <= centre_b <= 0x7fff_ffff,
    ensures
        -(PRODUCT_BOUND * upto) <= cross_sum(a, centre_a, b, centre_b, upto),
        cross_sum(a, centre_a, b, centre_b, upto) <= PRODUCT_BOUND * upto,
    decreases upto,
{
    if upto > 0 {
        lemma_cross_sum_bounded(a, centre_a, b, centre_b, (upto - 1) as nat);
        lemma_mul_bounded(
            a[upto - 1] - centre_a,
            b[upto - 1] - centre_b,
            DEVIATION_BOUND as int,
            DEVIATION_BOUND as int,
        );
        assert(PRODUCT_BOUND * upto == PRODUCT_BOUND * (upto - 1) + PRODUCT_BOUND)
            by (nonlinear_arith);
    }
}

/// A cross sum does not depend on the order of its two series.
pub proof fn lemma_cross_sum_symmetric(
    a: Seq<i32>,
    centre_a: int,
    b: Seq<i32>,
    centre_b: int,
    upto: nat,
)
    ensures
        cross_sum(a, centre_a, b, centre_b, upto) == cross_sum(b, centre_b, a, centre_a, upto),
    decreases upto,
{
    if upto > 0 {
        lemma_cross_sum_symmetric(a, centre_a, b, centre_b, (upto - 1) as nat);
    }
}

/// A cross sum of a series with itself is a sum of squares.
pub proof fn lemma_cross_sum_square(a: Seq<i32>, centre: int, upto: nat)
    ensures
        cross_sum(a, centre, a, centre, upto) >= 0,
    decreases upto,
{
    if upto > 0 {
        lemma_cross_sum_square(a, centre, (upto - 1) as nat);
        assert((a[upto - 1] - centre) * (a[upto - 1] - centre) >= 0) by (nonlinear_arith);
    }
}

/// Symmetry law: the covariance of two series over the same days does not
/// depend on their order.
pub proof fn lemma_covariance_symmetric(a: Seq<i32>, b: Seq<i32>)
    requires
        a.len() == b.len(),
    ensures
        co_moment(a, b) == co_moment(b, a),
        covariance(a, b) == covariance(b, a),
{
    lemma_cross_sum_symmetric(a, mean(a), b, mean(b), a.len());
}

/// A series never varies negatively with itself: the diagonal of a
/// covariance matrix is non-negative.
pub proof fn lemma_variance_nonnegative(a: Seq<i32>)
    requires
        a.len() >= 2,
    ensures
        co_moment(a, a) >= 0,
        covariance(a, a) >= 0,
{
    lemma_cross_sum_square(a, mean(a), a.len());
    let m = co_moment(a, a);
    let d = a.len() - 1;
    assert(0 * d <= m && m <= m * d + (d - 1)) by (nonlinear_arith)
        requires
            m >= 0,
            d >= 1,
    ;
    lemma_div_between(m, d, 0, m);
}

/// The covariance of two series of at most `days` days is bounded.
pub proof fn lemma_covariance_bounded(a: Seq<i32>, b: Seq<i32>)
    requires
        a.len() == b.len(),
        a.len() >= 2,
    ensures
        -(PRODUCT_BOUND * a.len()) <= co_moment(a, b) <= PRODUCT_BOUND * a.len(),
        -(PRODUCT_BOUND * a.len()) <= covariance(a, b) <= PRODUCT_BOUND * a.len(),
{
    lemma_mean_bounded(a);
    lemma_mean_bounded(b);
    lemma_cross_sum_bounded(a, mean(a), b, mean(b), a.len());
    let m = co_moment(a, b);
    let d = a.len() - 1;
    let cap = PRODUCT_BOUND * a.len();
    assert(-cap * d <= m && m <= cap * d) by (nonlinear_arith)
        requires
            -cap <= m <= cap,
            d >= 1,
            cap >= 0,
    ;
    lemma_div_between(m, d, -cap, cap);
}

/// Cauchy-Schwarz for cross sums: the square of the cross sum of two series
/// is at most the product of their sums of squares.
pub proof fn lemma_cross_sum_cauchy_schwarz(
    a: Seq<i32>,
    centre_a: int,
    b: Seq<i32>,
    centre_b: int,
    upto: nat,
)
    ensures
        cross_sum(a, centre_a, b, centre_b, upto) * cross_sum(a, centre_a, b, centre_b, upto)
            <= cross_sum(a, centre_a, a, centre_a, upto) * cross_sum(
            b,
            centre_b,
            b,
            centre_b,
            upto,
        ),
    decreases upto,
{
    if upto == 0 {
    } else {
        let k = (upto - 1) as nat;
        lemma_cross_sum_cauchy_schwarz(a, centre_a, b, centre_b, k);
        lemma_cross_sum_square(a, centre_a, k);
        lemma_cross_sum_square(b, centre_b, k);
        let sa = cross_sum(a, centre_a, a, centre_a, k);
        let sb = cross_sum(b, centre_b, b, centre_b, k);
        let sc = cross_sum(a, centre_a, b, centre_b, k);
        let x = a[upto - 1] - centre_a;
        let y = b[upto - 1] - centre_b;
        lemma_step_cauchy_schwarz(sa, sb, sc, x, y);
    }
}

/// One more day keeps the Cauchy-Schwarz inequality.
proof fn lemma_step_cauchy_schwarz(sa: int, sb: int, sc: int, x: int, y: int)
    requires
        sa >= 0,
        sb >= 0,
        sc * sc <= sa * sb,
    ensures
        (sc + x * y) * (sc + x * y) <= (sa + x * x) * (sb + y * y),
{
    let xx = x * x;
    let yy = y * y;
    let xy = x * y;
    let t = sa * yy + sb * xx - 2 * (sc * xy);
    assert(xx >= 0 && yy >= 0) by (nonlinear_arith)
        requires
            xx == x * x,
            yy == y * y,
    ;
    if sa == 0 {
        assert(sc == 0) by (nonlinear_arith)
            requires
                sc * sc <= sa * sb,
                sa == 0,
        ;
        assert(t >= 0) by (nonlinear_arith)
            requires
                t == sa * yy + sb * xx - 2 * (sc * xy),
                sa == 0,
                sc == 0,
                sb >= 0,
                xx >= 0,
        ;
    } else {
        let p = sa * y;
        let q = sc * x;
        let u = p - q;
        assert(u * u == p * p - 2 * (p * q) + q * q) by (nonlinear_arith)
            requires
                u == p - q,
        ;
        assert(p * p == sa * (sa * yy)) by (nonlinear_arith)
            requires
                p == sa * y,
                yy == y * y,
        ;
        assert(q * q == (sc * sc) * xx) by (nonlinear_arith)
            requires
                q == sc * x,
                xx == x * x,
        ;
        assert(p * q == sa * (sc * xy)) by (nonlinear_arith)
            requires
                p == sa * y,
                q == sc * x,
                xy == x * y,
        ;
        assert(sa * (sb * xx) >= (sc * sc) * xx) by (nonlinear_arith)
            requires
                sc * sc <= sa * sb,
                xx >= 0,
        ;
        let w1 = sa * yy;
        let w2 = sb * xx;
        let w3 = sc * xy;
        assert(sa * t == sa * w1 + sa * w2 - 2 * (sa * w3)) by (nonlinear_arith)
            requires
                t == w1 + w2 - 2 * w3,
        ;
        assert(u * u >= 0) by (nonlinear_arith);
        assert(t >= 0) by (nonlinear_arith)
            requires
                sa * t >= 0,
                sa > 0,
        ;
    }
    assert((sa + xx) * (sb + yy) == sa * sb + sa * yy + sb * xx + xx * yy) by (nonlinear_arith);
    assert((sc + xy) * (sc + xy) == sc * sc + 2 * (sc * xy) + xy * xy) by (nonlinear_arith);
    assert(xx * yy == xy * xy) by (nonlinear_arith)
        requires
            xx == x * x,
            yy == y * y,
            xy == x * y,
    ;
}

/// Correlation law: the square of the co-moment of two series is at most the
/// product of their own co-moments, so that in exact arithmetic no
/// correlation lies outside the interval from minus one to one.
pub proof fn lemma_co_moment_cauchy_schwarz(a: Seq<i32>, b: Seq<i32>)
    requires
        a.len() == b.len(),
    ensures
        co_moment(a, b) * co_moment(a, b) <= co_moment(a, a) * co_moment(b, b),
{
    lemma_cross_sum_cauchy_schwarz(a, mean(a), b, mean(b), a.len());
}

} // verus!
