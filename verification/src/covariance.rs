//! The covariance estimator: aligned return histories summarised as a mean
//! vector and a sample covariance matrix.

use vstd::prelude::*;
use crate::fixed::abs_int;
use crate::fixed::abs_value;
use crate::fixed::clamp_int;
use crate::fixed::div_floor;
use crate::fixed::floor_sqrt;
use crate::fixed::isqrt;
use crate::fixed::SCALE;
use crate::matrix::has_shape;
use crate::matrix::matrix_get;
use crate::matrix::matrix_rows;
use crate::matrix::matrix_set;
use crate::matrix::matrix_zeros;
use crate::matrix::IntMatrix;
use crate::moments::co_moment;
use crate::moments::covariance;
use crate::moments::cross_sum;
use crate::moments::lemma_covariance_bounded;
use crate::moments::lemma_cross_sum_bounded;
use crate::moments::lemma_mean_bounded;
use crate::moments::lemma_sum_bounded;
use crate::moments::mean;
use crate::moments::sum;
use crate::moments::PRODUCT_BOUND;
use crate::return_store::asset_ids;
use crate::return_store::ReturnStore;
use crate::return_store::WINDOW_CAP;

verus! {

/// Largest number of assets in one estimate.  With no more assets than
/// this, every sum over the assets fits in 128 bits.
pub const MAX_ASSETS: usize = 1024;

/// Bound on the magnitude of any covariance.
pub const COVARIANCE_BOUND: i128 = 0x1_0000_0000_0000_0000 * 252;

/// The aligned histories of `assets`: for each asset the first
/// `store.common_len(assets)` returns of its window, oldest first.
pub open spec fn aligned_columns(store: ReturnStore, assets: Seq<Seq<char>>) -> Seq<Seq<i32>> {
    Seq::new(assets.len(), |j: int| store.series(assets[j]).take(store.common_len(assets) as int))
}

/// The mean of each column.
pub open spec fn column_means(columns: Seq<Seq<i32>>) -> Seq<int> {
    Seq::new(columns.len(), |j: int| mean(columns[j]))
}

/// The variance of each column: its covariance with itself.
pub open spec fn column_variances(columns: Seq<Seq<i32>>) -> Seq<int> {
    Seq::new(columns.len(), |j: int| covariance(columns[j], columns[j]))
}

/// The volatility of each column.
pub open spec fn column_volatilities(columns: Seq<Seq<i32>>) -> Seq<int> {
    Seq::new(columns.len(), |j: int| volatility_of(covariance(columns[j], columns[j])))
}

/// The correlations of the columns, row after row: the entry at place `k`
/// is the correlation of column `k / n` with column `k % n`, for `n` columns.
pub open spec fn column_correlations(columns: Seq<Seq<i32>>) -> Seq<int> {
    let n = columns.len() as int;
    Seq::new(
        columns.len() * columns.len(),
        |k: int|
            correlation_of(
                covariance(columns[k / n], columns[k % n]),
                covariance(columns[k / n], columns[k / n]),
                covariance(columns[k % n], columns[k % n]),
            ),
    )
}

/// Covariance law: the covariance matrix of aligned histories of two days
/// or more is symmetric, its diagonal is not negative, and the square of a
/// co-moment is at most the product of the two co-moments on the diagonal.
pub proof fn lemma_aligned_covariances(store: ReturnStore, assets: Seq<Seq<char>>, i: int, j: int)
    requires
        store.common_len(assets) >= 2,
        0 <= i < assets.len(),
        0 <= j < assets.len(),
    ensures
        aligned_columns(store, assets)[i].len() == store.common_len(assets),
        covariance(aligned_columns(store, assets)[i], aligned_columns(store, assets)[j])
            == covariance(aligned_columns(store, assets)[j], aligned_columns(store, assets)[i]),
        covariance(aligned_columns(store, assets)[i], aligned_columns(store, assets)[i]) >= 0,
        co_moment(aligned_columns(store, assets)[i], aligned_columns(store, assets)[j]) * co_moment(
            aligned_columns(store, assets)[i],
            aligned_columns(store, assets)[j],
        ) <= co_moment(aligned_columns(store, assets)[i], aligned_columns(store, assets)[i])
            * co_moment(aligned_columns(store, assets)[j], aligned_columns(store, assets)[j]),
{
    store.lemma_common_len_is_minimum(assets);
    let a = aligned_columns(store, assets)[i];
    let b = aligned_columns(store, assets)[j];
    crate::moments::lemma_covariance_symmetric(a, b);
    crate::moments::lemma_variance_nonnegative(a);
    crate::moments::lemma_co_moment_cauchy_schwarz(a, b);
}

/// The matrix holds the columns as its columns: one row for each day, one
/// column for each asset.
pub open spec fn holds_columns(m: IntMatrix, columns: Seq<Seq<i32>>, days: nat) -> bool {
    &&& has_shape(m, days, columns.len())
    &&& forall|j: int| 0 <= j < columns.len() ==> (#[trigger] columns[j]).len() == days
    &&& forall|t: int, j: int|
        0 <= t < days && 0 <= j < columns.len() ==> (#[trigger] matrix_rows(m)[t][j])
            == columns[j][t]
}

/// Builds the matrix of aligned returns: row `t`, column `j` holds the
/// return of asset `j` on day `t` of its window.
fn aligned_returns(store: &ReturnStore, assets: &Vec<String>, days: usize) -> (m: IntMatrix)
    requires
        store.wf(),
        assets.len() <= MAX_ASSETS,
        days == store.common_len(asset_ids(assets@)),
    ensures
        holds_columns(m, aligned_columns(*store, asset_ids(assets@)), days as nat),
{
    let n: usize = assets.len();
    let ghost ids = asset_ids(assets@);
    let ghost columns = aligned_columns(*store, ids);
    proof {
        store.lemma_series_bounded(ids[0]);
        if n > 0 {
            store.lemma_common_len_is_minimum(ids);
        }
        assert(days * n * 16 <= 252 * 1024 * 16) by (nonlinear_arith)
            requires
                days <= 252,
                n <= 1024,
        ;
    }
    let mut m = matrix_zeros(days, n);
    let mut j: usize = 0;
    while j < n
        invariant
            store.wf(),
            n == assets.len(),
            ids == asset_ids(assets@),
            columns == aligned_columns(*store, ids),
            days == store.common_len(ids),
            j <= n,
            has_shape(m, days as nat, n as nat),
            forall|k: int| 0 <= k < n ==> days <= store.series(#[trigger] ids[k]).len(),
            forall|t: int, k: int|
                0 <= t < days && 0 <= k < j ==> (#[trigger] matrix_rows(m)[t][k]) == columns[k][t],
        decreases n - j,
    {
        let history: Vec<i32> = store.get_returns(assets[j].as_str());
        assert(history@ == store.series(ids[j as int]));
        let mut t: usize = 0;
        while t < days
            invariant
                j < n,
                t <= days,
                days <= history@.len(),
                has_shape(m, days as nat, n as nat),
                forall|u: int, k: int|
                    0 <= u < days && 0 <= k < j ==> (#[trigger] matrix_rows(m)[u][k])
                        == columns[k][u],
                forall|u: int|
                    0 <= u < t ==> (#[trigger] matrix_rows(m)[u])[j as int] == history@[u],
            decreases days - t,
        {
            matrix_set(&mut m, t, j, history[t] as i128);
            t += 1;
        }
        j += 1;
    }
    m
}

/// The mean of column `j`, rounded down.
fn column_mean(
    m: &IntMatrix,
    j: usize,
    days: usize,
    Ghost(columns): Ghost<Seq<Seq<i32>>>,
) -> (centre: i32)
    requires
        holds_columns(*m, columns, days as nat),
        j < columns.len(),
        1 <= days <= WINDOW_CAP,
    ensures
        centre == mean(columns[j as int]),
{
    let ghost column = columns[j as int];
    let mut total: i128 = 0;
    let mut t: usize = 0;
    while t < days
        invariant
            holds_columns(*m, columns, days as nat),
            j < columns.len(),
            column == columns[j as int],
            days <= WINDOW_CAP,
            t <= days,
            total == sum(column.take(t as int)),
        decreases days - t,
    {
        let cell: i128 = matrix_get(m, t, j);
        proof {
            let upto = column.take(t + 1);
            assert(upto.drop_last() =~= column.take(t as int));
            lemma_sum_bounded(column.take(t as int));
        }
        total = total + cell;
        t += 1;
    }
    proof {
        assert(column.take(days as int) =~= column);
        lemma_mean_bounded(column);
    }
    div_floor(total, days as i128) as i32
}

/// The sum over all days of the products of the deviations of columns `i`
/// and `j` from the given centres.
fn column_cross_sum(
    m: &IntMatrix,
    i: usize,
    centre_i: i32,
    j: usize,
    centre_j: i32,
    days: usize,
    Ghost(columns): Ghost<Seq<Seq<i32>>>,
) -> (total: i128)
    requires
        holds_columns(*m, columns, days as nat),
        i < columns.len(),
        j < columns.len(),
        days <= WINDOW_CAP,
    ensures
        total == cross_sum(
            columns[i as int],
            centre_i as int,
            columns[j as int],
            centre_j as int,
            days as nat,
        ),
{
    let ghost a = columns[i as int];
    let ghost b = columns[j as int];
    let mut total: i128 = 0;
    let mut t: usize = 0;
    while t < days
        invariant
            holds_columns(*m, columns, days as nat),
            i < columns.len(),
            j < columns.len(),
            a == columns[i as int],
            b == columns[j as int],
            days <= WINDOW_CAP,
            t <= days,
            total == cross_sum(a, centre_i as int, b, centre_j as int, t as nat),
        decreases days - t,
    {
        let x: i128 = matrix_get(m, t, i) - centre_i as i128;
        let y: i128 = matrix_get(m, t, j) - centre_j as i128;
        proof {
            lemma_cross_sum_bounded(a, centre_i as int, b, centre_j as int, t as nat);
            crate::fixed::lemma_mul_bounded(x as int, y as int, 0x1_0000_0000, 0x1_0000_0000);
            assert(PRODUCT_BOUND * t <= PRODUCT_BOUND * 252) by (nonlinear_arith)
                requires
                    t <= 252,
            ;
        }
        total = total + x * y;
        t += 1;
    }
    total
}

/// The volatility that goes with a variance: the integer square root of
/// its magnitude.
pub open spec fn volatility_of(variance: int) -> int {
    floor_sqrt(abs_int(variance))
}

/// The correlation, in millionths, that goes with a covariance and the two
/// variances: the covariance divided by the product of the volatilities,
/// limited to the interval from minus one to one; zero where a volatility
/// is zero.
pub open spec fn correlation_of(cov: int, variance_i: int, variance_j: int) -> int {
    let vol_i = volatility_of(variance_i);
    let vol_j = volatility_of(variance_j);
    if vol_i > 0 && vol_j > 0 {
        clamp_int(cov * SCALE / (vol_i * vol_j), -SCALE as int, SCALE as int)
    } else {
        0
    }
}

/// Correlation law: no correlation lies outside the interval from minus one
/// to one, and it is zero where one of the two variances is zero.
pub proof fn lemma_correlation_bounded(cov: int, variance_i: int, variance_j: int)
    ensures
        -SCALE <= correlation_of(cov, variance_i, variance_j) <= SCALE,
        variance_i == 0 || variance_j == 0 ==> correlation_of(cov, variance_i, variance_j) == 0,
{
    crate::fixed::lemma_floor_sqrt_unique(0, 0);
}

/// An asset with a positive volatility correlates fully with itself.
pub proof fn lemma_self_correlation(variance: int)
    requires
        variance >= 0,
        volatility_of(variance) > 0,
    ensures
        correlation_of(variance, variance, variance) == SCALE,
{
    let vol = volatility_of(variance);
    crate::fixed::lemma_floor_sqrt_is_root(variance);
    let square = vol * vol;
    assert(square > 0) by (nonlinear_arith)
        requires
            square == vol * vol,
            vol > 0,
    ;
    assert(SCALE * square <= variance * SCALE) by (nonlinear_arith)
        requires
            square <= variance,
    ;
    assert(variance * SCALE <= (variance * SCALE) * square + (square - 1)) by (nonlinear_arith)
        requires
            variance >= 0,
            square >= 1,
    ;
    crate::fixed::lemma_div_between(variance * SCALE, square, SCALE as int, variance * SCALE);
}

/// The volatility of a bounded variance is below two to the power 36.
pub proof fn lemma_volatility_bounded(variance: int)
    requires
        -COVARIANCE_BOUND <= variance <= COVARIANCE_BOUND,
    ensures
        0 <= volatility_of(variance) < 0x10_0000_0000,
{
    let x = abs_int(variance);
    crate::fixed::lemma_floor_sqrt_is_root(x);
    let r = floor_sqrt(x);
    if r >= 0x10_0000_0000 {
        crate::fixed::lemma_square_monotone(0x10_0000_0000, r);
    }
}

/// Means and covariances of the returns of a list of assets over the days
/// that all of them have.
pub struct CovarianceModel {
    means: Vec<i32>,
    covariances: IntMatrix,
}

impl CovarianceModel {
    /// The number of assets.
    pub closed spec fn dim(&self) -> nat {
        self.means@.len()
    }

    /// The mean return of asset `j`.
    pub closed spec fn mean_at(&self, j: int) -> int {
        self.means@[j] as int
    }

    /// The covariance of the returns of assets `i` and `j`.
    pub closed spec fn cov_at(&self, i: int, j: int) -> int {
        matrix_rows(self.covariances)[i][j] as int
    }

    /// The mean return of every asset.
    pub open spec fn means(&self) -> Seq<int> {
        Seq::new(self.dim(), |j: int| self.mean_at(j))
    }

    /// The variance of the returns of every asset: the diagonal of the
    /// covariance matrix.
    pub open spec fn variances(&self) -> Seq<int> {
        Seq::new(self.dim(), |j: int| self.cov_at(j, j))
    }

    /// The matrix is square with one row for each mean, for at most
    /// [`MAX_ASSETS`] assets, and no covariance exceeds [`COVARIANCE_BOUND`].
    pub closed spec fn wf(&self) -> bool {
        &&& self.means@.len() <= MAX_ASSETS
        &&& has_shape(self.covariances, self.means@.len(), self.means@.len())
        &&& forall|i: int, j: int|
            0 <= i < self.means@.len() && 0 <= j < self.means@.len() ==> -COVARIANCE_BOUND <= (
            #[trigger] matrix_rows(self.covariances)[i][j]) <= COVARIANCE_BOUND
    }

    /// The model is the estimate from `columns`, one series for each asset:
    /// each mean is the mean of its series, each covariance the sample
    /// covariance of its two series.
    pub open spec fn describes(&self, columns: Seq<Seq<i32>>) -> bool {
        &&& self.dim() == columns.len()
        &&& forall|j: int| 0 <= j < columns.len() ==> #[trigger] self.mean_at(j) == mean(columns[j])
        &&& forall|i: int, j: int|
            0 <= i < columns.len() && 0 <= j < columns.len() ==> #[trigger] self.cov_at(i, j)
                == covariance(columns[i], columns[j])
    }

    /// What a model that describes `columns` says, it says of the columns.
    pub proof fn lemma_describes(&self, columns: Seq<Seq<i32>>)
        requires
            self.describes(columns),
        ensures
            self.means() == column_means(columns),
            self.variances() == column_variances(columns),
    {
    }

    /// The volatilities and correlations of a model that describes `columns`
    /// are those of the columns.
    pub proof fn lemma_summaries(&self, columns: Seq<Seq<i32>>, vols: Seq<u64>, flat: Seq<i32>)
        requires
            self.wf(),
            self.describes(columns),
            vols.len() == self.dim(),
            forall|j: int|
                0 <= j < self.dim() ==> (#[trigger] vols[j]) == volatility_of(self.cov_at(j, j)),
            flat.len() == self.dim() * self.dim(),
            forall|k: int|
                0 <= k < self.dim() * self.dim() ==> (#[trigger] flat[k]) == correlation_of(
                    self.cov_at(k / self.dim() as int, k % self.dim() as int),
                    self.cov_at(k / self.dim() as int, k / self.dim() as int),
                    self.cov_at(k % self.dim() as int, k % self.dim() as int),
                ),
        ensures
            vols.map_values(|v: u64| v as int) == column_volatilities(columns),
            flat.map_values(|v: i32| v as int) == column_correlations(columns),
    {
        let n = self.dim() as int;
        assert forall|k: int| 0 <= k < n * n implies flat.map_values(|v: i32| v as int)[k]
            == column_correlations(columns)[k] by {
            assert(n > 0) by (nonlinear_arith)
                requires
                    n >= 0,
                    0 <= k < n * n,
            ;
            vstd::arithmetic::div_mod::lemma_fundamental_div_mod(k, n);
            vstd::arithmetic::div_mod::lemma_mod_bound(k, n);
            let q = k / n;
            let r = k % n;
            assert(0 <= q < n) by (nonlinear_arith)
                requires
                    k == n * q + r,
                    0 <= r < n,
                    0 <= k < n * n,
            ;
        }
    }

    /// Every covariance of a well-formed model is within the bound.
    pub proof fn lemma_bounded(&self, i: int, j: int)
        requires
            self.wf(),
            0 <= i < self.dim(),
            0 <= j < self.dim(),
        ensures
            self.dim() <= MAX_ASSETS,
            -COVARIANCE_BOUND <= self.cov_at(i, j) <= COVARIANCE_BOUND,
            -0x8000_0000 <= self.mean_at(j) <= 0x7fff_ffff,
    {
    }

    /// The number of assets.
    pub fn size(&self) -> (n: usize)
        ensures
            n == self.dim(),
    {
        self.means.len()
    }

    /// The mean return of asset `j`.
    pub fn mean(&self, j: usize) -> (centre: i32)
        requires
            j < self.dim(),
        ensures
            centre == self.mean_at(j as int),
    {
        self.means[j]
    }

    /// The covariance of the returns of assets `i` and `j`.
    pub fn covariance(&self, i: usize, j: usize) -> (cov: i128)
        requires
            self.wf(),
            i < self.dim(),
            j < self.dim(),
        ensures
            cov == self.cov_at(i as int, j as int),
            -COVARIANCE_BOUND <= cov <= COVARIANCE_BOUND,
    {
        proof {
            self.lemma_bounded(i as int, j as int);
        }
        matrix_get(&self.covariances, i, j)
    }

    /// The volatility of asset `j`: the square root of the magnitude of its
    /// variance.
    pub fn volatility(&self, j: usize) -> (vol: u64)
        requires
            self.wf(),
            j < self.dim(),
        ensures
            vol == volatility_of(self.cov_at(j as int, j as int)),
            vol < 0x10_0000_0000,
    {
        let variance: i128 = self.covariance(j, j);
        proof {
            lemma_volatility_bounded(variance as int);
        }
        isqrt(abs_value(variance))
    }

    /// The correlation of assets `i` and `j`, in millionths.
    pub fn correlation(&self, i: usize, j: usize) -> (corr: i32)
        requires
            self.wf(),
            i < self.dim(),
            j < self.dim(),
        ensures
            corr == correlation_of(
                self.cov_at(i as int, j as int),
                self.cov_at(i as int, i as int),
                self.cov_at(j as int, j as int),
            ),
            -SCALE <= corr <= SCALE,
    {
        let vol_i: u64 = self.volatility(i);
        let vol_j: u64 = self.volatility(j);
        if vol_i > 0 && vol_j > 0 {
            let cov: i128 = self.covariance(i, j);
            proof {
                crate::fixed::lemma_mul_bounded(
                    vol_i as int,
                    vol_j as int,
                    0x10_0000_0000,
                    0x10_0000_0000,
                );
                assert(vol_i * vol_j > 0) by (nonlinear_arith)
                    requires
                        vol_i > 0,
                        vol_j > 0,
                ;
                crate::fixed::lemma_mul_bounded(
                    cov as int,
                    SCALE as int,
                    COVARIANCE_BOUND as int,
                    SCALE as int,
                );
            }
            let denominator: i128 = vol_i as i128 * vol_j as i128;
            let quotient: i128 = div_floor(cov * SCALE, denominator);
            if quotient < -SCALE {
                -1_000_000
            } else if quotient > SCALE {
                1_000_000
            } else {
                quotient as i32
            }
        } else {
            0
        }
    }

    /// The volatility of every asset, in the order of the assets.
    pub fn volatilities(&self) -> (vols: Vec<u64>)
        requires
            self.wf(),
        ensures
            vols@.len() == self.dim(),
            forall|j: int|
                0 <= j < self.dim() ==> (#[trigger] vols@[j]) == volatility_of(self.cov_at(j, j)),
    {
        let n: usize = self.means.len();
        let mut vols: Vec<u64> = Vec::new();
        let mut j: usize = 0;
        while j < n
            invariant
                self.wf(),
                n == self.dim(),
                j <= n,
                vols@.len() == j,
                forall|k: int|
                    0 <= k < j ==> (#[trigger] vols@[k]) == volatility_of(self.cov_at(k, k)),
            decreases n - j,
        {
            let vol: u64 = self.volatility(j);
            vols.push(vol);
            j += 1;
        }
        vols
    }

    /// The correlation matrix, row after row: the entry at place `k` is the
    /// correlation of asset `k / n` with asset `k % n`, for `n` assets.
    pub fn correlation_matrix(&self) -> (flat: Vec<i32>)
        requires
            self.wf(),
        ensures
            flat@.len() == self.dim() * self.dim(),
            forall|k: int|
                0 <= k < self.dim() * self.dim() ==> (#[trigger] flat@[k]) == correlation_of(
                    self.cov_at(k / self.dim() as int, k % self.dim() as int),
                    self.cov_at(k / self.dim() as int, k / self.dim() as int),
                    self.cov_at(k % self.dim() as int, k % self.dim() as int),
                ),
    {
        let n: usize = self.means.len();
        assert(n * n <= 1024 * 1024) by (nonlinear_arith)
            requires
                n <= 1024,
        ;
        let cells: usize = n * n;
        let mut flat: Vec<i32> = Vec::new();
        let mut k: usize = 0;
        while k < cells
            invariant
                self.wf(),
                n == self.dim(),
                cells == n * n,
                k <= cells,
                flat@.len() == k,
                forall|x: int|
                    0 <= x < k ==> (#[trigger] flat@[x]) == correlation_of(
                        self.cov_at(x / n as int, x % n as int),
                        self.cov_at(x / n as int, x / n as int),
                        self.cov_at(x % n as int, x % n as int),
                    ),
            decreases cells - k,
        {
            proof {
                assert(n > 0) by (nonlinear_arith)
                    requires
                        k < n * n,
                ;
                vstd::arithmetic::div_mod::lemma_fundamental_div_mod(k as int, n as int);
                vstd::arithmetic::div_mod::lemma_mod_bound(k as int, n as int);
                let q = k as int / n as int;
                let r = k as int % n as int;
                assert(0 <= q < n) by (nonlinear_arith)
                    requires
                        k == n * q + r,
                        0 <= r < n,
                        0 <= k < n * n,
                ;
            }
            let i: usize = k / n;
            let j: usize = k % n;
            let corr: i32 = self.correlation(i, j);
            flat.push(corr);
            k += 1;
        }
        flat
    }

    /// Estimates the model of `assets` from their histories in `store`.
    /// There is a model only where every asset has at least two returns.
    pub fn estimate(store: &ReturnStore, assets: &Vec<String>) -> (model: Option<CovarianceModel>)
        requires
            store.wf(),
            assets.len() <= MAX_ASSETS,
        ensures
            model.is_some() <==> store.common_len(asset_ids(assets@)) >= 2,
            model matches Some(m) ==> m.wf() && m.describes(
                aligned_columns(*store, asset_ids(assets@)),
            ),
    {
        let days: usize = store.common_length(assets);
        if days < 2 {
            return None;
        }
        let n: usize = assets.len();
        let ghost columns = aligned_columns(*store, asset_ids(assets@));
        let history = aligned_returns(store, assets, days);
        let mut means: Vec<i32> = Vec::new();
        let mut j: usize = 0;
        while j < n
            invariant
                holds_columns(history, columns, days as nat),
                n == columns.len(),
                2 <= days <= WINDOW_CAP,
                j <= n,
                means@.len() == j,
                forall|k: int| 0 <= k < j ==> (#[trigger] means@[k]) == mean(columns[k]),
            decreases n - j,
        {
            let centre: i32 = column_mean(&history, j, days, Ghost(columns));
            means.push(centre);
            j += 1;
        }
        assert(n * n * 16 <= 1024 * 1024 * 16) by (nonlinear_arith)
            requires
                n <= 1024,
        ;
        let mut covariances = matrix_zeros(n, n);
        let mut i: usize = 0;
        while i < n
            invariant
                holds_columns(history, columns, days as nat),
                n == columns.len(),
                n <= MAX_ASSETS,
                2 <= days <= WINDOW_CAP,
                i <= n,
                means@.len() == n,
                forall|k: int| 0 <= k < n ==> (#[trigger] means@[k]) == mean(columns[k]),
                has_shape(covariances, n as nat, n as nat),
                forall|r: int, c: int|
                    0 <= r < i && 0 <= c < n ==> (#[trigger] matrix_rows(covariances)[r][c])
                        == covariance(columns[r], columns[c]),
            decreases n - i,
        {
            let mut j: usize = 0;
            while j < n
                invariant
                    holds_columns(history, columns, days as nat),
                    n == columns.len(),
                    n <= MAX_ASSETS,
                    2 <= days <= WINDOW_CAP,
                    i < n,
                    j <= n,
                    means@.len() == n,
                    forall|k: int| 0 <= k < n ==> (#[trigger] means@[k]) == mean(columns[k]),
                    has_shape(covariances, n as nat, n as nat),
                    forall|r: int, c: int|
                        0 <= r < i && 0 <= c < n ==> (#[trigger] matrix_rows(covariances)[r][c])
                            == covariance(columns[r], columns[c]),
                    forall|c: int|
                        0 <= c < j ==> (#[trigger] matrix_rows(covariances)[i as int][c])
                            == covariance(columns[i as int], columns[c]),
                decreases n - j,
            {
                let total: i128 = column_cross_sum(
                    &history,
                    i,
                    means[i],
                    j,
                    means[j],
                    days,
                    Ghost(columns),
                );
                let entry: i128 = div_floor(total, (days - 1) as i128);
                matrix_set(&mut covariances, i, j, entry);
                j += 1;
            }
            i += 1;
        }
        let model = CovarianceModel { means, covariances };
        proof {
            assert forall|r: int, c: int| 0 <= r < n && 0 <= c < n implies -COVARIANCE_BOUND <= (
            #[trigger] matrix_rows(model.covariances)[r][c]) <= COVARIANCE_BOUND by {
                lemma_covariance_bounded(columns[r], columns[c]);
                assert(PRODUCT_BOUND * days <= PRODUCT_BOUND * 252) by (nonlinear_arith)
                    requires
                        days <= 252,
                ;
            }
        }
        Some(model)
    }
}

} // verus!
