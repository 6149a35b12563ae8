//! The simulator: standard normal draws turned into simulated portfolio
//! values, in one of three modes.

use vstd::prelude::*;
use crate::covariance::volatility_of;
use crate::covariance::CovarianceModel;
use crate::covariance::MAX_ASSETS;
use crate::fixed::div_floor;
use crate::fixed::lemma_div_between;
use crate::fixed::lemma_mul_bounded;
use crate::fixed::SCALE;
use crate::positions::PositionSet;
use crate::quantile::ascending;
use crate::quantile::ints;
use crate::quantile::SimulationResult;
use crate::quantile::VALUE_BOUND;

verus! {

/// Daily volatility assumed where the history is too short, in millionths:
/// two percent.
pub const FALLBACK_VOLATILITY: i128 = 20_000;

/// Bound on the magnitude of a simulated asset return.
pub const RETURN_BOUND: i128 = 0x20_0000_0000_0000;

/// Bound on the magnitude of one quantity times one simulated return.
pub const HOLDING_BOUND: i128 = 0x10_0000_0000_0000_0000_0000_0000_0000;

/// How the simulated values of one request were produced.
#[derive(Clone, Copy, Debug, PartialEq, Eq, Structural)]
pub enum SimulationMode {
    /// Correlated shocks through the Cholesky factor of the covariance matrix.
    Correlated,
    /// Independent shocks of each asset's own volatility.
    DiagonalFallback,
    /// One shock of a fixed volatility on the whole portfolio.
    StaticFallback,
}

/// The lower-triangular factor of a covariance matrix, row by row: a square
/// matrix of fixed-point entries with zeros above the diagonal.
pub struct LowerFactor {
    rows: Vec<Vec<i32>>,
}

impl View for LowerFactor {
    type V = Seq<Seq<i32>>;

    closed spec fn view(&self) -> Seq<Seq<i32>> {
        self.rows@.map_values(|row: Vec<i32>| row@)
    }
}

/// The rows form a square matrix with nothing but zeros above its diagonal.
pub open spec fn is_lower_triangular(rows: Seq<Seq<i32>>) -> bool {
    &&& forall|i: int| 0 <= i < rows.len() ==> (#[trigger] rows[i]).len() == rows.len()
    &&& forall|i: int, k: int| 0 <= i < k < rows.len() ==> (#[trigger] rows[i][k]) == 0
}

impl LowerFactor {
    /// The matrix is square and lower-triangular.
    pub open spec fn wf(&self) -> bool {
        is_lower_triangular(self@)
    }

    /// Accepts `rows` as a factor where they form a square matrix that is
    /// lower-triangular.
    pub fn from_rows(rows: Vec<Vec<i32>>) -> (factor: Option<LowerFactor>)
        ensures
            factor.is_some() <==> is_lower_triangular(rows@.map_values(|row: Vec<i32>| row@)),
            factor matches Some(f) ==> f.wf() && f@ == rows@.map_values(|row: Vec<i32>| row@),
    {
        let ghost cells = rows@.map_values(|row: Vec<i32>| row@);
        let n: usize = rows.len();
        let mut i: usize = 0;
        while i < n
            invariant
                cells == rows@.map_values(|row: Vec<i32>| row@),
                n == rows@.len(),
                i <= n,
                forall|r: int| 0 <= r < i ==> (#[trigger] cells[r]).len() == n,
                forall|r: int, k: int| 0 <= r < i && r < k < n ==> (#[trigger] cells[r][k]) == 0,
            decreases n - i,
        {
            if rows[i].len() != n {
                assert(cells[i as int].len() != cells.len());
                return None;
            }
            let mut k: usize = i + 1;
            while k < n
                invariant
                    cells == rows@.map_values(|row: Vec<i32>| row@),
                    n == rows@.len(),
                    i < n,
                    i < k <= n,
                    cells[i as int].len() == n,
                    forall|c: int| i < c < k ==> (#[trigger] cells[i as int][c]) == 0,
                decreases n - k,
            {
                if rows[i][k] != 0 {
                    return None;
                }
                k += 1;
            }
            i += 1;
        }
        Some(LowerFactor { rows })
    }

    /// The number of rows.
    pub fn dim(&self) -> (n: usize)
        ensures
            n == self@.len(),
    {
        self.rows.len()
    }

    /// The entry in row `i` and column `k`.
    pub fn entry(&self, i: usize, k: usize) -> (value: i32)
        requires
            self.wf(),
            i < self@.len(),
            k < self@.len(),
        ensures
            value == self@[i as int][k as int],
    {
        assert(self@[i as int].len() == self@.len());
        self.rows[i][k]
    }
}

/// The outcome of factorising a covariance matrix.
pub enum Factorization {
    /// The matrix is positive definite; this is its lower-triangular factor.
    Factorized(LowerFactor),
    /// The matrix has no such factor.
    NotPositiveDefinite,
}

/// The mode that the data allow: static where there is no covariance model,
/// else correlated where the covariance matrix was factorised, else diagonal.
pub open spec fn mode_for(has_model: bool, factorized: bool) -> SimulationMode {
    if !has_model {
        SimulationMode::StaticFallback
    } else if factorized {
        SimulationMode::Correlated
    } else {
        SimulationMode::DiagonalFallback
    }
}

/// Selects the simulation mode.
pub fn select_mode(
    model: &Option<CovarianceModel>,
    factorization: &Factorization,
) -> (mode: SimulationMode)
    ensures
        mode == mode_for(model.is_some(), factorization is Factorized),
{
    match model {
        None => SimulationMode::StaticFallback,
        Some(_) => match factorization {
            Factorization::Factorized(_) => SimulationMode::Correlated,
            Factorization::NotPositiveDefinite => SimulationMode::DiagonalFallback,
        },
    }
}

/// A sequence of 32-bit numbers as mathematical integers.
pub open spec fn ints32(s: Seq<i32>) -> Seq<int> {
    s.map_values(|v: i32| v as int)
}

/// A sequence of 64-bit numbers as mathematical integers.
pub open spec fn ints64(s: Seq<i64>) -> Seq<int> {
    s.map_values(|v: i64| v as int)
}

/// The sum of the products of the first `upto` entries of `a` and `b`.
pub open spec fn dot(a: Seq<int>, b: Seq<int>, upto: nat) -> int
    decreases upto,
{
    if upto == 0 {
        0
    } else {
        dot(a, b, (upto - 1) as nat) + a[upto - 1] * b[upto - 1]
    }
}

/// The shock of the static mode for one standard normal draw: the draw
/// scaled by the fallback volatility.
pub open spec fn static_shock(draw: int) -> int {
    FALLBACK_VOLATILITY * draw / (SCALE as int)
}

/// The value of a portfolio worth `total` after a relative shock on the
/// whole of it: `total * (1 + shock)`.
pub open spec fn shocked_value(total: int, shock: int) -> int {
    total + total * shock / (SCALE as int)
}

/// The value of a portfolio worth `total` after each asset made its return:
/// with the weight of an asset being its quantity over `total`, the value
/// `total * (1 + sum of weight * return)` is `total` plus the sum of
/// quantity times return.
pub open spec fn portfolio_value(total: int, quantities: Seq<i64>, asset_returns: Seq<int>) -> int {
    total + dot(ints64(quantities), asset_returns, quantities.len()) / (SCALE as int)
}

/// The correlated return of each asset for one trial: its mean plus its row
/// of the factor applied to the draws.
pub open spec fn correlated_returns(
    means: Seq<int>,
    factor: Seq<Seq<i32>>,
    draws: Seq<i32>,
) -> Seq<int> {
    Seq::new(
        means.len(),
        |i: int| means[i] + dot(ints32(factor[i]), ints32(draws), draws.len()) / (SCALE as int),
    )
}

/// The independent return of each asset for one trial: its mean plus its
/// own volatility times its draw.
pub open spec fn diagonal_returns(
    means: Seq<int>,
    variances: Seq<int>,
    draws: Seq<i32>,
) -> Seq<int> {
    Seq::new(
        means.len(),
        |j: int| means[j] + volatility_of(variances[j]) * draws[j] / (SCALE as int),
    )
}

/// The simulated value of the portfolio for the draws of one trial.  The
/// static mode reads the first draw only, and neither means nor variances;
/// only the correlated mode reads the factor.
pub open spec fn trial_value(
    mode: SimulationMode,
    total: int,
    quantities: Seq<i64>,
    means: Seq<int>,
    variances: Seq<int>,
    factor: Seq<Seq<i32>>,
    draws: Seq<i32>,
) -> int {
    match mode {
        SimulationMode::StaticFallback => shocked_value(total, static_shock(draws[0] as int)),
        SimulationMode::Correlated => portfolio_value(
            total,
            quantities,
            correlated_returns(means, factor, draws),
        ),
        SimulationMode::DiagonalFallback => portfolio_value(
            total,
            quantities,
            diagonal_returns(means, variances, draws),
        ),
    }
}

/// The simulated value of each trial, in the order of the trials.
pub open spec fn simulated_values(
    mode: SimulationMode,
    total: int,
    quantities: Seq<i64>,
    means: Seq<int>,
    variances: Seq<int>,
    factor: Seq<Seq<i32>>,
    draws: Seq<Vec<i32>>,
) -> Seq<int> {
    Seq::new(
        draws.len(),
        |t: int| trial_value(mode, total, quantities, means, variances, factor, draws[t]@),
    )
}

/// The rows of the factor of a factorisation; none where there is no factor.
pub open spec fn factor_rows(factorization: Factorization) -> Seq<Seq<i32>> {
    match factorization {
        Factorization::Factorized(factor) => factor@,
        Factorization::NotPositiveDefinite => Seq::empty(),
    }
}

/// The means of a model; none where there is no model.
pub open spec fn model_means(model: Option<CovarianceModel>) -> Seq<int> {
    match model {
        Some(m) => m.means(),
        None => Seq::empty(),
    }
}

/// The variances of a model; none where there is no model.
pub open spec fn model_variances(model: Option<CovarianceModel>) -> Seq<int> {
    match model {
        Some(m) => m.variances(),
        None => Seq::empty(),
    }
}

/// The value of the portfolio in the static mode.
pub fn static_trial(total: i64, draw: i32) -> (value: i128)
    ensures
        value == shocked_value(total as int, static_shock(draw as int)),
        -VALUE_BOUND <= value <= VALUE_BOUND,
{
    proof {
        lemma_mul_bounded(FALLBACK_VOLATILITY as int, draw as int, 20_000, 0x8000_0000);
        lemma_div_between(FALLBACK_VOLATILITY * draw, SCALE as int, -0x8000_0000, 0x8000_0000);
    }
    let shock: i128 = div_floor(FALLBACK_VOLATILITY * draw as i128, SCALE);
    proof {
        lemma_mul_bounded(total as int, shock as int, 0x8000_0000_0000_0000, 0x8000_0000);
        lemma_div_between(
            total * shock,
            SCALE as int,
            -0x4000_0000_0000_0000_0000_0000int,
            0x4000_0000_0000_0000_0000_0000int,
        );
    }
    total as i128 + div_floor(total as i128 * shock, SCALE)
}

/// Row `i` of the factor applied to the draws of one trial.
fn factor_row_dot(factor: &LowerFactor, i: usize, draws: &Vec<i32>) -> (total: i128)
    requires
        factor.wf(),
        i < factor@.len(),
        draws@.len() == factor@.len(),
        draws@.len() <= MAX_ASSETS,
    ensures
        total == dot(ints32(factor@[i as int]), ints32(draws@), draws@.len()),
        -(0x4000_0000_0000_0000 * 1024) <= total <= 0x4000_0000_0000_0000 * 1024,
{
    let n: usize = draws.len();
    let ghost row = ints32(factor@[i as int]);
    let ghost zs = ints32(draws@);
    let mut total: i128 = 0;
    let mut k: usize = 0;
    while k < n
        invariant
            factor.wf(),
            i < factor@.len(),
            n == draws@.len(),
            n == factor@.len(),
            n <= MAX_ASSETS,
            row == ints32(factor@[i as int]),
            zs == ints32(draws@),
            row.len() == n,
            k <= n,
            total == dot(row, zs, k as nat),
            -(0x4000_0000_0000_0000 * k) <= total <= 0x4000_0000_0000_0000 * k,
        decreases n - k,
    {
        let a: i128 = factor.entry(i, k) as i128;
        let b: i128 = draws[k] as i128;
        proof {
            lemma_mul_bounded(a as int, b as int, 0x8000_0000, 0x8000_0000);
        }
        total = total + a * b;
        k += 1;
    }
    total
}

/// `mean + numerator / SCALE` for a numerator as bounded as a sum of
/// products of factor entries or volatilities with draws.
fn shifted_return(centre: i32, numerator: i128) -> (value: i128)
    requires
        -(0x4000_0000_0000_0000 * 1024) <= numerator <= 0x4000_0000_0000_0000 * 1024,
    ensures
        value == centre + numerator as int / (SCALE as int),
        -RETURN_BOUND <= value <= RETURN_BOUND,
{
    proof {
        lemma_div_between(
            numerator as int,
            SCALE as int,
            -(RETURN_BOUND - 0x8000_0000),
            RETURN_BOUND - 0x8000_0000,
        );
    }
    centre as i128 + div_floor(numerator, SCALE)
}

/// `total + holdings / SCALE`, where `holdings` is the sum over the assets
/// of quantity times return.
fn settle(total: i64, holdings: i128) -> (value: i128)
    requires
        -(HOLDING_BOUND * 1024) <= holdings <= HOLDING_BOUND * 1024,
    ensures
        value == total + holdings as int / (SCALE as int),
        -VALUE_BOUND <= value <= VALUE_BOUND,
{
    proof {
        lemma_div_between(
            holdings as int,
            SCALE as int,
            -(VALUE_BOUND - 0x8000_0000_0000_0000),
            VALUE_BOUND - 0x8000_0000_0000_0000,
        );
    }
    total as i128 + div_floor(holdings, SCALE)
}

/// The value of the portfolio for one trial of the correlated mode.
pub fn correlated_trial(
    total: i64,
    positions: &PositionSet,
    model: &CovarianceModel,
    factor: &LowerFactor,
    draws: &Vec<i32>,
) -> (value: i128)
    requires
        model.wf(),
        factor.wf(),
        positions.quantities().len() == model.dim(),
        factor@.len() == model.dim(),
        draws@.len() == model.dim(),
    ensures
        value == portfolio_value(
            total as int,
            positions.quantities(),
            correlated_returns(model.means(), factor@, draws@),
        ),
        -VALUE_BOUND <= value <= VALUE_BOUND,
{
    let n: usize = model.size();
    let ghost quantities = ints64(positions.quantities());
    let ghost asset_returns = correlated_returns(model.means(), factor@, draws@);
    proof {
        if n > 0 {
            model.lemma_bounded(0, 0);
        }
    }
    let mut holdings: i128 = 0;
    let mut j: usize = 0;
    while j < n
        invariant
            model.wf(),
            factor.wf(),
            n == model.dim(),
            n <= MAX_ASSETS,
            positions.quantities().len() == n,
            factor@.len() == n,
            draws@.len() == n,
            quantities == ints64(positions.quantities()),
            asset_returns == correlated_returns(model.means(), factor@, draws@),
            j <= n,
            holdings == dot(quantities, asset_returns, j as nat),
            -(HOLDING_BOUND * j) <= holdings <= HOLDING_BOUND * j,
        decreases n - j,
    {
        let numerator: i128 = factor_row_dot(factor, j, draws);
        let asset_return: i128 = shifted_return(model.mean(j), numerator);
        let quantity: i128 = positions.quantity_at(j) as i128;
        proof {
            lemma_mul_bounded(
                quantity as int,
                asset_return as int,
                0x8000_0000_0000_0000,
                0x20_0000_0000_0000,
            );
        }
        holdings = holdings + quantity * asset_return;
        j += 1;
    }
    settle(total, holdings)
}

/// The value of the portfolio for one trial of the diagonal mode.
/// `volatilities` holds the volatility of each asset of the model.
pub fn diagonal_trial(
    total: i64,
    positions: &PositionSet,
    model: &CovarianceModel,
    volatilities: &Vec<u64>,
    draws: &Vec<i32>,
) -> (value: i128)
    requires
        model.wf(),
        positions.quantities().len() == model.dim(),
        draws@.len() == model.dim(),
        volatilities@.len() == model.dim(),
        forall|j: int|
            0 <= j < model.dim() ==> (#[trigger] volatilities@[j]) == volatility_of(
                model.cov_at(j, j),
            ),
    ensures
        value == portfolio_value(
            total as int,
            positions.quantities(),
            diagonal_returns(model.means(), model.variances(), draws@),
        ),
        -VALUE_BOUND <= value <= VALUE_BOUND,
{
    let n: usize = model.size();
    let ghost quantities = ints64(positions.quantities());
    let ghost asset_returns = diagonal_returns(model.means(), model.variances(), draws@);
    proof {
        if n > 0 {
            model.lemma_bounded(0, 0);
        }
    }
    let mut holdings: i128 = 0;
    let mut j: usize = 0;
    while j < n
        invariant
            model.wf(),
            n == model.dim(),
            n <= MAX_ASSETS,
            positions.quantities().len() == n,
            draws@.len() == n,
            volatilities@.len() == n,
            forall|k: int|
                0 <= k < n ==> (#[trigger] volatilities@[k]) == volatility_of(model.cov_at(k, k)),
            quantities == ints64(positions.quantities()),
            asset_returns == diagonal_returns(model.means(), model.variances(), draws@),
            j <= n,
            holdings == dot(quantities, asset_returns, j as nat),
            -(HOLDING_BOUND * j) <= holdings <= HOLDING_BOUND * j,
        decreases n - j,
    {
        let volatility: i128 = volatilities[j] as i128;
        let draw: i128 = draws[j] as i128;
        proof {
            model.lemma_bounded(j as int, j as int);
            crate::covariance::lemma_volatility_bounded(model.cov_at(j as int, j as int));
            lemma_mul_bounded(volatility as int, draw as int, 0x10_0000_0000, 0x8000_0000);
        }
        let asset_return: i128 = shifted_return(model.mean(j), volatility * draw);
        let quantity: i128 = positions.quantity_at(j) as i128;
        proof {
            lemma_mul_bounded(
                quantity as int,
                asset_return as int,
                0x8000_0000_0000_0000,
                0x20_0000_0000_0000,
            );
        }
        holdings = holdings + quantity * asset_return;
        j += 1;
    }
    settle(total, holdings)
}

/// The number of draws that one trial consumes: one for each position, or
/// a single one in the static mode, where there is no model.
pub open spec fn draws_per_trial(has_model: bool, positions: nat) -> nat {
    if has_model {
        positions
    } else {
        1
    }
}

/// The inputs of a simulation fit together: each row of draws is as long
/// as the mode needs, and the model and the factor have one entry for each
/// position.
pub open spec fn fits(
    positions: PositionSet,
    model: Option<CovarianceModel>,
    factorization: Factorization,
    draws: Seq<Vec<i32>>,
) -> bool {
    &&& forall|t: int|
        0 <= t < draws.len() ==> (#[trigger] draws[t])@.len() == draws_per_trial(
            model.is_some(),
            positions.quantities().len(),
        )
    &&& model matches Some(m) ==> {
        &&& m.wf()
        &&& m.dim() == positions.quantities().len()
        &&& factorization matches Factorization::Factorized(f) ==> f.wf() && f@.len() == m.dim()
    }
}

/// Runs one trial for each row of `draws`, in the mode that `model` and
/// `factorization` select, and sorts the simulated values.
pub fn simulate(
    total: i64,
    positions: &PositionSet,
    model: &Option<CovarianceModel>,
    factorization: &Factorization,
    draws: &Vec<Vec<i32>>,
) -> (sample: SimulationResult)
    requires
        fits(*positions, *model, *factorization, draws@),
    ensures
        sample.wf(),
        sample@.len() == draws@.len(),
        sample@ == ascending(
            simulated_values(
                mode_for(model.is_some(), *factorization is Factorized),
                total as int,
                positions.quantities(),
                model_means(*model),
                model_variances(*model),
                factor_rows(*factorization),
                draws@,
            ),
        ),
{
    let ghost expected = simulated_values(
        mode_for(model.is_some(), *factorization is Factorized),
        total as int,
        positions.quantities(),
        model_means(*model),
        model_variances(*model),
        factor_rows(*factorization),
        draws@,
    );
    let volatilities: Vec<u64> = match model {
        Some(m) => m.volatilities(),
        None => Vec::new(),
    };
    let mut values: Vec<i128> = Vec::new();
    let mut t: usize = 0;
    while t < draws.len()
        invariant
            fits(*positions, *model, *factorization, draws@),
            expected == simulated_values(
                mode_for(model.is_some(), *factorization is Factorized),
                total as int,
                positions.quantities(),
                model_means(*model),
                model_variances(*model),
                factor_rows(*factorization),
                draws@,
            ),
            model matches Some(m) ==> volatilities@.len() == m.dim() && forall|j: int|
                0 <= j < m.dim() ==> (#[trigger] volatilities@[j]) == volatility_of(m.cov_at(j, j)),
            t <= draws.len(),
            values@.len() == t,
            forall|k: int| 0 <= k < t ==> (#[trigger] values@[k]) == expected[k],
            forall|k: int| 0 <= k < t ==> -VALUE_BOUND <= (#[trigger] values@[k]) <= VALUE_BOUND,
        decreases draws.len() - t,
    {
        let row: &Vec<i32> = &draws[t];
        let value: i128 = match model {
            None => static_trial(total, row[0]),
            Some(m) => match factorization {
                Factorization::Factorized(factor) => correlated_trial(
                    total,
                    positions,
                    m,
                    factor,
                    row,
                ),
                Factorization::NotPositiveDefinite => diagonal_trial(
                    total,
                    positions,
                    m,
                    &volatilities,
                    row,
                ),
            },
        };
        values.push(value);
        t += 1;
    }
    assert(ints(values@) =~= expected);
    SimulationResult::from_unsorted(values)
}

} // verus!
