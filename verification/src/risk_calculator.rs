//! The risk engine: it owns the return history and turns one request into
//! a Value-at-Risk report.
//!
//! A caller serves a request in four steps.  It asks the engine for the
//! covariance model of the positions ([`RiskCalculator::estimate`]) and
//! factorises the covariance matrix; it draws the standard normals, as many
//! for each trial as [`RiskCalculator::draws_needed`] says; it may test with
//! [`RiskCalculator::accepts_request`] that what it holds fits together; and
//! it hands factor and draws to [`RiskCalculator::calculate`].  Whatever the
//! factor and the draws are, the report is the one that the formulas of this
//! library give for them.

use vstd::prelude::*;
use crate::covariance::aligned_columns;
use crate::covariance::column_correlations;
use crate::covariance::column_means;
use crate::covariance::column_variances;
use crate::covariance::column_volatilities;
use crate::covariance::lemma_aligned_covariances;
use crate::moments::covariance;
use crate::covariance::CovarianceModel;
use crate::covariance::MAX_ASSETS;
use crate::positions::PositionSet;
use crate::quantile::ascending;
use crate::quantile::value_at_risk;
use crate::return_store::asset_ids;
use crate::return_store::window;
use crate::return_store::ReturnStore;
use crate::simulator::draws_per_trial;
use crate::simulator::factor_rows;
use crate::simulator::mode_for;
use crate::simulator::select_mode;
use crate::simulator::simulate;
use crate::simulator::simulated_values;
use crate::simulator::Factorization;
use crate::simulator::SimulationMode;

verus! {

/// Number of trials of one simulation.
pub const TRIALS: usize = 10_000;

/// Why a request is rejected as invalid input.
#[derive(Clone, Copy, Debug, PartialEq, Eq, Structural)]
pub enum RiskError {
    /// The request holds no position.
    EmptyPositions,
    /// The total portfolio value is zero or negative.
    NonPositiveTotalValue,
}

/// A point in time: seconds since 1 January 1970 UTC, and nanoseconds
/// since the last whole second.
#[derive(Clone, Copy, Debug, PartialEq, Eq, Structural)]
pub struct Timestamp {
    pub seconds: i64,
    pub nanos: i32,
}

/// What one calculation reports.
pub struct VaRReport {
    /// The Value-at-Risk, in millionths of a currency unit; negative where
    /// the simulated distribution is skewed to profit.
    pub value_at_risk: i128,
    /// The assets, in the order of the vectors below.
    pub asset_names: Vec<String>,
    /// The correlation matrix in millionths, row after row.
    pub correlation_matrix: Vec<i32>,
    /// The volatility of each asset, in millionths.
    pub volatility_per_asset: Vec<u64>,
    /// How the simulated values were produced.
    pub simulation_mode: SimulationMode,
    /// When the report was made.
    pub timestamp: Timestamp,
}

/// The reason for which a request is rejected, if it is: no position, else
/// a total value that is not positive.
pub open spec fn rejection(positions: nat, total_value: int) -> Option<RiskError> {
    if positions == 0 {
        Some(RiskError::EmptyPositions)
    } else if total_value <= 0 {
        Some(RiskError::NonPositiveTotalValue)
    } else {
        None
    }
}

/// The risk engine.  It holds the return history; the random generator
/// stays with the caller, who draws the standard normals of each request.
pub struct RiskCalculator {
    /// Historical daily returns of each asset.
    pub asset_returns: ReturnStore,
}

impl RiskCalculator {
    /// The history is well formed.
    pub open spec fn wf(&self) -> bool {
        self.asset_returns.wf()
    }

    /// The aligned histories of the assets of `positions`.
    pub open spec fn columns(&self, positions: PositionSet) -> Seq<Seq<i32>> {
        aligned_columns(self.asset_returns, positions.ids())
    }

    /// Every asset of `positions` has at least two returns.
    pub open spec fn has_history(&self, positions: PositionSet) -> bool {
        self.asset_returns.common_len(positions.ids()) >= 2
    }

    /// The mode in which a request is simulated: static where the history
    /// is too short, else correlated where the covariance matrix was
    /// factorised, else diagonal.
    pub open spec fn mode(
        &self,
        positions: PositionSet,
        factorization: Factorization,
    ) -> SimulationMode {
        mode_for(self.has_history(positions), factorization is Factorized)
    }

    /// The simulated portfolio values of a request, in the order of the trials.
    pub open spec fn simulated(
        &self,
        positions: PositionSet,
        total_value: int,
        factorization: Factorization,
        draws: Seq<Vec<i32>>,
    ) -> Seq<int> {
        simulated_values(
            self.mode(positions, factorization),
            total_value,
            positions.quantities(),
            column_means(self.columns(positions)),
            column_variances(self.columns(positions)),
            factor_rows(factorization),
            draws,
        )
    }

    /// The Value-at-Risk of a request that is not rejected.
    pub open spec fn var_of(
        &self,
        positions: PositionSet,
        total_value: int,
        confidence_level: int,
        factorization: Factorization,
        draws: Seq<Vec<i32>>,
    ) -> int {
        value_at_risk(
            total_value,
            ascending(self.simulated(positions, total_value, factorization, draws)),
            confidence_level,
        )
    }

    /// The volatility reported for each asset: that of its aligned
    /// history, or zero where the history is too short.
    pub open spec fn volatilities(&self, positions: PositionSet) -> Seq<int> {
        if self.has_history(positions) {
            column_volatilities(self.columns(positions))
        } else {
            Seq::new(positions.ids().len(), |j: int| 0)
        }
    }

    /// The correlation matrix reported, row after row: that of the aligned
    /// histories, or all zero where the history is too short.
    pub open spec fn correlations(&self, positions: PositionSet) -> Seq<int> {
        if self.has_history(positions) {
            column_correlations(self.columns(positions))
        } else {
            Seq::new(positions.ids().len() * positions.ids().len(), |k: int| 0)
        }
    }

    /// `report` is the report of the request, whatever its timestamp.
    pub open spec fn reports(
        &self,
        report: VaRReport,
        positions: PositionSet,
        total_value: int,
        confidence_level: int,
        factorization: Factorization,
        draws: Seq<Vec<i32>>,
    ) -> bool {
        &&& report.value_at_risk == self.var_of(
            positions,
            total_value,
            confidence_level,
            factorization,
            draws,
        )
        &&& asset_ids(report.asset_names@) == positions.ids()
        &&& report.simulation_mode == self.mode(positions, factorization)
        &&& report.volatility_per_asset@.map_values(|v: u64| v as int) == self.volatilities(
            positions,
        )
        &&& report.correlation_matrix@.map_values(|v: i32| v as int) == self.correlations(
            positions,
        )
    }

    /// The inputs of a request fit together: at most [`MAX_ASSETS`]
    /// positions, [`TRIALS`] rows of draws, each as long as the mode needs,
    /// and a factor, where there is one, with one row for each position.
    pub open spec fn accepts(
        &self,
        positions: PositionSet,
        factorization: Factorization,
        draws: Seq<Vec<i32>>,
    ) -> bool {
        &&& positions.wf()
        &&& positions.ids().len() <= MAX_ASSETS
        &&& draws.len() == TRIALS
        &&& forall|t: int|
            0 <= t < draws.len() ==> (#[trigger] draws[t])@.len() == draws_per_trial(
                self.has_history(positions),
                positions.ids().len(),
            )
        &&& factorization matches Factorization::Factorized(f) ==> f.wf() && f@.len()
            == positions.ids().len()
    }

    /// Monotonicity law: for the same positions, history, factorisation
    /// and draws, a higher confidence level never gives a lower
    /// Value-at-Risk.  The lower level is positive: a level that is not is
    /// replaced by the default, which may well lie above the higher one.
    pub proof fn lemma_var_monotone(
        &self,
        positions: PositionSet,
        total_value: int,
        lower: int,
        higher: int,
        factorization: Factorization,
        draws: Seq<Vec<i32>>,
    )
        requires
            0 < lower < higher,
            draws.len() > 0,
        ensures
            self.var_of(positions, total_value, higher, factorization, draws) >= self.var_of(
                positions,
                total_value,
                lower,
                factorization,
                draws,
            ),
    {
        let values = self.simulated(positions, total_value, factorization, draws);
        crate::quantile::lemma_ascending(values);
        crate::quantile::lemma_value_at_risk_monotone(
            total_value,
            ascending(values),
            lower,
            higher,
        );
    }

    /// With two days of history for every asset a request is never
    /// simulated in the static mode: it is simulated in the correlated mode
    /// where the covariance matrix was factorised, else in the diagonal mode.
    pub proof fn lemma_mode_with_history(
        &self,
        positions: PositionSet,
        factorization: Factorization,
    )
        requires
            self.has_history(positions),
        ensures
            factorization is Factorized ==> self.mode(positions, factorization)
                == SimulationMode::Correlated,
            factorization is NotPositiveDefinite ==> self.mode(positions, factorization)
                == SimulationMode::DiagonalFallback,
    {
    }

    /// Two assets with the same history have the same variance, and that is
    /// also their covariance: their part of the covariance matrix is
    /// singular.
    pub proof fn lemma_identical_histories(&self, positions: PositionSet, i: int, j: int)
        requires
            0 <= i < positions.ids().len(),
            0 <= j < positions.ids().len(),
            self.asset_returns.series(positions.ids()[i]) == self.asset_returns.series(
                positions.ids()[j],
            ),
        ensures
            covariance(self.columns(positions)[i], self.columns(positions)[j]) == covariance(
                self.columns(positions)[i],
                self.columns(positions)[i],
            ),
            covariance(self.columns(positions)[i], self.columns(positions)[j]) == covariance(
                self.columns(positions)[j],
                self.columns(positions)[j],
            ),
    {
    }

    /// An engine without history simulates every request in the static mode.
    pub proof fn lemma_no_history_is_static(
        &self,
        positions: PositionSet,
        factorization: Factorization,
    )
        requires
            self.asset_returns@ == Map::<Seq<char>, Seq<i32>>::empty(),
        ensures
            self.mode(positions, factorization) == SimulationMode::StaticFallback,
    {
        self.asset_returns.lemma_no_history(positions.ids());
    }

    /// An engine without history.
    pub fn new() -> (engine: RiskCalculator)
        ensures
            engine.wf(),
            engine.asset_returns@ == Map::<Seq<char>, Seq<i32>>::empty(),
    {
        RiskCalculator { asset_returns: ReturnStore::new() }
    }

    /// Appends the returns of `samples`, oldest first, to the history of
    /// `asset`, which keeps the most recent of them up to its cap.
    pub fn inject_asset_history(&mut self, asset: &str, samples: &[i32])
        requires
            old(self).wf(),
        ensures
            final(self).wf(),
            samples@.len() == 0 ==> final(self).asset_returns@ == old(self).asset_returns@,
            samples@.len() > 0 ==> final(self).asset_returns@ == old(self).asset_returns@.insert(
                asset@,
                window(old(self).asset_returns.series(asset@) + samples@),
            ),
    {
        self.asset_returns.append_all(asset, samples);
    }

    /// The number of standard normal draws that one trial of a request
    /// for `positions` consumes.
    pub fn draws_needed(&self, positions: &PositionSet) -> (width: usize)
        requires
            self.wf(),
        ensures
            width == draws_per_trial(self.has_history(*positions), positions.ids().len()),
    {
        let names: Vec<String> = positions.asset_names();
        if self.asset_returns.common_length(&names) >= 2 {
            positions.len()
        } else {
            1
        }
    }

    /// Tests whether the inputs of a request fit together, as
    /// [`RiskCalculator::calculate`] and [`RiskCalculator::calculate_var`]
    /// need them.
    pub fn accepts_request(
        &self,
        positions: &PositionSet,
        factorization: &Factorization,
        draws: &Vec<Vec<i32>>,
    ) -> (fit: bool)
        requires
            self.wf(),
            positions.wf(),
            factorization matches Factorization::Factorized(f) ==> f.wf(),
        ensures
            fit == self.accepts(*positions, *factorization, draws@),
    {
        let n: usize = positions.len();
        if n > MAX_ASSETS || draws.len() != TRIALS {
            return false;
        }
        match factorization {
            Factorization::Factorized(factor) => {
                if factor.dim() != n {
                    return false;
                }
            },
            Factorization::NotPositiveDefinite => {},
        }
        let width: usize = self.draws_needed(positions);
        let mut t: usize = 0;
        while t < draws.len()
            invariant
                positions.wf(),
                positions.ids().len() <= MAX_ASSETS,
                draws@.len() == TRIALS,
                factorization matches Factorization::Factorized(f) ==> f.wf() && f@.len()
                    == positions.ids().len(),
                width == draws_per_trial(self.has_history(*positions), positions.ids().len()),
                t <= draws.len(),
                forall|k: int| 0 <= k < t ==> (#[trigger] draws@[k])@.len() == width,
            decreases draws.len() - t,
        {
            if draws[t].len() != width {
                return false;
            }
            t += 1;
        }
        true
    }

    /// Estimates means and covariances for the assets of `positions`;
    /// there is no model where an asset has fewer than two returns.
    pub fn estimate(&self, positions: &PositionSet) -> (model: Option<CovarianceModel>)
        requires
            self.wf(),
            positions.ids().len() <= MAX_ASSETS,
        ensures
            model.is_some() <==> self.has_history(*positions),
            model matches Some(m) ==> {
                &&& m.wf()
                &&& m.describes(self.columns(*positions))
                &&& forall|i: int, j: int|
                    0 <= i < m.dim() && 0 <= j < m.dim() ==> #[trigger] m.cov_at(i, j) == m.cov_at(
                        j,
                        i,
                    )
                &&& forall|i: int| 0 <= i < m.dim() ==> #[trigger] m.cov_at(i, i) >= 0
            },
    {
        let names: Vec<String> = positions.asset_names();
        let model = CovarianceModel::estimate(&self.asset_returns, &names);
        proof {
            if model is Some {
                let m = model->Some_0;
                assert forall|i: int, j: int| 0 <= i < m.dim() && 0 <= j < m.dim() implies (
                #[trigger] m.cov_at(i, j)) == m.cov_at(j, i) && m.cov_at(i, i) >= 0 by {
                    lemma_aligned_covariances(self.asset_returns, positions.ids(), i, j);
                }
            }
        }
        model
    }

    /// Calculates the Value-at-Risk of a portfolio from the simulated
    /// values that `draws` give: one row of standard normal draws, in
    /// millionths, for each trial.  `factorization` is the outcome of
    /// factorising the covariance matrix of [`RiskCalculator::estimate`];
    /// it is not read where the history is too short.
    pub fn calculate_var(
        &self,
        positions: &PositionSet,
        total_value: i64,
        confidence_level: i32,
        factorization: &Factorization,
        draws: &Vec<Vec<i32>>,
    ) -> (result: Result<i128, RiskError>)
        requires
            self.wf(),
            self.accepts(*positions, *factorization, draws@),
        ensures
            match result {
                Ok(var) => rejection(positions.ids().len(), total_value as int) is None && var
                    == self.var_of(
                    *positions,
                    total_value as int,
                    confidence_level as int,
                    *factorization,
                    draws@,
                ),
                Err(reason) => rejection(positions.ids().len(), total_value as int) == Some(reason),
            },
    {
        if positions.len() == 0 {
            return Err(RiskError::EmptyPositions);
        }
        if total_value <= 0 {
            return Err(RiskError::NonPositiveTotalValue);
        }
        let model: Option<CovarianceModel> = self.estimate(positions);
        proof {
            self.lemma_simulated(*positions, total_value as int, model, *factorization, draws@);
        }
        let sample = simulate(total_value, positions, &model, factorization, draws);
        Ok(sample.value_at_risk(total_value, confidence_level))
    }

    /// The values simulated from an estimated model are those of the request.
    proof fn lemma_simulated(
        &self,
        positions: PositionSet,
        total_value: int,
        model: Option<CovarianceModel>,
        factorization: Factorization,
        draws: Seq<Vec<i32>>,
    )
        requires
            positions.wf(),
            model.is_some() <==> self.has_history(positions),
            model matches Some(m) ==> m.wf() && m.describes(self.columns(positions)),
        ensures
            simulated_values(
                mode_for(model.is_some(), factorization is Factorized),
                total_value,
                positions.quantities(),
                crate::simulator::model_means(model),
                crate::simulator::model_variances(model),
                factor_rows(factorization),
                draws,
            ) == self.simulated(positions, total_value, factorization, draws),
            model matches Some(m) ==> m.dim() == positions.quantities().len(),
    {
        if let Some(m) = model {
            m.lemma_describes(self.columns(positions));
        }
    }

    /// Makes the report of a request: the Value-at-Risk of
    /// [`RiskCalculator::calculate_var`] with the diagnostics of the
    /// estimate, stamped with `timestamp`.
    pub fn calculate(
        &self,
        positions: &PositionSet,
        total_value: i64,
        confidence_level: i32,
        factorization: &Factorization,
        draws: &Vec<Vec<i32>>,
        timestamp: Timestamp,
    ) -> (result: Result<VaRReport, RiskError>)
        requires
            self.wf(),
            self.accepts(*positions, *factorization, draws@),
        ensures
            match result {
                Ok(report) => {
                    &&& rejection(positions.ids().len(), total_value as int) is None
                    &&& self.reports(
                        report,
                        *positions,
                        total_value as int,
                        confidence_level as int,
                        *factorization,
                        draws@,
                    )
                    &&& report.timestamp == timestamp
                },
                Err(reason) => rejection(positions.ids().len(), total_value as int) == Some(reason),
            },
    {
        let n: usize = positions.len();
        if n == 0 {
            return Err(RiskError::EmptyPositions);
        }
        if total_value <= 0 {
            return Err(RiskError::NonPositiveTotalValue);
        }
        let model: Option<CovarianceModel> = self.estimate(positions);
        proof {
            self.lemma_simulated(*positions, total_value as int, model, *factorization, draws@);
        }
        let simulation_mode: SimulationMode = select_mode(&model, factorization);
        let volatility_per_asset: Vec<u64>;
        let correlation_matrix: Vec<i32>;
        match &model {
            Some(m) => {
                volatility_per_asset = m.volatilities();
                correlation_matrix = m.correlation_matrix();
                proof {
                    m.lemma_summaries(
                        self.columns(*positions),
                        volatility_per_asset@,
                        correlation_matrix@,
                    );
                }
            },
            None => {
                assert(n * n <= 1024 * 1024) by (nonlinear_arith)
                    requires
                        n <= 1024,
                ;
                volatility_per_asset = zeros_u64(n);
                correlation_matrix = zeros_i32(n * n);
                assert(volatility_per_asset@.map_values(|v: u64| v as int) =~= self.volatilities(
                    *positions,
                ));
                assert(correlation_matrix@.map_values(|v: i32| v as int) =~= self.correlations(
                    *positions,
                ));
            },
        }
        let sample = simulate(total_value, positions, &model, factorization, draws);
        Ok(
            VaRReport {
                value_at_risk: sample.value_at_risk(total_value, confidence_level),
                asset_names: positions.asset_names(),
                correlation_matrix,
                volatility_per_asset,
                simulation_mode,
                timestamp,
            },
        )
    }
}

impl Default for RiskCalculator {
    /// An engine without history.
    fn default() -> (engine: RiskCalculator)
        ensures
            engine.wf(),
            engine.asset_returns@ == Map::<Seq<char>, Seq<i32>>::empty(),
    {
        RiskCalculator::new()
    }
}

/// A vector of `len` zeros.
fn zeros_u64(len: usize) -> (zeros: Vec<u64>)
    ensures
        zeros@.len() == len,
        forall|k: int| 0 <= k < len ==> (#[trigger] zeros@[k]) == 0,
{
    let mut zeros: Vec<u64> = Vec::new();
    let mut k: usize = 0;
    while k < len
        invariant
            k <= len,
            zeros@.len() == k,
            forall|x: int| 0 <= x < k ==> (#[trigger] zeros@[x]) == 0,
        decreases len - k,
    {
        zeros.push(0);
        k += 1;
    }
    zeros
}

/// A vector of `len` zeros.
fn zeros_i32(len: usize) -> (zeros: Vec<i32>)
    ensures
        zeros@.len() == len,
        forall|k: int| 0 <= k < len ==> (#[trigger] zeros@[k]) == 0,
{
    let mut zeros: Vec<i32> = Vec::new();
    let mut k: usize = 0;
    while k < len
        invariant
            k <= len,
            zeros@.len() == k,
            forall|x: int| 0 <= x < k ==> (#[trigger] zeros@[x]) == 0,
        decreases len - k,
    {
        zeros.push(0);
        k += 1;
    }
    zeros
}

} // verus!
