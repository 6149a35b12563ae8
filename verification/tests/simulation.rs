use risk_service::covariance::CovarianceModel;
use risk_service::positions::PositionSet;
use risk_service::quantile::quantile_rank;
use risk_service::quantile::SimulationResult;
use risk_service::return_store::ReturnStore;
use risk_service::simulator::correlated_trial;
use risk_service::simulator::diagonal_trial;
use risk_service::simulator::select_mode;
use risk_service::simulator::simulate;
use risk_service::simulator::static_trial;
use risk_service::simulator::Factorization;
use risk_service::simulator::LowerFactor;
use risk_service::simulator::SimulationMode;

const UNIT: i64 = 1_000_000;

fn names(list: &[&str]) -> Vec<String> {
    list.iter().map(|s| s.to_string()).collect()
}

/// Two assets over three days: A has mean 2% and volatility 1%, B mean 3% and volatility 3%.
fn two_assets() -> (PositionSet, CovarianceModel) {
    let mut store = ReturnStore::new();
    store.append_all("A", &[10_000, 20_000, 30_000]);
    store.append_all("B", &[30_000, 0, 60_000]);
    let model = CovarianceModel::estimate(&store, &names(&["A", "B"])).unwrap();
    let mut positions = PositionSet::new();
    positions.insert("A", 6_000 * UNIT);
    positions.insert("B", 4_000 * UNIT);
    (positions, model)
}

#[test]
fn quantile_rank_is_the_tail_share_of_the_trials() {
    assert_eq!(quantile_rank(950_000, 10_000), 500);
    assert_eq!(quantile_rank(990_000, 10_000), 100);
    assert_eq!(quantile_rank(900_000, 10_000), 1_000);
    assert_eq!(quantile_rank(999_999, 10_000), 0);
    assert_eq!(quantile_rank(1, 10_000), 9_999);
    assert_eq!(quantile_rank(500_000, 7), 3);
    assert_eq!(quantile_rank(950_000, 1), 0);
}

#[test]
fn quantile_rank_stays_within_the_sample() {
    assert_eq!(quantile_rank(1_000_000, 10_000), 0);
    assert_eq!(quantile_rank(2_000_000, 10_000), 0);
    assert_eq!(quantile_rank(i32::MAX, 10_000), 0);
    assert_eq!(quantile_rank(0, 10_000), 9_999);
    assert_eq!(quantile_rank(-1_000_000, 10_000), 9_999);
    assert_eq!(quantile_rank(i32::MIN, 10_000), 9_999);
    assert_eq!(quantile_rank(i32::MIN, usize::MAX), usize::MAX - 1);
}

#[test]
fn a_sample_is_sorted_ascending() {
    let sample = SimulationResult::from_values(&vec![5, -3, 9, 0, -3, 7]);
    assert_eq!(sample.len(), 6);
    let sorted: Vec<i128> = (0..6).map(|i| sample.value_at(i)).collect();
    assert_eq!(sorted, vec![-3, -3, 0, 5, 7, 9]);
}

#[test]
fn value_at_risk_is_total_less_the_quantile_value() {
    let values: Vec<i64> = (0..10_000).rev().collect();
    let sample = SimulationResult::from_values(&values);
    assert_eq!(sample.value_at_risk(10_000, 950_000), 9_500);
    assert_eq!(sample.value_at_risk(10_000, 990_000), 9_900);
    assert_eq!(sample.value_at_risk(10_000, 900_000), 9_000);
    assert_eq!(sample.value_at_risk(10_000, 1_000_000), 10_000);
}

#[test]
fn value_at_risk_may_be_negative() {
    let sample = SimulationResult::from_values(&vec![120, 130, 110, 140]);
    assert_eq!(sample.value_at_risk(100, 950_000), -10);
    assert_eq!(sample.value_at_risk(100, 250_000), -40);
}

#[test]
fn a_confidence_that_is_not_positive_means_the_default() {
    let values: Vec<i64> = (0..10_000).collect();
    let sample = SimulationResult::from_values(&values);
    let default = sample.value_at_risk(10_000, 950_000);
    assert_eq!(sample.value_at_risk(10_000, 0), default);
    assert_eq!(sample.value_at_risk(10_000, -1), default);
    assert_eq!(sample.value_at_risk(10_000, i32::MIN), default);
    assert_eq!(sample.value_at_risk(10_000, 1), 10_000 - 9_999);
}

#[test]
fn value_at_risk_grows_with_confidence() {
    let values: Vec<i64> = (0..997).map(|i: i64| (i * 7_919) % 1_009 - 500).collect();
    let sample = SimulationResult::from_values(&values);
    let levels = [1, 10, 100_000, 500_000, 900_000, 950_000, 990_000, 999_999, 1_000_000, 1_500_000];
    for pair in levels.windows(2) {
        assert!(sample.value_at_risk(1_000, pair[1]) >= sample.value_at_risk(1_000, pair[0]));
    }
}

#[test]
fn extreme_values_and_totals_do_not_overflow() {
    let sample = SimulationResult::from_values(&vec![i64::MAX, i64::MIN]);
    assert_eq!(sample.value_at_risk(i64::MIN, 999_999), i64::MIN as i128 - i64::MIN as i128);
    assert_eq!(sample.value_at_risk(i64::MAX, 999_999), i64::MAX as i128 - i64::MIN as i128);
    assert_eq!(sample.value_at_risk(i64::MIN, 1), i64::MIN as i128 - i64::MAX as i128);
}

#[test]
fn static_trial_shocks_the_whole_portfolio() {
    // one standard deviation up: two percent of 10,000
    assert_eq!(static_trial(10_000 * UNIT, 1_000_000), 10_200 * UNIT as i128);
    assert_eq!(static_trial(10_000 * UNIT, -1_000_000), 9_800 * UNIT as i128);
    assert_eq!(static_trial(10_000 * UNIT, 0), 10_000 * UNIT as i128);
    // 1.645 standard deviations down: a shock of -3.29 percent
    assert_eq!(static_trial(10_000 * UNIT, -1_645_000), 9_671 * UNIT as i128);
    // shocks are rounded down to a millionth: 20_000 * 25 / 1_000_000 is 0, and -0.5 is -1
    assert_eq!(static_trial(10_000 * UNIT, 25), 10_000 * UNIT as i128);
    assert_eq!(static_trial(10_000 * UNIT, -25), 10_000 * UNIT as i128 - 10_000);
}

#[test]
fn static_trial_of_extreme_inputs() {
    let shock = (20_000 * i32::MAX as i128).div_euclid(1_000_000);
    let expected = i64::MAX as i128 + (i64::MAX as i128 * shock).div_euclid(1_000_000);
    assert_eq!(static_trial(i64::MAX, i32::MAX), expected);
    let shock = (20_000 * i32::MIN as i128).div_euclid(1_000_000);
    let expected = i64::MIN as i128 + (i64::MIN as i128 * shock).div_euclid(1_000_000);
    assert_eq!(static_trial(i64::MIN, i32::MIN), expected);
}

#[test]
fn diagonal_trial_moves_each_asset_by_its_own_volatility() {
    let (positions, model) = two_assets();
    let vols = model.volatilities();
    assert_eq!(vols, vec![10_000, 30_000]);
    // A: 2% + 1% * 1 = 3%, B: 3% + 3% * -1 = 0%: 6,000 * 3% = 180
    let value = diagonal_trial(10_000 * UNIT, &positions, &model, &vols, &vec![1_000_000, -1_000_000]);
    assert_eq!(value, 10_180 * UNIT as i128);
    // A: 2% - 2% = 0, B: 3% + 6% = 9%: 4,000 * 9% = 360
    let value = diagonal_trial(10_000 * UNIT, &positions, &model, &vols, &vec![-2_000_000, 2_000_000]);
    assert_eq!(value, 10_360 * UNIT as i128);
    // no shock: the means alone, 120 + 120
    let value = diagonal_trial(10_000 * UNIT, &positions, &model, &vols, &vec![0, 0]);
    assert_eq!(value, 10_240 * UNIT as i128);
}

#[test]
fn correlated_trial_applies_the_factor_to_the_draws() {
    let (positions, model) = two_assets();
    let factor = LowerFactor::from_rows(vec![vec![10_000, 0], vec![15_000, 25_981]]).unwrap();
    // A: 2% + 1% * 1 = 3%; B: 3% + 1.5% * 1 + 2.5981% * 2 = 9.6962%
    // 6,000 * 3% + 4,000 * 9.6962% = 180 + 387.848
    let value = correlated_trial(10_000 * UNIT, &positions, &model, &factor, &vec![1_000_000, 2_000_000]);
    assert_eq!(value, 10_567_848_000);
    // A: 2% - 1% = 1%; B: 3% - 1.5% + 0 = 1.5%: 60 + 60
    let value = correlated_trial(10_000 * UNIT, &positions, &model, &factor, &vec![-1_000_000, 0]);
    assert_eq!(value, 10_120 * UNIT as i128);
}

#[test]
fn a_factor_is_applied_row_by_row() {
    let (positions, model) = two_assets();
    let factor = LowerFactor::from_rows(vec![vec![1, 0], vec![3, 4]]).unwrap();
    // A: 20_000 + 1 * 3e6 / 1e6 = 20_003, B: 30_000 + (3 * 3e6 + 4 * 5e6) / 1e6 = 30_029
    let value = correlated_trial(0, &positions, &model, &factor, &vec![3_000_000, 5_000_000]);
    assert_eq!(value, 6_000 * 20_003 + 4_000 * 30_029);
}

#[test]
fn a_factor_is_square_and_lower_triangular() {
    assert!(LowerFactor::from_rows(vec![vec![1, 0], vec![2, 3]]).is_some());
    assert!(LowerFactor::from_rows(vec![vec![0, 0], vec![0, 0]]).is_some());
    assert!(LowerFactor::from_rows(vec![vec![1]]).is_some());
    assert!(LowerFactor::from_rows(vec![]).is_some());
    assert!(LowerFactor::from_rows(vec![vec![1], vec![2, 3]]).is_none());
    assert!(LowerFactor::from_rows(vec![vec![1, 0], vec![2, 3], vec![4, 5]]).is_none());
    assert!(LowerFactor::from_rows(vec![vec![1, 0, 0], vec![2, 3, 0]]).is_none());
    assert!(LowerFactor::from_rows(vec![vec![1, 2], vec![3, 4]]).is_none());
    assert!(LowerFactor::from_rows(vec![vec![1, 0, 0], vec![2, 3, -1], vec![4, 5, 6]]).is_none());
    let factor = LowerFactor::from_rows(vec![vec![1, 0], vec![2, 3]]).unwrap();
    assert_eq!(factor.dim(), 2);
    assert_eq!(factor.entry(1, 0), 2);
    assert_eq!(factor.entry(0, 1), 0);
}

#[test]
fn the_mode_follows_the_data() {
    let (_, model) = two_assets();
    let some = Some(model);
    let factor = LowerFactor::from_rows(vec![vec![1, 0], vec![0, 1]]).unwrap();
    let factorized = Factorization::Factorized(factor);
    let failed = Factorization::NotPositiveDefinite;
    assert_eq!(select_mode(&some, &factorized), SimulationMode::Correlated);
    assert_eq!(select_mode(&some, &failed), SimulationMode::DiagonalFallback);
    assert_eq!(select_mode(&None, &factorized), SimulationMode::StaticFallback);
    assert_eq!(select_mode(&None, &failed), SimulationMode::StaticFallback);
}

#[test]
fn simulate_sorts_the_trials_of_the_static_mode() {
    let mut positions = PositionSet::new();
    positions.insert("A", 10_000 * UNIT);
    let draws = vec![vec![1_000_000], vec![-2_000_000], vec![0], vec![500_000]];
    let sample = simulate(10_000 * UNIT, &positions, &None, &Factorization::NotPositiveDefinite, &draws);
    let sorted: Vec<i128> = (0..sample.len()).map(|i| sample.value_at(i)).collect();
    let unit = UNIT as i128;
    assert_eq!(sorted, vec![9_600 * unit, 10_000 * unit, 10_100 * unit, 10_200 * unit]);
}

#[test]
fn simulate_runs_the_mode_that_the_factorisation_selects() {
    let (positions, model) = two_assets();
    let model = Some(model);
    let draws = vec![vec![1_000_000, -1_000_000], vec![-1_000_000, 0], vec![0, 0]];
    let unit = UNIT as i128;
    let sample = simulate(10_000 * UNIT, &positions, &model, &Factorization::NotPositiveDefinite, &draws);
    let sorted: Vec<i128> = (0..sample.len()).map(|i| sample.value_at(i)).collect();
    // diagonal: 180; 60 + 120; 120 + 120
    assert_eq!(sorted, vec![10_180 * unit, 10_180 * unit, 10_240 * unit]);
    let factor = LowerFactor::from_rows(vec![vec![10_000, 0], vec![15_000, 25_981]]).unwrap();
    let sample = simulate(10_000 * UNIT, &positions, &model, &Factorization::Factorized(factor), &draws);
    let sorted: Vec<i128> = (0..sample.len()).map(|i| sample.value_at(i)).collect();
    // correlated: B gets 3% + 1.5% - 2.5981%: 180 + 76.076; 60 + 60; 120 + 120
    assert_eq!(sorted, vec![10_120 * unit, 10_240 * unit, 10_256_076_000]);
}

#[test]
fn simulate_of_no_trials_is_empty() {
    let (positions, model) = two_assets();
    let sample = simulate(1, &positions, &Some(model), &Factorization::NotPositiveDefinite, &Vec::new());
    assert_eq!(sample.len(), 0);
}

#[test]
fn trials_of_extreme_inputs_do_not_overflow() {
    let mut store = ReturnStore::new();
    let swing: Vec<i32> = (0..252).map(|t| if t % 2 == 0 { i32::MIN } else { i32::MAX }).collect();
    let mut positions = PositionSet::new();
    let mut list = Vec::new();
    for k in 0..1024 {
        let name = format!("A{}", k);
        store.append_all(&name, &swing);
        positions.insert(&name, i64::MIN);
        list.push(name);
    }
    let model = CovarianceModel::estimate(&store, &list).unwrap();
    let vols = model.volatilities();
    let draws = vec![i32::MIN; 1024];
    let vol = vols[0] as i128;
    let asset_return = -1 + (vol * i32::MIN as i128).div_euclid(1_000_000);
    let holdings = 1024 * (i64::MIN as i128) * asset_return;
    let expected = i64::MIN as i128 + holdings.div_euclid(1_000_000);
    assert_eq!(diagonal_trial(i64::MIN, &positions, &model, &vols, &draws), expected);
    let rows: Vec<Vec<i32>> =
        (0..1024).map(|i| (0..1024).map(|k| if k <= i { i32::MIN } else { 0 }).collect()).collect();
    let factor = LowerFactor::from_rows(rows).unwrap();
    let mut holdings: i128 = 0;
    for i in 0..1024 {
        let numerator = (i + 1) * (i32::MIN as i128) * (i32::MIN as i128);
        let asset_return = -1 + numerator.div_euclid(1_000_000);
        holdings += (i64::MIN as i128) * asset_return;
    }
    let expected = i64::MIN as i128 + holdings.div_euclid(1_000_000);
    assert_eq!(correlated_trial(i64::MIN, &positions, &model, &factor, &draws), expected);
}
