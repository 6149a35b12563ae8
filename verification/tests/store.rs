use risk_service::positions::PositionSet;
use risk_service::return_store::ReturnStore;
use risk_service::return_store::WINDOW_CAP;
use risk_service::risk_calculator::RiskCalculator;

#[test]
fn eviction_keeps_the_most_recent_returns() {
    let mut store = ReturnStore::new();
    for i in 0..300 {
        store.append_return("BTC-USD", i);
    }
    let kept = store.get_returns("BTC-USD");
    assert_eq!(kept.len(), WINDOW_CAP);
    let expected: Vec<i32> = (48..300).collect();
    assert_eq!(kept, expected);
    assert_eq!(store.series_len("BTC-USD"), 252);
}

#[test]
fn a_series_grows_until_the_cap() {
    let mut store = ReturnStore::new();
    for i in 0..252 {
        store.append_return("A", i);
        assert_eq!(store.series_len("A"), (i + 1) as usize);
    }
    assert_eq!(store.get_returns("A"), (0..252).collect::<Vec<i32>>());
    store.append_return("A", 252);
    assert_eq!(store.get_returns("A"), (1..253).collect::<Vec<i32>>());
}

#[test]
fn an_unseen_asset_has_no_returns() {
    let mut store = ReturnStore::new();
    assert!(store.get_returns("A").is_empty());
    store.append_return("A", 7);
    assert_eq!(store.get_returns("A"), vec![7]);
    assert!(store.get_returns("B").is_empty());
    assert_eq!(store.series_len("B"), 0);
}

#[test]
fn appends_to_one_asset_leave_the_others() {
    let mut store = ReturnStore::new();
    store.append_return("A", 1);
    store.append_return("B", -2);
    store.append_return("A", 3);
    store.append_return("B", -4);
    store.append_return("A", 5);
    assert_eq!(store.get_returns("A"), vec![1, 3, 5]);
    assert_eq!(store.get_returns("B"), vec![-2, -4]);
}

#[test]
fn common_length_is_the_shortest_window() {
    let mut store = ReturnStore::new();
    store.append_all("A", &[1, 2, 3, 4, 5]);
    store.append_all("B", &[1, 2, 3]);
    store.append_all("C", &[1, 2, 3, 4]);
    let all = vec!["A".to_string(), "B".to_string(), "C".to_string()];
    assert_eq!(store.common_length(&all), 3);
    let two = vec!["C".to_string(), "A".to_string()];
    assert_eq!(store.common_length(&two), 4);
    let one = vec!["A".to_string()];
    assert_eq!(store.common_length(&one), 5);
}

#[test]
fn common_length_counts_an_unseen_asset_as_zero() {
    let mut store = ReturnStore::new();
    store.append_all("A", &[1, 2, 3]);
    let assets = vec!["A".to_string(), "ZZZ".to_string()];
    assert_eq!(store.common_length(&assets), 0);
}

#[test]
fn common_length_of_no_assets_is_zero() {
    let mut store = ReturnStore::new();
    store.append_all("A", &[1, 2, 3]);
    assert_eq!(store.common_length(&Vec::new()), 0);
}

#[test]
fn append_all_is_so_many_appends() {
    let samples: Vec<i32> = (0..400).map(|i| i * 3 - 500).collect();
    let mut one_by_one = ReturnStore::new();
    for s in &samples {
        one_by_one.append_return("A", *s);
    }
    let mut at_once = ReturnStore::new();
    at_once.append_all("A", &samples);
    assert_eq!(one_by_one.get_returns("A"), at_once.get_returns("A"));
    assert_eq!(at_once.get_returns("A"), samples[148..].to_vec());
}

#[test]
fn append_all_of_nothing_changes_nothing() {
    let mut store = ReturnStore::new();
    store.append_all("A", &[]);
    assert_eq!(store.series_len("A"), 0);
    store.append_all("A", &[9]);
    store.append_all("A", &[]);
    assert_eq!(store.get_returns("A"), vec![9]);
}

#[test]
fn injected_history_is_evicted_like_any_other() {
    let mut engine = RiskCalculator::default();
    let first: Vec<i32> = (0..200).collect();
    let second: Vec<i32> = (200..300).collect();
    engine.inject_asset_history("A", &first);
    engine.inject_asset_history("A", &second);
    assert_eq!(engine.asset_returns.get_returns("A"), (48..300).collect::<Vec<i32>>());
}

#[test]
fn extreme_returns_are_stored_as_they_are() {
    let mut store = ReturnStore::new();
    store.append_all("A", &[i32::MIN, i32::MAX, 0]);
    assert_eq!(store.get_returns("A"), vec![i32::MIN, i32::MAX, 0]);
}

#[test]
fn positions_keep_insertion_order() {
    let mut positions = PositionSet::new();
    assert_eq!(positions.len(), 0);
    positions.insert("B", 20);
    positions.insert("A", 10);
    positions.insert("C", -30);
    assert_eq!(positions.len(), 3);
    assert_eq!(positions.asset_names(), vec!["B".to_string(), "A".to_string(), "C".to_string()]);
    assert_eq!(positions.quantity_at(0), 20);
    assert_eq!(positions.quantity_at(1), 10);
    assert_eq!(positions.quantity_at(2), -30);
}

#[test]
fn inserting_a_known_asset_replaces_its_quantity() {
    let mut positions = PositionSet::new();
    positions.insert("A", 10);
    positions.insert("B", 20);
    positions.insert("A", 99);
    assert_eq!(positions.len(), 2);
    assert_eq!(positions.asset_names(), vec!["A".to_string(), "B".to_string()]);
    assert_eq!(positions.quantity_at(0), 99);
    assert_eq!(positions.quantity_at(1), 20);
}
