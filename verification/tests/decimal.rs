use risk_service::decimal::DecimalValue;

fn decimal(units: i64, nanos: i32) -> DecimalValue {
    DecimalValue { units, nanos }
}

#[test]
fn units_and_nanos_in_millionths() {
    assert_eq!(decimal(10_000, 0).to_micros(), 10_000_000_000);
    assert_eq!(decimal(1, 500_000_000).to_micros(), 1_500_000);
    assert_eq!(decimal(0, 1_000).to_micros(), 1);
    assert_eq!(decimal(-3, -250_000_000).to_micros(), -3_250_000);
    assert_eq!(decimal(0, 0).to_micros(), 0);
}

#[test]
fn nanos_are_rounded_down_to_a_millionth() {
    assert_eq!(decimal(0, 999).to_micros(), 0);
    assert_eq!(decimal(0, 1_999).to_micros(), 1);
    assert_eq!(decimal(0, -1).to_micros(), -1);
    assert_eq!(decimal(0, -1_000).to_micros(), -1);
    assert_eq!(decimal(0, -1_001).to_micros(), -2);
}

#[test]
fn amounts_beyond_the_range_are_limited_to_it() {
    assert_eq!(decimal(i64::MAX, 0).to_micros(), i64::MAX);
    assert_eq!(decimal(i64::MIN, 0).to_micros(), i64::MIN);
    assert_eq!(decimal(9_223_372_036_854, 775_807_000).to_micros(), i64::MAX);
    assert_eq!(decimal(9_223_372_036_854, 775_808_000).to_micros(), i64::MAX);
    assert_eq!(decimal(9_223_372_036_854, 775_806_999).to_micros(), i64::MAX - 1);
    assert_eq!(decimal(-9_223_372_036_854, -775_808_000).to_micros(), i64::MIN);
    assert_eq!(decimal(-9_223_372_036_855, i32::MIN).to_micros(), i64::MIN);
}

#[test]
fn millionths_as_units_and_nanos() {
    assert_eq!(DecimalValue::from_micros(329_123_456), decimal(329, 123_456_000));
    assert_eq!(DecimalValue::from_micros(-98_400_000), decimal(-98, -400_000_000));
    assert_eq!(DecimalValue::from_micros(-1), decimal(0, -1_000));
    assert_eq!(DecimalValue::from_micros(999_999), decimal(0, 999_999_000));
    assert_eq!(DecimalValue::from_micros(-999_999), decimal(0, -999_999_000));
    assert_eq!(DecimalValue::from_micros(1_000_000), decimal(1, 0));
    assert_eq!(DecimalValue::from_micros(0), decimal(0, 0));
}

#[test]
fn units_beyond_the_range_are_limited_to_it() {
    assert_eq!(DecimalValue::from_micros(i128::MAX), decimal(i64::MAX, 0));
    assert_eq!(DecimalValue::from_micros(i128::MIN), decimal(i64::MIN, 0));
    assert_eq!(DecimalValue::from_micros(i128::MIN + 1), decimal(i64::MIN, 0));
    let edge = i64::MAX as i128 * 1_000_000 + 999_999;
    assert_eq!(DecimalValue::from_micros(edge), decimal(i64::MAX, 999_999_000));
    assert_eq!(DecimalValue::from_micros(edge + 1), decimal(i64::MAX, 0));
    let edge = i64::MIN as i128 * 1_000_000 - 999_999;
    assert_eq!(DecimalValue::from_micros(edge), decimal(i64::MIN, -999_999_000));
    assert_eq!(DecimalValue::from_micros(edge - 1), decimal(i64::MIN, 0));
}

#[test]
fn an_amount_survives_the_round_trip() {
    for micros in [0i64, 1, -1, 999_999, -999_999, 1_000_000, 123_456_789_012, -123_456_789_012, i64::MAX, i64::MIN] {
        assert_eq!(DecimalValue::from_micros(micros as i128).to_micros(), micros);
    }
}
