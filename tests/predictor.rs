use fee_predictor::{
    calculate_average, calculate_confidence, calculate_minimum, initialize, predict_fee,
    predict_floor, predict_floor_fee, predict_scaled, require_samples, same_key, scale_fee,
    store_fee_data, ErrorCode, FeeData, FeeSample, PriorityLevel, SampleField, SampleWindow,
    WINDOW_CAPACITY,
};

const OWNER: [u8; 32] = [7u8; 32];

fn sample(fee: u64, compute_units: u64, timestamp: i64) -> FeeSample {
    FeeSample { fee, tps: 1000, slot: timestamp as u64, compute_units_consumed: compute_units, timestamp }
}

fn record_with(fees: &[u64], compute_units: u64) -> FeeData {
    let mut data = initialize(OWNER, 0);
    for (i, fee) in fees.iter().enumerate() {
        let r = store_fee_data(&mut data, &OWNER, *fee, 1000, i as u64, compute_units, i as i64 + 1);
        assert_eq!(r, Ok(()));
    }
    data
}

fn fees_of(data: &FeeData) -> Vec<u64> {
    data.historical_data.snapshot().iter().map(|s| s.fee).collect()
}

#[test]
fn concrete_scenario_medium_high_and_floor() {
    let data = record_with(&[100, 200, 300], 1000);
    let medium = predict_fee(&data, 1000, PriorityLevel::Medium);
    assert_eq!(medium.estimated_fee, 200);
    assert_eq!(medium.priority_level, PriorityLevel::Medium);
    assert_eq!(medium.last_updated, Some(3));
    let high = predict_fee(&data, 1000, PriorityLevel::High);
    assert_eq!(high.estimated_fee, 300);
    assert_eq!(predict_floor_fee(&data), 100);
}

#[test]
fn low_urgency_scales_down() {
    let data = record_with(&[100, 200, 300], 1000);
    assert_eq!(predict_fee(&data, 1000, PriorityLevel::Low).estimated_fee, 160);
}

#[test]
fn compute_units_scale_the_fee() {
    let data = record_with(&[100, 200, 300], 1000);
    assert_eq!(predict_fee(&data, 2000, PriorityLevel::Medium).estimated_fee, 400);
    assert_eq!(predict_fee(&data, 500, PriorityLevel::Low).estimated_fee, 80);
}

#[test]
fn zero_average_compute_units_means_no_scaling() {
    let data = record_with(&[100], 0);
    assert_eq!(predict_fee(&data, 5000, PriorityLevel::Medium).estimated_fee, 100);
    assert_eq!(predict_fee(&data, 5000, PriorityLevel::High).estimated_fee, 150);
}

#[test]
fn scaled_fee_saturates() {
    assert_eq!(scale_fee(u64::MAX, 1, u64::MAX, PriorityLevel::High), u64::MAX);
    assert_eq!(scale_fee(10, 3, 1, PriorityLevel::Medium), 3);
    assert_eq!(scale_fee(5, 0, 99, PriorityLevel::Low), 4);
}

#[test]
fn eviction_scenario() {
    let fees: Vec<u64> = (1..=145).collect();
    let data = record_with(&fees, 1000);
    assert_eq!(data.historical_data.len(), WINDOW_CAPACITY);
    let expected: Vec<u64> = (2..=145).collect();
    assert_eq!(fees_of(&data), expected);
    assert_eq!(predict_floor_fee(&data), 2);
}

#[test]
fn capacity_holds_after_every_ingest() {
    let mut data = initialize(OWNER, 0);
    for i in 0..300u64 {
        store_fee_data(&mut data, &OWNER, i, 1, i, 1, i as i64).unwrap();
        assert!(data.historical_data.len() <= WINDOW_CAPACITY);
        assert_eq!(data.historical_data.len(), std::cmp::min(i as usize + 1, WINDOW_CAPACITY));
    }
    let expected: Vec<u64> = (156..300).collect();
    assert_eq!(fees_of(&data), expected);
}

#[test]
fn empty_window_default_prediction() {
    let data = initialize(OWNER, 42);
    for level in [PriorityLevel::Low, PriorityLevel::Medium, PriorityLevel::High] {
        let p = predict_fee(&data, 1000, level);
        assert_eq!(p.estimated_fee, 0);
        assert_eq!(p.confidence, 0);
        assert_eq!(p.last_updated, None);
        assert_eq!(p.priority_level, level);
    }
    assert_eq!(predict_floor_fee(&data), 0);
    assert_eq!(PriorityLevel::default(), PriorityLevel::Medium);
}

#[test]
fn confidence_of_identical_fees_is_full() {
    let data: Vec<FeeSample> = (0..5).map(|i| sample(500, 10, i)).collect();
    assert_eq!(calculate_confidence(&data), 100);
}

#[test]
fn confidence_needs_two_samples() {
    assert_eq!(calculate_confidence(&[]), 0);
    assert_eq!(calculate_confidence(&[sample(7, 1, 1)]), 0);
}

#[test]
fn confidence_exact_values() {
    assert_eq!(calculate_confidence(&[sample(0, 1, 1), sample(2, 1, 2)]), 50);
    assert_eq!(calculate_confidence(&[sample(0, 1, 1), sample(1, 1, 2)]), 66);
    let data = record_with(&[100, 200, 300], 1000);
    assert_eq!(predict_fee(&data, 1000, PriorityLevel::Medium).confidence, 1);
}

#[test]
fn confidence_of_huge_dispersion_is_zero() {
    let data = [sample(0, 1, 1), sample(u64::MAX, 1, 2)];
    assert_eq!(calculate_confidence(&data), 0);
}

#[test]
fn outlier_lowers_confidence() {
    let base = vec![sample(0, 1, 1), sample(0, 1, 2)];
    let before = calculate_confidence(&base);
    assert_eq!(before, 100);
    let mut grown = base.clone();
    grown.push(sample(1_000_000, 1, 3));
    let after = calculate_confidence(&grown);
    assert!(after < before);
    assert!(after <= 100);
}

#[test]
fn urgency_is_monotonic() {
    let data: Vec<FeeSample> = [37u64, 91, 12, 58].iter().enumerate().map(|(i, f)| sample(*f, 333, i as i64)).collect();
    let low = predict_scaled(&data, 777, PriorityLevel::Low).estimated_fee;
    let medium = predict_scaled(&data, 777, PriorityLevel::Medium).estimated_fee;
    let high = predict_scaled(&data, 777, PriorityLevel::High).estimated_fee;
    assert!(high >= medium && medium >= low);
    assert_eq!((low, medium, high), (91, 114, 171));
}

#[test]
fn floor_is_minimum_of_retained_fees() {
    let data = [sample(40, 1, 1), sample(15, 1, 2), sample(90, 1, 3)];
    assert_eq!(predict_floor(&data), 15);
    assert_eq!(predict_floor(&[]), 0);
    assert_eq!(calculate_minimum(&data, SampleField::ComputeUnits, 9), 1);
    assert_eq!(calculate_minimum(&[], SampleField::Fee, 9), 9);
}

#[test]
fn average_truncates() {
    let data = [sample(1, 10, 1), sample(2, 15, 2)];
    assert_eq!(calculate_average(&data, SampleField::Fee), 1);
    assert_eq!(calculate_average(&data, SampleField::ComputeUnits), 12);
    assert_eq!(calculate_average(&[], SampleField::Fee), 0);
    let big = [sample(u64::MAX, 0, 1), sample(u64::MAX, 0, 2)];
    assert_eq!(calculate_average(&big, SampleField::Fee), u64::MAX);
}

#[test]
fn unauthorized_signer_is_rejected() {
    let mut data = record_with(&[10, 20], 5);
    let intruder = [9u8; 32];
    let r = store_fee_data(&mut data, &intruder, 1, 1, 1, 1, 99);
    assert_eq!(r, Err(ErrorCode::Unauthorized));
    assert_eq!(fees_of(&data), vec![10, 20]);
    assert_eq!(data.last_updated, 2);
    assert!(same_key(&OWNER, &OWNER));
    assert!(!same_key(&OWNER, &intruder));
}

#[test]
fn store_updates_timestamp() {
    let mut data = initialize(OWNER, 5);
    assert_eq!(data.last_updated, 5);
    store_fee_data(&mut data, &OWNER, 10, 1, 1, 1, 77).unwrap();
    assert_eq!(data.last_updated, 77);
    assert_eq!(data.historical_data.last().map(|s| s.timestamp), Some(77));
}

#[test]
fn insufficient_data_is_reported() {
    let data = record_with(&[10], 5);
    assert_eq!(require_samples(&data, 1), Ok(()));
    assert_eq!(require_samples(&data, 2), Err(ErrorCode::InsufficientData));
}

#[test]
fn window_append_and_queries() {
    let mut w = SampleWindow::new();
    assert!(w.is_empty());
    assert_eq!(w.last(), None);
    w.append(sample(3, 1, 1));
    w.append(sample(4, 1, 2));
    assert!(!w.is_empty());
    assert_eq!(w.len(), 2);
    assert_eq!(w.last(), Some(sample(4, 1, 2)));
    assert_eq!(w.snapshot(), vec![sample(3, 1, 1), sample(4, 1, 2)]);
}

#[test]
fn multipliers_are_exact_fractions() {
    assert_eq!(PriorityLevel::Low.multiplier(), (4, 5));
    assert_eq!(PriorityLevel::Medium.multiplier(), (1, 1));
    assert_eq!(PriorityLevel::High.multiplier(), (3, 2));
}
