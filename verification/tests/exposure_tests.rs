use mango_exposure::exposure::{
    compute_exposure, convert_to_units, select_scaling_record, try_compute_exposure,
};
use mango_exposure::records::{PositionEntry, PositionRecord, ScalingRecord};
use mango_exposure::{ExposureError, UNITS_ONE, Units};

fn unit_scaling(token_index: u16, decimals: u8) -> ScalingRecord {
    ScalingRecord { token_index, decimals, deposit_scale: UNITS_ONE, borrow_scale: UNITS_ONE }
}

fn record(entries: Vec<PositionEntry>) -> PositionRecord {
    PositionRecord { group: vec![1; 32], owner: vec![2; 32], entries }
}

fn entry(token_index: u16, raw_balance: i64) -> PositionEntry {
    PositionEntry { token_index, raw_balance }
}

fn to_f64(u: Units) -> f64 {
    (u.bits as f64) / (UNITS_ONE as f64)
}

#[test]
fn convert_to_units_scale_one_is_exact() {
    let s = unit_scaling(501, 6);
    assert_eq!(convert_to_units(1_000_000, &s).bits, UNITS_ONE);
    assert_eq!(convert_to_units(-250_000, &s).bits, -UNITS_ONE / 4);
    assert_eq!(convert_to_units(0, &s).bits, 0);
}

#[test]
fn convert_to_units_truncates_toward_zero() {
    let s = unit_scaling(9, 1);
    // 19 / 10 units: the exact quotient of the fixed-point product
    assert_eq!(convert_to_units(19, &s).bits, 19 * UNITS_ONE / 10);
    assert_eq!(convert_to_units(-19, &s).bits, -(19 * UNITS_ONE / 10));
}

#[test]
fn convert_to_units_picks_scale_by_sign() {
    let s = ScalingRecord {
        token_index: 9,
        decimals: 0,
        deposit_scale: 2 * UNITS_ONE,
        borrow_scale: 3 * UNITS_ONE,
    };
    assert_eq!(convert_to_units(5, &s).bits, 10 * UNITS_ONE);
    assert_eq!(convert_to_units(-5, &s).bits, -15 * UNITS_ONE);
}

#[test]
fn exposure_mixed_deposit_and_borrow_sums_absolutes() {
    // scale factor 1.0, asset index 501, one deposit of +1_000_000 raw units
    // and one borrow of -250_000 raw units: exposure 1.25 units
    let s = unit_scaling(501, 6);
    let records = vec![
        record(vec![entry(501, 1_000_000)]),
        record(vec![entry(501, -250_000)]),
    ];
    let total = compute_exposure(&records, 501, &s);
    assert_eq!(total.bits, UNITS_ONE + UNITS_ONE / 4);
    assert_eq!(to_f64(total), 1.25);
}

#[test]
fn exposure_over_zero_records_is_zero() {
    let s = unit_scaling(501, 6);
    let total = compute_exposure(&vec![], 501, &s);
    assert_eq!(total.bits, 0);
    assert_eq!(to_f64(total), 0.0);
}

#[test]
fn exposure_record_without_entry_contributes_zero() {
    let s = unit_scaling(501, 6);
    let records = vec![
        record(vec![entry(7, 999), entry(8, -999)]),
        record(vec![entry(501, 2_000_000)]),
        record(vec![]),
    ];
    let total = compute_exposure(&records, 501, &s);
    assert_eq!(total.bits, 2 * UNITS_ONE);
}

#[test]
fn exposure_is_order_independent() {
    let s = unit_scaling(501, 6);
    let a = record(vec![entry(501, 123_456)]);
    let b = record(vec![entry(501, -789_123)]);
    let c = record(vec![entry(7, 42)]);
    let one = compute_exposure(&vec![a, b, c], 501, &s);
    let a = record(vec![entry(501, 123_456)]);
    let b = record(vec![entry(501, -789_123)]);
    let c = record(vec![entry(7, 42)]);
    let other = compute_exposure(&vec![c, b, a], 501, &s);
    assert_eq!(one.bits, other.bits);
}

#[test]
fn exposure_never_negative_even_for_borrows_only() {
    let s = unit_scaling(501, 0);
    let records = vec![
        record(vec![entry(501, -1)]),
        record(vec![entry(501, -1_000_000_000)]),
    ];
    let total = compute_exposure(&records, 501, &s);
    assert!(total.bits > 0);
}

#[test]
fn exposure_is_deterministic() {
    let s = unit_scaling(501, 3);
    let records = vec![record(vec![entry(501, 314_159)])];
    let one = compute_exposure(&records, 501, &s);
    let again = compute_exposure(&records, 501, &s);
    assert_eq!(one, again);
}

#[test]
fn try_compute_exposure_matches_compute_exposure() {
    let s = unit_scaling(501, 6);
    let records = vec![record(vec![entry(501, -250_000)])];
    let total = try_compute_exposure(&records, 501, &s).unwrap();
    assert_eq!(total.bits, UNITS_ONE / 4);
}

#[test]
fn try_compute_exposure_rejects_unconvertible_balance() {
    let s = ScalingRecord {
        token_index: 501,
        decimals: 0,
        deposit_scale: i128::MAX,
        borrow_scale: i128::MAX,
    };
    let records = vec![record(vec![entry(501, 2)])];
    assert_eq!(try_compute_exposure(&records, 501, &s), None);
}

#[test]
fn try_compute_exposure_rejects_overflowing_total() {
    let s = ScalingRecord {
        token_index: 501,
        decimals: 0,
        deposit_scale: i128::MAX / 2,
        borrow_scale: i128::MAX / 2,
    };
    // each term is close to i128::MAX, so two of them overflow the total
    let records = vec![record(vec![entry(501, 2)]), record(vec![entry(501, 2)])];
    assert_eq!(try_compute_exposure(&records, 501, &s), None);
}

#[test]
fn try_compute_exposure_rejects_malformed_decimals() {
    let s = ScalingRecord {
        token_index: 501,
        decimals: 39,
        deposit_scale: UNITS_ONE,
        borrow_scale: UNITS_ONE,
    };
    assert_eq!(try_compute_exposure(&vec![], 501, &s), None);
}

#[test]
fn select_scaling_record_finds_unique_match() {
    let records = vec![unit_scaling(7, 6), unit_scaling(501, 9), unit_scaling(8, 0)];
    let picked = select_scaling_record(&records, 501).unwrap();
    assert_eq!(picked.token_index, 501);
    assert_eq!(picked.decimals, 9);
}

#[test]
fn select_scaling_record_fails_when_asset_not_configured() {
    let records = vec![unit_scaling(7, 6), unit_scaling(8, 0)];
    assert_eq!(select_scaling_record(&records, 501), Err(ExposureError::AssetNotConfigured));
    assert_eq!(select_scaling_record(&vec![], 501), Err(ExposureError::AssetNotConfigured));
}

#[test]
fn select_scaling_record_fails_on_duplicates() {
    let records = vec![unit_scaling(501, 6), unit_scaling(501, 6)];
    assert_eq!(
        select_scaling_record(&records, 501),
        Err(ExposureError::AmbiguousScalingRecord)
    );
}
