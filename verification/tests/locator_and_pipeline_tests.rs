use mango_exposure::UNITS_ONE;
use mango_exposure::decode::{decode_position_records, decode_scaling_records};
use mango_exposure::exposure::{select_scaling_record, try_compute_exposure};
use mango_exposure::locator::{locate_position_records, locate_scaling_records};
use mango_exposure::records::{PositionEntry, PositionRecord, lookup_position};

#[test]
fn locate_position_records_builds_three_filters() {
    let group = vec![5u8; 32];
    let owner = vec![9u8; 32];
    let filters = locate_position_records(&group, &owner);
    assert_eq!(filters.len(), 3);
    assert_eq!(filters[0].offset, 0);
    assert_eq!(filters[0].needle, vec![243u8, 228, 247, 3, 169, 52, 175, 31]);
    assert_eq!(filters[1].offset, 8);
    assert_eq!(filters[1].needle, group);
    assert_eq!(filters[2].offset, 40);
    assert_eq!(filters[2].needle, owner);
}

#[test]
fn locate_scaling_records_builds_two_filters() {
    let group = vec![5u8; 32];
    let filters = locate_scaling_records(&group);
    assert_eq!(filters.len(), 2);
    assert_eq!(filters[0].offset, 0);
    assert_eq!(filters[0].needle, vec![142u8, 49, 166, 242, 50, 66, 97, 188]);
    assert_eq!(filters[1].offset, 8);
    assert_eq!(filters[1].needle, group);
}

#[test]
fn lookup_position_returns_first_match_or_none() {
    let rec = PositionRecord {
        group: vec![0; 32],
        owner: vec![0; 32],
        entries: vec![
            PositionEntry { token_index: 7, raw_balance: 1 },
            PositionEntry { token_index: 501, raw_balance: 10 },
            PositionEntry { token_index: 501, raw_balance: 20 },
        ],
    };
    assert_eq!(lookup_position(&rec, 501), Some(10));
    assert_eq!(lookup_position(&rec, 7), Some(1));
    assert_eq!(lookup_position(&rec, 8), None);
}

fn scaling_blob(token_index: u16, decimals: u8, deposit_scale: i128, borrow_scale: i128) -> Vec<u8> {
    let mut b = vec![142u8, 49, 166, 242, 50, 66, 97, 188];
    b.extend_from_slice(&[7u8; 32]);
    b.extend_from_slice(&token_index.to_le_bytes());
    b.push(decimals);
    b.extend_from_slice(&deposit_scale.to_le_bytes());
    b.extend_from_slice(&borrow_scale.to_le_bytes());
    b
}

#[test]
fn pipeline_with_zero_fetched_accounts_yields_zero_exposure() {
    // the scaling record exists, but the wallet has no accounts at all
    let scaling_blobs = vec![scaling_blob(501, 6, UNITS_ONE, UNITS_ONE)];
    let banks = decode_scaling_records(&scaling_blobs).unwrap();
    let bank = select_scaling_record(&banks, 501).unwrap();
    let accounts = decode_position_records(&vec![]).unwrap();
    assert!(accounts.is_empty());
    let total = try_compute_exposure(&accounts, 501, &bank).unwrap();
    assert_eq!(total.bits, 0);
    assert_eq!((total.bits as f64) / (UNITS_ONE as f64), 0.0);
}

#[test]
fn pipeline_without_matching_scaling_record_fails() {
    let scaling_blobs = vec![scaling_blob(7, 6, UNITS_ONE, UNITS_ONE)];
    let banks = decode_scaling_records(&scaling_blobs).unwrap();
    assert!(select_scaling_record(&banks, 501).is_err());
}
