use mango_exposure::ExposureError;
use mango_exposure::decode::{
    decode_position_record, decode_position_records, decode_scaling_record, decode_scaling_records,
};

fn scaling_blob(token_index: u16, decimals: u8, deposit_scale: i128, borrow_scale: i128) -> Vec<u8> {
    let mut b = vec![142u8, 49, 166, 242, 50, 66, 97, 188];
    b.extend_from_slice(&[7u8; 32]);
    b.extend_from_slice(&token_index.to_le_bytes());
    b.push(decimals);
    b.extend_from_slice(&deposit_scale.to_le_bytes());
    b.extend_from_slice(&borrow_scale.to_le_bytes());
    b
}

fn position_blob(group: [u8; 32], owner: [u8; 32], entries: &[(u16, i64)]) -> Vec<u8> {
    let mut b = vec![243u8, 228, 247, 3, 169, 52, 175, 31];
    b.extend_from_slice(&group);
    b.extend_from_slice(&owner);
    b.extend_from_slice(&(entries.len() as u32).to_le_bytes());
    for (token_index, raw_balance) in entries {
        b.extend_from_slice(&token_index.to_le_bytes());
        b.extend_from_slice(&raw_balance.to_le_bytes());
    }
    b
}

#[test]
fn decode_scaling_record_reads_all_fields() {
    let blob = scaling_blob(501, 9, 1 << 48, -123456789);
    let rec = decode_scaling_record(&blob).unwrap();
    assert_eq!(rec.token_index, 501);
    assert_eq!(rec.decimals, 9);
    assert_eq!(rec.deposit_scale, 1 << 48);
    assert_eq!(rec.borrow_scale, -123456789);
}

#[test]
fn decode_scaling_record_rejects_short_blob() {
    let blob = vec![142u8, 49, 166];
    assert_eq!(decode_scaling_record(&blob), Err(ExposureError::MalformedRecord));
}

#[test]
fn decode_scaling_record_rejects_wrong_discriminator() {
    let mut blob = scaling_blob(501, 9, 1, 1);
    blob[0] = 143;
    assert_eq!(decode_scaling_record(&blob), Err(ExposureError::MalformedRecord));
}

#[test]
fn decode_scaling_record_rejects_wrong_length() {
    let mut blob = scaling_blob(501, 9, 1, 1);
    blob.push(0);
    assert_eq!(decode_scaling_record(&blob), Err(ExposureError::MalformedRecord));
    let mut short = scaling_blob(501, 9, 1, 1);
    short.pop();
    assert_eq!(decode_scaling_record(&short), Err(ExposureError::MalformedRecord));
}

#[test]
fn decode_position_record_reads_all_fields() {
    let blob = position_blob([1; 32], [2; 32], &[(501, 1_000_000), (7, -42)]);
    let rec = decode_position_record(&blob).unwrap();
    assert_eq!(rec.group, vec![1u8; 32]);
    assert_eq!(rec.owner, vec![2u8; 32]);
    assert_eq!(rec.entries.len(), 2);
    assert_eq!(rec.entries[0].token_index, 501);
    assert_eq!(rec.entries[0].raw_balance, 1_000_000);
    assert_eq!(rec.entries[1].token_index, 7);
    assert_eq!(rec.entries[1].raw_balance, -42);
}

#[test]
fn decode_position_record_accepts_zero_entries() {
    let blob = position_blob([1; 32], [2; 32], &[]);
    let rec = decode_position_record(&blob).unwrap();
    assert!(rec.entries.is_empty());
}

#[test]
fn decode_position_record_rejects_short_blob() {
    let blob = vec![243u8; 40];
    assert!(matches!(decode_position_record(&blob), Err(ExposureError::MalformedRecord)));
}

#[test]
fn decode_position_record_rejects_wrong_discriminator() {
    let mut blob = position_blob([1; 32], [2; 32], &[(501, 5)]);
    blob[7] = 0;
    assert!(matches!(decode_position_record(&blob), Err(ExposureError::MalformedRecord)));
}

#[test]
fn decode_position_record_rejects_inconsistent_count() {
    let mut blob = position_blob([1; 32], [2; 32], &[(501, 5)]);
    // declare one more entry than the blob holds
    blob[72] = 2;
    assert!(matches!(decode_position_record(&blob), Err(ExposureError::MalformedRecord)));
}

#[test]
fn decode_position_record_rejects_trailing_bytes() {
    let mut blob = position_blob([1; 32], [2; 32], &[(501, 5)]);
    blob.push(0);
    assert!(matches!(decode_position_record(&blob), Err(ExposureError::MalformedRecord)));
}

#[test]
fn decode_scaling_records_decodes_whole_batch() {
    let blobs = vec![scaling_blob(1, 6, 10, 20), scaling_blob(2, 0, -1, -2)];
    let recs = decode_scaling_records(&blobs).unwrap();
    assert_eq!(recs.len(), 2);
    assert_eq!(recs[0].token_index, 1);
    assert_eq!(recs[1].borrow_scale, -2);
}

#[test]
fn decode_scaling_records_fails_on_any_bad_blob() {
    let blobs = vec![scaling_blob(1, 6, 10, 20), vec![0u8; 75]];
    assert_eq!(decode_scaling_records(&blobs), Err(ExposureError::MalformedRecord));
}

#[test]
fn decode_position_records_is_all_or_nothing() {
    let good = position_blob([1; 32], [2; 32], &[(501, 5)]);
    let mut bad = good.clone();
    bad[0] = 0;
    let recs = decode_position_records(&vec![good.clone()]).unwrap();
    assert_eq!(recs.len(), 1);
    assert!(matches!(
        decode_position_records(&vec![good, bad]),
        Err(ExposureError::MalformedRecord)
    ));
}
