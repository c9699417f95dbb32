//! The binary decoder: turns an opaque fetched blob into one of the two
//! typed records, failing with `MalformedRecord` on anything mistyped.
//!
//! Layout contract. Every record begins with an 8-byte type discriminator.
//! A scaling record is a fixed-width blob: discriminator, the 32-byte tenant
//! group at offset 8, then the numeric fields at fixed offsets, 75 bytes in
//! all. A position record is self-describing: discriminator, the 32-byte
//! tenant group at offset 8, the 32-byte owner at offset 40, a 32-bit entry
//! count at offset 72, then that many 10-byte balance entries (asset index,
//! then a signed 64-bit raw quantity), with no bytes left over. All numbers
//! are little-endian; signed fields are two's complement.

use vstd::prelude::*;

use crate::ExposureError;
use crate::bytes_le::{
    as_signed_128, as_signed_64, copy_range, le_value, lemma_le_value_bounds, lemma_pow256_values,
    read_le_i128, read_le_i64, read_le_u16, read_le_u32,
};
use crate::records::{PositionEntry, PositionRecord, ScalingRecord};

verus! {

/// Total length of a scaling-record blob.
pub const SCALING_RECORD_LEN: usize = 75;

/// Length of a position-record blob before its balance table.
pub const POSITION_HEADER_LEN: usize = 76;

/// Length of one balance entry in a position-record blob.
pub const POSITION_ENTRY_LEN: usize = 10;

/// The 8-byte tag that opens every scaling-record blob.
pub open spec fn scaling_discriminator() -> Seq<u8> {
    seq![142u8, 49u8, 166u8, 242u8, 50u8, 66u8, 97u8, 188u8]
}

/// The 8-byte tag that opens every position-record blob.
pub open spec fn position_discriminator() -> Seq<u8> {
    seq![243u8, 228u8, 247u8, 3u8, 169u8, 52u8, 175u8, 31u8]
}

/// A blob is a well-formed scaling record: exactly the fixed width, opened
/// by the scaling discriminator.
pub open spec fn scaling_blob_ok(b: Seq<u8>) -> bool {
    b.len() == SCALING_RECORD_LEN && b.subrange(0, 8) == scaling_discriminator()
}

/// The scaling record a well-formed blob denotes: asset index at offset 40,
/// decimals at 42, the two scale factors at 43 and 59.
pub open spec fn scaling_of(b: Seq<u8>) -> ScalingRecord {
    ScalingRecord {
        token_index: le_value(b.subrange(40, 42)) as u16,
        decimals: b[42],
        deposit_scale: as_signed_128(le_value(b.subrange(43, 59))) as i128,
        borrow_scale: as_signed_128(le_value(b.subrange(59, 75))) as i128,
    }
}

/// The declared entry count of a position-record blob.
pub open spec fn position_entry_count(b: Seq<u8>) -> int {
    le_value(b.subrange(72, 76))
}

/// A blob is a well-formed position record: header present, opened by the
/// position discriminator, and holding exactly the declared number of
/// entries.
pub open spec fn position_blob_ok(b: Seq<u8>) -> bool {
    &&& b.len() >= POSITION_HEADER_LEN
    &&& b.subrange(0, 8) == position_discriminator()
    &&& b.len() == POSITION_HEADER_LEN + POSITION_ENTRY_LEN * position_entry_count(b)
}

/// The `k`-th balance entry a position-record blob denotes.
pub open spec fn position_entry_of(b: Seq<u8>, k: int) -> PositionEntry {
    PositionEntry {
        token_index: le_value(b.subrange(76 + 10 * k, 78 + 10 * k)) as u16,
        raw_balance: as_signed_64(le_value(b.subrange(78 + 10 * k, 86 + 10 * k))) as i64,
    }
}

/// The whole balance table a position-record blob denotes.
pub open spec fn position_entries_of(b: Seq<u8>) -> Seq<PositionEntry> {
    Seq::new(position_entry_count(b) as nat, |k: int| position_entry_of(b, k))
}

fn matches_scaling_discriminator(raw: &Vec<u8>) -> (r: bool)
    requires
        raw@.len() >= 8,
    ensures
        r == (raw@.subrange(0, 8) == scaling_discriminator()),
{
    let ok = raw[0] == 142 && raw[1] == 49 && raw[2] == 166 && raw[3] == 242 && raw[4] == 50
        && raw[5] == 66 && raw[6] == 97 && raw[7] == 188;
    proof {
        let s = raw@.subrange(0, 8);
        let d = scaling_discriminator();
        assert(d[0] == 142u8 && d[1] == 49u8 && d[2] == 166u8 && d[3] == 242u8 && d[4] == 50u8
            && d[5] == 66u8 && d[6] == 97u8 && d[7] == 188u8);
        if ok {
            assert(s =~= d);
        } else if s == d {
            assert(raw@[0] == s[0] && raw@[1] == s[1] && raw@[2] == s[2] && raw@[3] == s[3]
                && raw@[4] == s[4] && raw@[5] == s[5] && raw@[6] == s[6] && raw@[7] == s[7]);
            assert(false);
        }
    }
    ok
}

fn matches_position_discriminator(raw: &Vec<u8>) -> (r: bool)
    requires
        raw@.len() >= 8,
    ensures
        r == (raw@.subrange(0, 8) == position_discriminator()),
{
    let ok = raw[0] == 243 && raw[1] == 228 && raw[2] == 247 && raw[3] == 3 && raw[4] == 169
        && raw[5] == 52 && raw[6] == 175 && raw[7] == 31;
    proof {
        let s = raw@.subrange(0, 8);
        let d = position_discriminator();
        assert(d[0] == 243u8 && d[1] == 228u8 && d[2] == 247u8 && d[3] == 3u8 && d[4] == 169u8
            && d[5] == 52u8 && d[6] == 175u8 && d[7] == 31u8);
        if ok {
            assert(s =~= d);
        } else if s == d {
            assert(raw@[0] == s[0] && raw@[1] == s[1] && raw@[2] == s[2] && raw@[3] == s[3]
                && raw@[4] == s[4] && raw@[5] == s[5] && raw@[6] == s[6] && raw@[7] == s[7]);
            assert(false);
        }
    }
    ok
}

/// Decodes a fixed-width scaling-record blob, validating length and
/// discriminator before interpreting any field. Succeeds exactly on
/// well-formed blobs; anything else is `MalformedRecord`, never a partially
/// populated record.
pub fn decode_scaling_record(raw: &Vec<u8>) -> (r: Result<ScalingRecord, ExposureError>)
    ensures
        scaling_blob_ok(raw@) ==> r == Ok::<ScalingRecord, ExposureError>(scaling_of(raw@)),
        !scaling_blob_ok(raw@) ==> r == Err::<ScalingRecord, ExposureError>(
            ExposureError::MalformedRecord,
        ),
{
    if raw.len() != SCALING_RECORD_LEN {
        return Err(ExposureError::MalformedRecord);
    }
    if !matches_scaling_discriminator(raw) {
        return Err(ExposureError::MalformedRecord);
    }
    let token_index = read_le_u16(raw, 40);
    let decimals = raw[42];
    let deposit_scale = read_le_i128(raw, 43);
    let borrow_scale = read_le_i128(raw, 59);
    let rec = ScalingRecord { token_index, decimals, deposit_scale, borrow_scale };
    proof {
        lemma_le_value_bounds(raw@.subrange(40, 42));
        lemma_le_value_bounds(raw@.subrange(43, 59));
        lemma_le_value_bounds(raw@.subrange(59, 75));
        lemma_pow256_values();
        assert(rec == scaling_of(raw@));
    }
    Ok(rec)
}

/// Decodes a self-describing position-record blob, validating length,
/// discriminator and the declared entry count before walking the balance
/// table. Succeeds exactly on well-formed blobs; anything else is
/// `MalformedRecord`, never a partially populated record.
pub fn decode_position_record(raw: &Vec<u8>) -> (r: Result<PositionRecord, ExposureError>)
    ensures
        position_blob_ok(raw@) ==> (r matches Ok(rec) && rec.wf() && rec.group@ == raw@.subrange(
            8,
            40,
        ) && rec.owner@ == raw@.subrange(40, 72) && rec.entries@ == position_entries_of(raw@)),
        !position_blob_ok(raw@) ==> r == Err::<PositionRecord, ExposureError>(
            ExposureError::MalformedRecord,
        ),
{
    if raw.len() < POSITION_HEADER_LEN {
        return Err(ExposureError::MalformedRecord);
    }
    if !matches_position_discriminator(raw) {
        return Err(ExposureError::MalformedRecord);
    }
    let declared = read_le_u32(raw, 72);
    proof {
        lemma_le_value_bounds(raw@.subrange(72, 76));
        lemma_pow256_values();
    }
    let body = (raw.len() as u64) - (POSITION_HEADER_LEN as u64);
    if body != (POSITION_ENTRY_LEN as u64) * (declared as u64) {
        return Err(ExposureError::MalformedRecord);
    }
    let n = declared as usize;
    proof {
        assert(raw@.len() <= usize::MAX);
    }
    let mut entries: Vec<PositionEntry> = Vec::new();
    let mut k: usize = 0;
    while k < n
        invariant
            k <= n,
            n == position_entry_count(raw@),
            raw@.len() == POSITION_HEADER_LEN + POSITION_ENTRY_LEN * n,
            POSITION_HEADER_LEN + POSITION_ENTRY_LEN * n <= usize::MAX,
            entries@.len() == k,
            forall|j: int| 0 <= j < k ==> entries@[j] == position_entry_of(raw@, j),
        decreases n - k,
    {
        let base = POSITION_HEADER_LEN + POSITION_ENTRY_LEN * k;
        let token_index = read_le_u16(raw, base);
        let raw_balance = read_le_i64(raw, base + 2);
        let entry = PositionEntry { token_index, raw_balance };
        proof {
            lemma_le_value_bounds(raw@.subrange(base as int, base + 2));
            lemma_le_value_bounds(raw@.subrange(base + 2, base + 10));
            lemma_pow256_values();
            assert(entry == position_entry_of(raw@, k as int));
        }
        entries.push(entry);
        k = k + 1;
    }
    let group = copy_range(raw, 8, 32);
    let owner = copy_range(raw, 40, 32);
    let rec = PositionRecord { group, owner, entries };
    proof {
        assert(rec.entries@ =~= position_entries_of(raw@));
        assert(position_blob_ok(raw@));
    }
    Ok(rec)
}

/// Decodes every blob of a fetched batch as a scaling record: all succeed,
/// or the whole batch fails with the first blob's `MalformedRecord`.
pub fn decode_scaling_records(blobs: &Vec<Vec<u8>>) -> (r: Result<
    Vec<ScalingRecord>,
    ExposureError,
>)
    ensures
        (forall|j: int| 0 <= j < blobs@.len() ==> scaling_blob_ok(#[trigger] blobs@[j]@)) <==> r
            is Ok,
        r matches Ok(v) ==> v@.len() == blobs@.len() && (forall|j: int|
            0 <= j < blobs@.len() ==> #[trigger] v@[j] == scaling_of(blobs@[j]@)),
        r is Err ==> r == Err::<Vec<ScalingRecord>, ExposureError>(ExposureError::MalformedRecord),
{
    let mut out: Vec<ScalingRecord> = Vec::new();
    let n = blobs.len();
    let mut i: usize = 0;
    while i < n
        invariant
            i <= n,
            n == blobs@.len(),
            out@.len() == i,
            forall|j: int|
                0 <= j < i ==> scaling_blob_ok(#[trigger] blobs@[j]@) && out@[j] == scaling_of(
                    blobs@[j]@,
                ),
        decreases n - i,
    {
        match decode_scaling_record(&blobs[i]) {
            Ok(rec) => {
                out.push(rec);
            },
            Err(_) => {
                proof {
                    assert(!scaling_blob_ok(blobs@[i as int]@));
                }
                return Err(ExposureError::MalformedRecord);
            },
        }
        i = i + 1;
    }
    Ok(out)
}

/// Decodes every blob of a fetched batch as a position record: all succeed,
/// or the whole batch fails with the first blob's `MalformedRecord`.
pub fn decode_position_records(blobs: &Vec<Vec<u8>>) -> (r: Result<
    Vec<PositionRecord>,
    ExposureError,
>)
    ensures
        (forall|j: int| 0 <= j < blobs@.len() ==> position_blob_ok(#[trigger] blobs@[j]@)) <==> r
            is Ok,
        r matches Ok(v) ==> v@.len() == blobs@.len() && (forall|j: int|
            0 <= j < blobs@.len() ==> ((#[trigger] v@[j]).wf() && v@[j].group@
                == blobs@[j]@.subrange(8, 40) && v@[j].owner@ == blobs@[j]@.subrange(40, 72)
                && v@[j].entries@ == position_entries_of(blobs@[j]@))),
        r is Err ==> r == Err::<Vec<PositionRecord>, ExposureError>(ExposureError::MalformedRecord),
{
    let mut out: Vec<PositionRecord> = Vec::new();
    let n = blobs.len();
    let mut i: usize = 0;
    while i < n
        invariant
            i <= n,
            n == blobs@.len(),
            out@.len() == i,
            forall|j: int| 0 <= j < i ==> position_blob_ok(#[trigger] blobs@[j]@),
            forall|j: int|
                0 <= j < i ==> ((#[trigger] out@[j]).wf() && out@[j].group@ == blobs@[j]@.subrange(
                    8,
                    40,
                ) && out@[j].owner@ == blobs@[j]@.subrange(40, 72) && out@[j].entries@
                    == position_entries_of(blobs@[j]@)),
        decreases n - i,
    {
        match decode_position_record(&blobs[i]) {
            Ok(rec) => {
                out.push(rec);
            },
            Err(_) => {
                proof {
                    assert(!position_blob_ok(blobs@[i as int]@));
                }
                return Err(ExposureError::MalformedRecord);
            },
        }
        i = i + 1;
    }
    Ok(out)
}

} // verus!
