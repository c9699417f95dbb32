//! The exposure aggregator: converts each account's raw balance for one
//! asset into fixed-point units via the asset's scaling record, takes the
//! absolute value (deposits and borrows both concentrate risk), and sums
//! over all accounts. Also selects the unique scaling record for an asset
//! out of a fetched batch.

use vstd::prelude::*;

use crate::records::{PositionEntry, PositionRecord, ScalingRecord, lookup_position, lookup_spec};
use crate::{ExposureError, Units};

verus! {

/// The absolute value of a mathematical integer.
pub open spec fn abs_int(x: int) -> int {
    if x >= 0 {
        x
    } else {
        -x
    }
}

/// Division truncating toward zero, for a positive divisor.
pub open spec fn div_trunc(a: int, b: int) -> int {
    if a >= 0 {
        a / b
    } else {
        -((-a) / b)
    }
}

/// `10^n`.
pub open spec fn pow10(n: nat) -> int
    decreases n,
{
    if n == 0 {
        1
    } else {
        10 * pow10((n - 1) as nat)
    }
}

/// The scale factor a balance converts under: the deposit factor for
/// non-negative balances, the borrow factor for negative ones.
pub open spec fn scale_for(raw: int, s: ScalingRecord) -> int {
    if raw >= 0 {
        s.deposit_scale as int
    } else {
        s.borrow_scale as int
    }
}

/// The fixed-point bits of a converted balance: the raw quantity times its
/// scale factor, brought down to display units by `10^decimals`, truncated
/// toward zero. Sign is preserved: deposits stay positive, borrows negative.
pub open spec fn convert_bits(raw: int, s: ScalingRecord) -> int {
    div_trunc(raw * scale_for(raw, s), pow10(s.decimals as nat))
}

/// The 128-bit conversion arithmetic holds the product of a balance and its
/// scale factor exactly when its magnitude stays within `i128::MAX`.
pub open spec fn conversion_in_range(raw: int, s: ScalingRecord) -> bool {
    -(i128::MAX as int) <= raw * scale_for(raw, s) <= i128::MAX as int
}

/// What one account contributes to the exposure total: nothing when it holds
/// no position in the asset, otherwise the absolute converted balance.
pub open spec fn record_term(entries: Seq<PositionEntry>, token_index: u16, s: ScalingRecord) -> int {
    match lookup_spec(entries, token_index) {
        None => 0,
        Some(raw) => abs_int(convert_bits(raw as int, s)),
    }
}

/// One account's balance for the asset, if any, converts within range.
pub open spec fn record_convertible(
    entries: Seq<PositionEntry>,
    token_index: u16,
    s: ScalingRecord,
) -> bool {
    match lookup_spec(entries, token_index) {
        None => true,
        Some(raw) => conversion_in_range(raw as int, s),
    }
}

/// Every account's balance for the asset converts within range.
pub open spec fn all_convertible(
    records: Seq<PositionRecord>,
    token_index: u16,
    s: ScalingRecord,
) -> bool {
    forall|j: int|
        0 <= j < records.len() ==> #[trigger] record_convertible(records[j].entries@, token_index, s)
}

/// The exposure total, in fixed-point bits, of a list of balance tables.
pub open spec fn exposure_sum(
    tables: Seq<Seq<PositionEntry>>,
    token_index: u16,
    s: ScalingRecord,
) -> int
    decreases tables.len(),
{
    if tables.len() == 0 {
        0
    } else {
        record_term(tables[0], token_index, s) + exposure_sum(tables.drop_first(), token_index, s)
    }
}

/// The balance tables of a list of decoded position records.
pub open spec fn entry_tables(records: Seq<PositionRecord>) -> Seq<Seq<PositionEntry>> {
    records.map_values(|r: PositionRecord| r.entries@)
}

/// Exposure never goes negative, whatever the sign mix of the balances:
/// every account contributes an absolute value.
pub proof fn lemma_exposure_sum_nonneg(
    tables: Seq<Seq<PositionEntry>>,
    token_index: u16,
    s: ScalingRecord,
)
    ensures
        exposure_sum(tables, token_index, s) >= 0,
    decreases tables.len(),
{
    if tables.len() > 0 {
        lemma_exposure_sum_nonneg(tables.drop_first(), token_index, s);
    }
}

/// The exposure of a list splits at any point into the exposure of the two
/// halves.
pub proof fn lemma_exposure_sum_split(
    tables: Seq<Seq<PositionEntry>>,
    token_index: u16,
    s: ScalingRecord,
    i: int,
)
    requires
        0 <= i <= tables.len(),
    ensures
        exposure_sum(tables, token_index, s) == exposure_sum(tables.take(i), token_index, s)
            + exposure_sum(tables.skip(i), token_index, s),
    decreases i,
{
    if i == 0 {
        assert(tables.take(0).len() == 0);
        assert(tables.skip(0) =~= tables);
    } else {
        let tl = tables.drop_first();
        lemma_exposure_sum_split(tl, token_index, s, i - 1);
        assert(tables.take(i).drop_first() =~= tl.take(i - 1));
        assert(tables.take(i)[0] == tables[0]);
        assert(tables.skip(i) =~= tl.skip(i - 1));
    }
}

/// Extending a prefix by one element adds that element's term.
pub proof fn lemma_exposure_sum_take_step(
    tables: Seq<Seq<PositionEntry>>,
    token_index: u16,
    s: ScalingRecord,
    i: int,
)
    requires
        0 <= i < tables.len(),
    ensures
        exposure_sum(tables.take(i + 1), token_index, s) == exposure_sum(
            tables.take(i),
            token_index,
            s,
        ) + record_term(tables[i], token_index, s),
{
    let t1 = tables.take(i + 1);
    lemma_exposure_sum_split(t1, token_index, s, i);
    assert(t1.take(i) =~= tables.take(i));
    let single = t1.skip(i);
    assert(single.len() == 1);
    assert(single[0] == tables[i]);
    assert(single.drop_first().len() == 0);
    assert(exposure_sum(single.drop_first(), token_index, s) == 0);
    assert(exposure_sum(single, token_index, s) == record_term(single[0], token_index, s)
        + exposure_sum(single.drop_first(), token_index, s));
}

/// Removing one element removes exactly its term.
pub proof fn lemma_exposure_sum_remove(
    tables: Seq<Seq<PositionEntry>>,
    token_index: u16,
    s: ScalingRecord,
    i: int,
)
    requires
        0 <= i < tables.len(),
    ensures
        exposure_sum(tables, token_index, s) == record_term(tables[i], token_index, s)
            + exposure_sum(tables.remove(i), token_index, s),
    decreases i,
{
    if i == 0 {
        assert(tables.remove(0) =~= tables.drop_first());
    } else {
        let tl = tables.drop_first();
        lemma_exposure_sum_remove(tl, token_index, s, i - 1);
        assert(tables.remove(i).drop_first() =~= tl.remove(i - 1));
        assert(tables.remove(i)[0] == tables[0]);
        assert(tl[i - 1] == tables[i]);
    }
}

/// Aggregation is order-independent: two lists holding the same balance
/// tables, in whatever order and multiplicity, have the same exposure total.
pub proof fn lemma_exposure_sum_permutation(
    t1: Seq<Seq<PositionEntry>>,
    t2: Seq<Seq<PositionEntry>>,
    token_index: u16,
    s: ScalingRecord,
)
    requires
        t1.to_multiset() == t2.to_multiset(),
    ensures
        exposure_sum(t1, token_index, s) == exposure_sum(t2, token_index, s),
    decreases t1.len(),
{
    t1.to_multiset_ensures();
    t2.to_multiset_ensures();
    if t1.len() == 0 {
        assert(t2.len() == t2.to_multiset().len());
        assert(t2.len() == 0);
    } else {
        let x = t1[0];
        assert(t1.contains(x));
        assert(t1.to_multiset().count(x) > 0);
        assert(t2.contains(x));
        let j = choose|j: int| 0 <= j < t2.len() && t2[j] == x;
        lemma_exposure_sum_remove(t2, token_index, s, j);
        assert(t1.remove(0) =~= t1.drop_first());
        assert(t1.remove(0).to_multiset() == t1.to_multiset().remove(x));
        assert(t2.remove(j).to_multiset() == t2.to_multiset().remove(x));
        lemma_exposure_sum_permutation(t1.drop_first(), t2.remove(j), token_index, s);
    }
}

/// Aggregation is order-independent over the decoded records themselves:
/// two lists holding the same position records, in whatever order, have the
/// same exposure total.
pub proof fn lemma_exposure_order_independent(
    r1: Seq<PositionRecord>,
    r2: Seq<PositionRecord>,
    token_index: u16,
    s: ScalingRecord,
)
    requires
        r1.to_multiset() == r2.to_multiset(),
    ensures
        exposure_sum(entry_tables(r1), token_index, s) == exposure_sum(
            entry_tables(r2),
            token_index,
            s,
        ),
    decreases r1.len(),
{
    r1.to_multiset_ensures();
    r2.to_multiset_ensures();
    if r1.len() == 0 {
        assert(r2.len() == r2.to_multiset().len());
        assert(entry_tables(r1).len() == 0);
        assert(entry_tables(r2).len() == 0);
    } else {
        let x = r1[0];
        assert(r1.contains(x));
        assert(r1.to_multiset().count(x) > 0);
        assert(r2.contains(x));
        let j = choose|j: int| 0 <= j < r2.len() && r2[j] == x;
        let t2 = entry_tables(r2);
        assert(t2[j] == x.entries@);
        lemma_exposure_sum_remove(t2, token_index, s, j);
        assert(t2.remove(j) =~= entry_tables(r2.remove(j)));
        assert(entry_tables(r1).drop_first() =~= entry_tables(r1.drop_first()));
        assert(entry_tables(r1)[0] == x.entries@);
        assert(r1.remove(0) =~= r1.drop_first());
        assert(r1.remove(0).to_multiset() == r1.to_multiset().remove(x));
        assert(r2.remove(j).to_multiset() == r2.to_multiset().remove(x));
        lemma_exposure_order_independent(r1.drop_first(), r2.remove(j), token_index, s);
        assert(exposure_sum(entry_tables(r1), token_index, s) == record_term(
            x.entries@,
            token_index,
            s,
        ) + exposure_sum(entry_tables(r1).drop_first(), token_index, s));
    }
}

/// Recomputing the exposure of the same decoded inputs yields the identical
/// result: the total is a function of the inputs alone, with no hidden
/// state.
pub proof fn lemma_exposure_deterministic(
    r1: Units,
    r2: Units,
    tables: Seq<Seq<PositionEntry>>,
    token_index: u16,
    s: ScalingRecord,
)
    requires
        r1.bits == exposure_sum(tables, token_index, s),
        r2.bits == exposure_sum(tables, token_index, s),
    ensures
        r1 == r2,
{
}

/// Truncating division never grows a magnitude.
proof fn lemma_div_trunc_abs_le(a: int, b: int)
    requires
        b >= 1,
    ensures
        abs_int(div_trunc(a, b)) <= abs_int(a),
{
    if a >= 0 {
        assert(a / b <= a && a / b >= 0) by (nonlinear_arith)
            requires
                a >= 0,
                b >= 1,
        ;
    } else {
        assert((-a) / b <= -a && (-a) / b >= 0) by (nonlinear_arith)
            requires
                a < 0,
                b >= 1,
        ;
    }
}

fn abs_u128_of_i64(x: i64) -> (r: u128)
    ensures
        r == abs_int(x as int),
{
    if x >= 0 {
        x as u128
    } else {
        ((-(x + 1)) as u128) + 1
    }
}

fn abs_u128_of_i128(x: i128) -> (r: u128)
    ensures
        r == abs_int(x as int),
{
    if x >= 0 {
        x as u128
    } else {
        ((-(x + 1)) as u128) + 1
    }
}

/// `10^n` is positive.
pub proof fn lemma_pow10_pos(n: nat)
    ensures
        pow10(n) >= 1,
    decreases n,
{
    if n > 0 {
        lemma_pow10_pos((n - 1) as nat);
    }
}

/// `10^n` grows with `n`.
pub proof fn lemma_pow10_mono(a: nat, b: nat)
    requires
        a <= b,
    ensures
        pow10(a) <= pow10(b),
    decreases b,
{
    if a < b {
        lemma_pow10_mono(a, (b - 1) as nat);
        lemma_pow10_pos(a);
        assert(pow10(b) == 10 * pow10((b - 1) as nat));
    }
}

/// The largest power of ten the conversion can meet.
proof fn lemma_pow10_38()
    ensures
        pow10(38) == 100000000000000000000000000000000000000,
{
    reveal_with_fuel(pow10, 39);
}

fn pow10_u128(d: u8) -> (r: u128)
    requires
        d <= 38,
    ensures
        r == pow10(d as nat),
        r >= 1,
{
    let mut p: u128 = 1;
    let mut i: u8 = 0;
    while i < d
        invariant
            i <= d,
            d <= 38,
            p == pow10(i as nat),
        decreases d - i,
    {
        proof {
            lemma_pow10_mono((i + 1) as nat, 38);
            lemma_pow10_38();
            assert(pow10((i + 1) as nat) == 10 * pow10(i as nat));
        }
        p = p * 10;
        i = i + 1;
    }
    proof {
        lemma_pow10_pos(d as nat);
    }
    p
}

/// Applies the scaling record to a raw signed balance, producing the
/// fixed-point balance in display units with its sign preserved.
pub fn convert_to_units(raw_balance: i64, scaling: &ScalingRecord) -> (r: Units)
    requires
        scaling.wf(),
        conversion_in_range(raw_balance as int, *scaling),
    ensures
        r.bits == convert_bits(raw_balance as int, *scaling),
{
    let scale: i128 = if raw_balance >= 0 {
        scaling.deposit_scale
    } else {
        scaling.borrow_scale
    };
    let ghost x: int = (raw_balance as int) * (scale as int);
    let mag_raw = abs_u128_of_i64(raw_balance);
    let mag_scale = abs_u128_of_i128(scale);
    proof {
        assert((mag_raw as int) * (mag_scale as int) == abs_int(x)) by {
            assert((mag_raw as int) * (mag_scale as int) == (if x >= 0 {
                x
            } else {
                -x
            })) by (nonlinear_arith)
                requires
                    x == (raw_balance as int) * (scale as int),
                    mag_raw == (if raw_balance >= 0 {
                        raw_balance as int
                    } else {
                        -(raw_balance as int)
                    }),
                    mag_scale == (if scale >= 0 {
                        scale as int
                    } else {
                        -(scale as int)
                    }),
            ;
        }
    }
    let product: u128 = mag_raw * mag_scale;
    let divisor: u128 = pow10_u128(scaling.decimals);
    let q: u128 = product / divisor;
    proof {
        assert(q <= product) by (nonlinear_arith)
            requires
                q == product as int / divisor as int,
                divisor >= 1,
                product >= 0,
        ;
        assert(x > 0 ==> ((raw_balance < 0) <==> (scale < 0))) by (nonlinear_arith)
            requires
                x == (raw_balance as int) * (scale as int),
        ;
        assert(x < 0 ==> ((raw_balance < 0) != (scale < 0))) by (nonlinear_arith)
            requires
                x == (raw_balance as int) * (scale as int),
        ;
    }
    let negative = (raw_balance < 0) != (scale < 0);
    let bits: i128 = if negative {
        -(q as i128)
    } else {
        q as i128
    };
    proof {
        let p = pow10(scaling.decimals as nat);
        if x >= 0 {
            assert(abs_int(x) == x);
            assert(q == x / p);
        } else {
            assert(abs_int(x) == -x);
            assert(q == (-x) / p);
        }
        assert(bits == div_trunc(x, p));
    }
    Units { bits }
}

/// The number of scaling records in a batch configuring an asset.
pub open spec fn count_matching(records: Seq<ScalingRecord>, token_index: u16) -> int
    decreases records.len(),
{
    if records.len() == 0 {
        0
    } else {
        (if records[0].token_index == token_index {
            1int
        } else {
            0int
        }) + count_matching(records.drop_first(), token_index)
    }
}

/// The first scaling record in a batch configuring an asset, if any.
pub open spec fn first_matching(records: Seq<ScalingRecord>, token_index: u16) -> Option<
    ScalingRecord,
>
    decreases records.len(),
{
    if records.len() == 0 {
        None
    } else if records[0].token_index == token_index {
        Some(records[0])
    } else {
        first_matching(records.drop_first(), token_index)
    }
}

proof fn lemma_matching_take_step(records: Seq<ScalingRecord>, token_index: u16, i: int)
    requires
        0 <= i < records.len(),
    ensures
        count_matching(records.take(i + 1), token_index) == count_matching(
            records.take(i),
            token_index,
        ) + (if records[i].token_index == token_index {
            1int
        } else {
            0int
        }),
        first_matching(records.take(i + 1), token_index) == (if first_matching(
            records.take(i),
            token_index,
        ) is Some {
            first_matching(records.take(i), token_index)
        } else if records[i].token_index == token_index {
            Some(records[i])
        } else {
            None::<ScalingRecord>
        }),
    decreases i,
{
    if i == 0 {
        assert(records.take(1).drop_first() =~= records.take(0));
        assert(records.take(0).len() == 0);
        assert(records.take(1)[0] == records[0]);
    } else {
        let tl = records.drop_first();
        lemma_matching_take_step(tl, token_index, i - 1);
        assert(records.take(i + 1).drop_first() =~= tl.take(i));
        assert(records.take(i).drop_first() =~= tl.take(i - 1));
        assert(records.take(i + 1)[0] == records[0]);
        assert(records.take(i)[0] == records[0]);
        assert(tl[i - 1] == records[i]);
    }
}

proof fn lemma_matching_found(records: Seq<ScalingRecord>, token_index: u16)
    requires
        count_matching(records, token_index) > 0,
    ensures
        first_matching(records, token_index) is Some,
    decreases records.len(),
{
    if records.len() > 0 && records[0].token_index != token_index {
        lemma_matching_found(records.drop_first(), token_index);
    }
}

/// Picks the unique scaling record for the asset out of a fetched batch:
/// `AssetNotConfigured` when none matches, the record when exactly one does,
/// and `AmbiguousScalingRecord` when the configuration holds duplicates.
pub fn select_scaling_record(records: &Vec<ScalingRecord>, token_index: u16) -> (r: Result<
    ScalingRecord,
    ExposureError,
>)
    ensures
        count_matching(records@, token_index) == 0 ==> r == Err::<ScalingRecord, ExposureError>(
            ExposureError::AssetNotConfigured,
        ),
        count_matching(records@, token_index) == 1 ==> (r matches Ok(s) && first_matching(
            records@,
            token_index,
        ) == Some(s) && s.token_index == token_index),
        count_matching(records@, token_index) >= 2 ==> r == Err::<ScalingRecord, ExposureError>(
            ExposureError::AmbiguousScalingRecord,
        ),
{
    let n = records.len();
    let mut i: usize = 0;
    let mut found: Option<ScalingRecord> = None;
    let mut matches_seen: usize = 0;
    while i < n
        invariant
            i <= n,
            n == records@.len(),
            matches_seen <= i,
            matches_seen == count_matching(records@.take(i as int), token_index),
            found == first_matching(records@.take(i as int), token_index),
            found matches Some(f) ==> f.token_index == token_index,
        decreases n - i,
    {
        proof {
            lemma_matching_take_step(records@, token_index, i as int);
        }
        if records[i].token_index == token_index {
            matches_seen = matches_seen + 1;
            if found.is_none() {
                found = Some(records[i]);
            }
        }
        i = i + 1;
    }
    proof {
        assert(records@.take(n as int) =~= records@);
    }
    if matches_seen == 0 {
        Err(ExposureError::AssetNotConfigured)
    } else if matches_seen >= 2 {
        Err(ExposureError::AmbiguousScalingRecord)
    } else {
        match found {
            Some(s) => Ok(s),
            None => {
                proof {
                    lemma_matching_found(records@, token_index);
                    assert(false);
                }
                Err(ExposureError::AssetNotConfigured)
            },
        }
    }
}

/// What one account contributes to the total, or `None` when its balance
/// cannot convert within the 128-bit range.
fn try_record_term(record: &PositionRecord, token_index: u16, scaling: &ScalingRecord) -> (r:
    Option<i128>)
    requires
        scaling.wf(),
    ensures
        r matches Some(t) ==> record_convertible(record.entries@, token_index, *scaling) && t
            == record_term(record.entries@, token_index, *scaling) && t >= 0,
        r is None ==> !record_convertible(record.entries@, token_index, *scaling),
{
    match lookup_position(record, token_index) {
        None => Some(0),
        Some(raw) => {
            let scale: i128 = if raw >= 0 {
                scaling.deposit_scale
            } else {
                scaling.borrow_scale
            };
            let ghost x: int = (raw as int) * (scale as int);
            let mag_raw = abs_u128_of_i64(raw);
            let mag_scale = abs_u128_of_i128(scale);
            proof {
                assert((mag_raw as int) * (mag_scale as int) == abs_int(x)) by {
                    assert((mag_raw as int) * (mag_scale as int) == (if x >= 0 {
                        x
                    } else {
                        -x
                    })) by (nonlinear_arith)
                        requires
                            x == (raw as int) * (scale as int),
                            mag_raw == (if raw >= 0 {
                                raw as int
                            } else {
                                -(raw as int)
                            }),
                            mag_scale == (if scale >= 0 {
                                scale as int
                            } else {
                                -(scale as int)
                            }),
                    ;
                }
            }
            let limit: u128 = i128::MAX as u128;
            let in_range: bool = if mag_raw == 0 || mag_scale == 0 {
                true
            } else {
                mag_raw <= limit / mag_scale
            };
            proof {
                if mag_raw == 0 || mag_scale == 0 {
                    assert((mag_raw as int) * (mag_scale as int) == 0) by (nonlinear_arith)
                        requires
                            mag_raw == 0 || mag_scale == 0,
                    ;
                    assert(abs_int(x) == 0);
                } else {
                    assert(mag_raw <= limit / mag_scale ==> mag_raw * mag_scale <= limit)
                        by (nonlinear_arith)
                        requires
                            mag_scale >= 1,
                            limit >= 0,
                    ;
                    assert(mag_raw > limit / mag_scale ==> mag_raw * mag_scale > limit)
                        by (nonlinear_arith)
                        requires
                            mag_scale >= 1,
                            limit >= 0,
                    ;
                }
            }
            if !in_range {
                return None;
            }
            let u = convert_to_units(raw, scaling);
            proof {
                lemma_pow10_pos(scaling.decimals as nat);
                lemma_div_trunc_abs_le(x, pow10(scaling.decimals as nat));
            }
            let t: i128 = if u.bits >= 0 {
                u.bits
            } else {
                -u.bits
            };
            Some(t)
        },
    }
}

/// The full aggregation, total on every input: `None` exactly when the
/// inputs overrun the 128-bit conversion arithmetic — the scaling record is
/// malformed, some balance converts out of range, or the total itself
/// overflows. Otherwise the exposure total, always non-negative.
pub fn try_compute_exposure(
    records: &Vec<PositionRecord>,
    token_index: u16,
    scaling: &ScalingRecord,
) -> (r: Option<Units>)
    ensures
        r is Some <==> scaling.wf() && all_convertible(records@, token_index, *scaling)
            && exposure_sum(entry_tables(records@), token_index, *scaling) <= i128::MAX,
        r matches Some(u) ==> u.bits == exposure_sum(entry_tables(records@), token_index, *scaling)
            && u.bits >= 0,
{
    if scaling.decimals > 38 {
        return None;
    }
    let ghost tables = entry_tables(records@);
    let n = records.len();
    let mut total: i128 = 0;
    let mut i: usize = 0;
    while i < n
        invariant
            i <= n,
            n == records@.len(),
            scaling.wf(),
            tables == entry_tables(records@),
            tables.len() == n,
            0 <= total,
            total == exposure_sum(tables.take(i as int), token_index, *scaling),
            forall|j: int|
                0 <= j < i ==> #[trigger] record_convertible(
                    records@[j].entries@,
                    token_index,
                    *scaling,
                ),
        decreases n - i,
    {
        proof {
            assert(tables[i as int] == records@[i as int].entries@);
            lemma_exposure_sum_take_step(tables, token_index, *scaling, i as int);
        }
        match try_record_term(&records[i], token_index, scaling) {
            None => {
                return None;
            },
            Some(t) => {
                if t > i128::MAX - total {
                    proof {
                        lemma_exposure_sum_split(tables, token_index, *scaling, i + 1);
                        lemma_exposure_sum_nonneg(tables.skip(i + 1), token_index, *scaling);
                    }
                    return None;
                }
                total = total + t;
            },
        }
        i = i + 1;
    }
    proof {
        assert(tables.take(n as int) =~= tables);
    }
    Some(Units { bits: total })
}

/// The exposure total of a wallet's decoded accounts: for each account, the
/// asset's converted balance taken absolutely, or zero when the account
/// holds no position in the asset; summed over all accounts. Never
/// negative, and zero over zero accounts.
pub fn compute_exposure(
    records: &Vec<PositionRecord>,
    token_index: u16,
    scaling: &ScalingRecord,
) -> (r: Units)
    requires
        scaling.wf(),
        all_convertible(records@, token_index, *scaling),
        exposure_sum(entry_tables(records@), token_index, *scaling) <= i128::MAX,
    ensures
        r.bits == exposure_sum(entry_tables(records@), token_index, *scaling),
        r.bits >= 0,
        records@.len() == 0 ==> r.bits == 0,
{
    proof {
        assert(entry_tables(records@).len() == records@.len());
    }
    match try_compute_exposure(records, token_index, scaling) {
        Some(u) => u,
        None => {
            proof {
                assert(false);
            }
            Units { bits: 0 }
        },
    }
}

} // verus!
