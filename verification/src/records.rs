//! The two typed records the decoder produces, and the per-asset balance
//! lookup inside a position record.

use vstd::prelude::*;

verus! {

/// One per-asset balance entry inside a position record.
#[derive(Clone, Copy, PartialEq, Eq, Structural, Debug)]
pub struct PositionEntry {
    /// Which asset this balance is in.
    pub token_index: u16,
    /// Signed raw quantity: positive is a deposit, negative a borrow.
    pub raw_balance: i64,
}

/// Per-asset conversion metadata (a "bank"): what is needed to turn a raw
/// signed balance into human-readable units. One exists per asset index per
/// tenant group; immutable for the duration of one computation.
#[derive(Clone, Copy, PartialEq, Eq, Structural, Debug)]
pub struct ScalingRecord {
    /// The asset this record configures.
    pub token_index: u16,
    /// Decimal places dividing the scaled amount down to display units.
    pub decimals: u8,
    /// Fixed-point scale factor (48 fractional bits) applied to deposits.
    pub deposit_scale: i128,
    /// Fixed-point scale factor (48 fractional bits) applied to borrows.
    pub borrow_scale: i128,
}

impl ScalingRecord {
    /// Machine-limit validity: `10^decimals` must fit the 128-bit arithmetic
    /// of the conversion, which holds whenever `decimals <= 38`.
    pub open spec fn wf(self) -> bool {
        self.decimals <= 38
    }
}

/// A margin account's decoded state: its identities and the table of
/// per-asset signed balances.
pub struct PositionRecord {
    /// The tenant group the account belongs to (32 bytes).
    pub group: Vec<u8>,
    /// The wallet that owns the account (32 bytes).
    pub owner: Vec<u8>,
    /// Zero or more per-asset balance entries.
    pub entries: Vec<PositionEntry>,
}

impl PositionRecord {
    /// Both identities are 32-byte addresses.
    pub open spec fn wf(self) -> bool {
        self.group@.len() == 32 && self.owner@.len() == 32
    }
}

/// The first balance entry for `token_index`, if the record holds one.
/// Absence is a valid outcome, not an error: the account simply has no
/// position in that asset.
pub open spec fn lookup_spec(entries: Seq<PositionEntry>, token_index: u16) -> Option<i64>
    decreases entries.len(),
{
    if entries.len() == 0 {
        None
    } else if entries[0].token_index == token_index {
        Some(entries[0].raw_balance)
    } else {
        lookup_spec(entries.drop_first(), token_index)
    }
}

/// Scans the record's balance table for the asset, returning its signed raw
/// balance, or `None` when the account holds no position in it.
pub fn lookup_position(record: &PositionRecord, token_index: u16) -> (r: Option<i64>)
    ensures
        r == lookup_spec(record.entries@, token_index),
{
    let n = record.entries.len();
    let mut i: usize = 0;
    proof {
        assert(record.entries@.skip(0) =~= record.entries@);
    }
    while i < n
        invariant
            i <= n,
            n == record.entries@.len(),
            lookup_spec(record.entries@, token_index) == lookup_spec(
                record.entries@.skip(i as int),
                token_index,
            ),
        decreases n - i,
    {
        proof {
            assert(record.entries@.skip(i as int)[0] == record.entries@[i as int]);
            assert(record.entries@.skip(i as int).drop_first() =~= record.entries@.skip(
                i + 1,
            ));
        }
        if record.entries[i].token_index == token_index {
            return Some(record.entries[i].raw_balance);
        }
        i = i + 1;
    }
    proof {
        assert(record.entries@.skip(n as int).len() == 0);
    }
    None
}

} // verus!
