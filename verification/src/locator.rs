//! The record locator: builds the server-side filter predicates that narrow
//! a bulk account scan to the records this computation needs. Pure
//! construction, no I/O; the caller hands the filters to whatever performs
//! the scan.

use vstd::prelude::*;

use crate::bytes_le::copy_range;
use crate::decode::{position_discriminator, scaling_discriminator};

verus! {

/// One server-side predicate: the scanned account's bytes at `offset` must
/// equal `needle` for the account to be returned.
pub struct MemcmpFilter {
    /// Byte offset into the account data where the comparison starts.
    pub offset: usize,
    /// The bytes the account data must carry there.
    pub needle: Vec<u8>,
}

/// Filters selecting the position records of one wallet: the position
/// discriminator at offset 0, the tenant group at offset 8, and the owner at
/// offset 40.
pub fn locate_position_records(group: &Vec<u8>, owner: &Vec<u8>) -> (r: Vec<MemcmpFilter>)
    requires
        group@.len() == 32,
        owner@.len() == 32,
    ensures
        r@.len() == 3,
        r@[0].offset == 0 && r@[0].needle@ == position_discriminator(),
        r@[1].offset == 8 && r@[1].needle@ == group@,
        r@[2].offset == 40 && r@[2].needle@ == owner@,
{
    let mut discriminator: Vec<u8> = Vec::new();
    discriminator.push(243);
    discriminator.push(228);
    discriminator.push(247);
    discriminator.push(3);
    discriminator.push(169);
    discriminator.push(52);
    discriminator.push(175);
    discriminator.push(31);
    proof {
        assert(discriminator@ =~= position_discriminator());
        assert(group@.subrange(0, 32) =~= group@);
        assert(owner@.subrange(0, 32) =~= owner@);
    }
    let mut filters: Vec<MemcmpFilter> = Vec::new();
    filters.push(MemcmpFilter { offset: 0, needle: discriminator });
    filters.push(MemcmpFilter { offset: 8, needle: copy_range(group, 0, 32) });
    filters.push(MemcmpFilter { offset: 40, needle: copy_range(owner, 0, 32) });
    filters
}

/// Filters selecting every scaling record of one tenant group: the scaling
/// discriminator at offset 0 and the tenant group at offset 8.
pub fn locate_scaling_records(group: &Vec<u8>) -> (r: Vec<MemcmpFilter>)
    requires
        group@.len() == 32,
    ensures
        r@.len() == 2,
        r@[0].offset == 0 && r@[0].needle@ == scaling_discriminator(),
        r@[1].offset == 8 && r@[1].needle@ == group@,
{
    let mut discriminator: Vec<u8> = Vec::new();
    discriminator.push(142);
    discriminator.push(49);
    discriminator.push(166);
    discriminator.push(242);
    discriminator.push(50);
    discriminator.push(66);
    discriminator.push(97);
    discriminator.push(188);
    proof {
        assert(discriminator@ =~= scaling_discriminator());
        assert(group@.subrange(0, 32) =~= group@);
    }
    let mut filters: Vec<MemcmpFilter> = Vec::new();
    filters.push(MemcmpFilter { offset: 0, needle: discriminator });
    filters.push(MemcmpFilter { offset: 8, needle: copy_range(group, 0, 32) });
    filters
}

} // verus!
