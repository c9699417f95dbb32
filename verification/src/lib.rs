//! Computes a wallet's aggregate exposure to one collateral asset across all
//! of its on-chain margin accounts.
//!
//! The crate covers the computational core of that pipeline: building the
//! server-side filters that narrow a bulk account scan (`locator`), decoding
//! fixed-layout binary account records tagged with an 8-byte discriminator
//! (`decode`), and reducing the decoded balances into one non-negative
//! fixed-point exposure figure (`exposure`). Fetching raw account bytes from a
//! ledger node is left to the caller, who hands the returned blobs in as plain
//! byte vectors.

use vstd::prelude::*;

pub mod bytes_le;
pub mod decode;
pub mod exposure;
pub mod locator;
pub mod records;

verus! {

/// How an exposure computation can fail. Transport failures happen outside
/// this crate, in whatever performs the account fetch, and are surfaced by the
/// caller directly.
#[derive(Clone, Copy, PartialEq, Eq, Structural, Debug)]
pub enum ExposureError {
    /// A fetched blob's discriminator or length does not match the expected
    /// record type: a filter error or a layout drift, never skipped silently.
    MalformedRecord,
    /// No scaling record exists for the requested asset index within the
    /// tenant group; aggregation is meaningless without one.
    AssetNotConfigured,
    /// More than one scaling record matches the requested asset index: a
    /// configuration-integrity violation, never resolved by picking one.
    AmbiguousScalingRecord,
}

/// A signed fixed-point quantity with 48 fractional bits: the number it
/// stands for is `bits / 2^48`.
#[derive(Clone, Copy, PartialEq, Eq, Structural, Debug)]
pub struct Units {
    pub bits: i128,
}

/// The fixed-point encoding of one: `2^48`.
pub const UNITS_ONE: i128 = 281474976710656;

} // verus!
