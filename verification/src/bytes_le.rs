//! Little-endian interpretation of byte ranges, the ground layer of the
//! binary decoder: unsigned values read least-significant byte first, and
//! signed values given the two's-complement reading of the unsigned one.

use vstd::prelude::*;

verus! {

/// The unsigned value of a little-endian byte string: byte 0 is the least
/// significant.
pub open spec fn le_value(b: Seq<u8>) -> int
    decreases b.len(),
{
    if b.len() == 0 {
        0
    } else {
        b[0] + 256 * le_value(b.drop_first())
    }
}

/// `256^n`, the number of values `n` bytes can hold.
pub open spec fn pow256(n: nat) -> int
    decreases n,
{
    if n == 0 {
        1
    } else {
        256 * pow256((n - 1) as nat)
    }
}

/// The two's-complement reading of an unsigned 64-bit value.
pub open spec fn as_signed_64(v: int) -> int {
    if v < 0x8000_0000_0000_0000 {
        v
    } else {
        v - 0x1_0000_0000_0000_0000
    }
}

/// The two's-complement reading of an unsigned 128-bit value.
pub open spec fn as_signed_128(v: int) -> int {
    if v < 0x8000_0000_0000_0000_0000_0000_0000_0000 {
        v
    } else {
        v - 0x1_0000_0000_0000_0000_0000_0000_0000_0000
    }
}

/// A little-endian value is non-negative and bounded by `256^len`.
pub proof fn lemma_le_value_bounds(b: Seq<u8>)
    ensures
        0 <= le_value(b) < pow256(b.len()),
    decreases b.len(),
{
    if b.len() > 0 {
        lemma_le_value_bounds(b.drop_first());
    }
}

/// `pow256` grows with its argument.
pub proof fn lemma_pow256_mono(a: nat, b: nat)
    requires
        a <= b,
    ensures
        pow256(a) <= pow256(b),
    decreases b,
{
    if a < b {
        lemma_pow256_mono(a, (b - 1) as nat);
        lemma_pow256_pos(a);
        assert(pow256(b) == 256 * pow256((b - 1) as nat));
    }
}

/// `pow256` is positive.
pub proof fn lemma_pow256_pos(n: nat)
    ensures
        pow256(n) >= 1,
    decreases n,
{
    if n > 0 {
        lemma_pow256_pos((n - 1) as nat);
    }
}

/// The concrete powers the decoder needs.
pub proof fn lemma_pow256_values()
    ensures
        pow256(2) == 0x1_0000,
        pow256(4) == 0x1_0000_0000,
        pow256(8) == 0x1_0000_0000_0000_0000,
        pow256(15) == 0x1_0000_0000_0000_0000_0000_0000_0000_00,
        pow256(16) == 0x1_0000_0000_0000_0000_0000_0000_0000_0000,
{
    reveal_with_fuel(pow256, 17);
}

/// Reads the unsigned little-endian value of `raw[start .. start + len]`.
pub fn read_le_unsigned(raw: &Vec<u8>, start: usize, len: usize) -> (r: u128)
    requires
        len <= 16,
        start + len <= raw@.len(),
    ensures
        r == le_value(raw@.subrange(start as int, start + len)),
{
    // materializes the length as a usize, bounding every offset below
    let total = raw.len();
    proof {
        assert(start + len <= total);
    }
    let mut acc: u128 = 0;
    let mut j: usize = len;
    while j > 0
        invariant
            j <= len,
            len <= 16,
            start + len <= raw@.len(),
            start + len <= usize::MAX,
            acc == le_value(raw@.subrange(start + j, start + len)),
        decreases j,
    {
        proof {
            let tail = raw@.subrange(start + j, start + len);
            lemma_le_value_bounds(tail);
            lemma_pow256_mono(tail.len(), 15);
            lemma_pow256_values();
            assert(acc < pow256(15));
        }
        j = j - 1;
        let b = raw[start + j];
        acc = acc * 256 + (b as u128);
        proof {
            let whole = raw@.subrange(start + j, start + len);
            assert(whole.drop_first() =~= raw@.subrange(start + j + 1, start + len));
            assert(whole[0] == raw@[start + j]);
        }
    }
    proof {
        assert(raw@.subrange(start + 0, start + len) =~= raw@.subrange(
            start as int,
            start + len,
        ));
    }
    acc
}

/// Reads a little-endian `u16` at `start`.
pub fn read_le_u16(raw: &Vec<u8>, start: usize) -> (r: u16)
    requires
        start + 2 <= raw@.len(),
    ensures
        r == le_value(raw@.subrange(start as int, start + 2)),
{
    let v = read_le_unsigned(raw, start, 2);
    proof {
        lemma_le_value_bounds(raw@.subrange(start as int, start + 2));
        lemma_pow256_values();
    }
    v as u16
}

/// Reads a little-endian `u32` at `start`.
pub fn read_le_u32(raw: &Vec<u8>, start: usize) -> (r: u32)
    requires
        start + 4 <= raw@.len(),
    ensures
        r == le_value(raw@.subrange(start as int, start + 4)),
{
    let v = read_le_unsigned(raw, start, 4);
    proof {
        lemma_le_value_bounds(raw@.subrange(start as int, start + 4));
        lemma_pow256_values();
    }
    v as u32
}

/// Reinterprets an unsigned 64-bit value as its two's-complement reading.
pub fn to_signed_64(v: u64) -> (r: i64)
    ensures
        r == as_signed_64(v as int),
{
    if v < 0x8000_0000_0000_0000 {
        v as i64
    } else {
        -((u64::MAX - v) as i64) - 1
    }
}

/// Reinterprets an unsigned 128-bit value as its two's-complement reading.
pub fn to_signed_128(v: u128) -> (r: i128)
    ensures
        r == as_signed_128(v as int),
{
    if v < 0x8000_0000_0000_0000_0000_0000_0000_0000 {
        v as i128
    } else {
        -((u128::MAX - v) as i128) - 1
    }
}

/// Reads a little-endian two's-complement `i64` at `start`.
pub fn read_le_i64(raw: &Vec<u8>, start: usize) -> (r: i64)
    requires
        start + 8 <= raw@.len(),
    ensures
        r == as_signed_64(le_value(raw@.subrange(start as int, start + 8))),
{
    let v = read_le_unsigned(raw, start, 8);
    proof {
        lemma_le_value_bounds(raw@.subrange(start as int, start + 8));
        lemma_pow256_values();
    }
    to_signed_64(v as u64)
}

/// Reads a little-endian two's-complement `i128` at `start`.
pub fn read_le_i128(raw: &Vec<u8>, start: usize) -> (r: i128)
    requires
        start + 16 <= raw@.len(),
    ensures
        r == as_signed_128(le_value(raw@.subrange(start as int, start + 16))),
{
    let v = read_le_unsigned(raw, start, 16);
    proof {
        lemma_le_value_bounds(raw@.subrange(start as int, start + 16));
        lemma_pow256_values();
    }
    to_signed_128(v)
}

/// Copies `src[start .. start + len]` into an owned vector.
pub fn copy_range(src: &Vec<u8>, start: usize, len: usize) -> (r: Vec<u8>)
    requires
        start + len <= src@.len(),
    ensures
        r@ == src@.subrange(start as int, start + len),
{
    // materializes the length as a usize, bounding every offset below
    let total = src.len();
    proof {
        assert(start + len <= total);
    }
    let mut out: Vec<u8> = Vec::new();
    let mut i: usize = 0;
    while i < len
        invariant
            i <= len,
            start + len <= src@.len(),
            start + len <= usize::MAX,
            out@ =~= src@.subrange(start as int, start + i),
        decreases len - i,
    {
        out.push(src[start + i]);
        i = i + 1;
    }
    proof {
        assert(out@ =~= src@.subrange(start as int, start + len));
    }
    out
}

} // verus!
