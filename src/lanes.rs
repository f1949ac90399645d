//! Vector registers as arrays of 32-bit lanes, and the handful of lane
//! operations that the vector backends are built from. A 128-bit register is
//! four lanes, a 256-bit register eight; the 256-bit byte operations work on
//! each 128-bit half on its own, as the instructions they stand for do.
use vstd::prelude::*;
use crate::checksum::{
    byte_sum, desc_weighted, weighted_sum, lemma_sums_concat, lemma_desc_weighted_concat,
    lemma_weighted_sum_is_desc,
};

verus! {

/// The length of the longest prefix made of whole 32-byte windows.
pub open spec fn whole_windows(len: nat) -> nat {
    (len - len % 32) as nat
}

/// Sum of the four lanes.
pub open spec fn total4(v: [u32; 4]) -> int {
    v[0] as int + v[1] as int + v[2] as int + v[3] as int
}

/// Sum of the eight lanes.
pub open spec fn total8(v: [u32; 8]) -> int {
    v[0] as int + v[1] as int + v[2] as int + v[3] as int + v[4] as int + v[5] as int
        + v[6] as int + v[7] as int
}

/// `x` split at `k`: the sums of the parts add up, and the descending
/// weights of the second part start `k` lower.
pub proof fn lemma_split_at(x: Seq<u8>, k: int, top: int)
    requires
        0 <= k <= x.len(),
    ensures
        byte_sum(x) == byte_sum(x.take(k)) + byte_sum(x.skip(k)),
        desc_weighted(x, top) == desc_weighted(x.take(k), top) + desc_weighted(x.skip(k), top - k),
{
    assert(x.take(k) + x.skip(k) =~= x);
    lemma_sums_concat(x.take(k), x.skip(k));
    lemma_desc_weighted_concat(x.take(k), x.skip(k), top);
}

/// A 32-byte window in two halves: its weighted sum gives the left half the
/// weights 32 down to 17 and the right half 16 down to 1.
pub proof fn lemma_window_halves(w: Seq<u8>)
    requires
        w.len() == 32,
    ensures
        byte_sum(w) == byte_sum(w.subrange(0, 16)) + byte_sum(w.subrange(16, 32)),
        weighted_sum(w) == desc_weighted(w.subrange(0, 16), 32) + desc_weighted(w.subrange(16, 32), 16),
{
    lemma_split_at(w, 16, 32);
    assert(w.take(16) =~= w.subrange(0, 16));
    assert(w.skip(16) =~= w.subrange(16, 32));
    lemma_weighted_sum_is_desc(w);
}

/// Taking the window after the first `j` whole windows of `s`.
pub proof fn lemma_next_window(s: Seq<u8>, j: int)
    requires
        0 <= j,
        32 * j + 32 <= s.len(),
    ensures
        byte_sum(s.take(32 * j + 32)) == byte_sum(s.take(32 * j)) + byte_sum(s.subrange(32 * j, 32 * j + 32)),
        weighted_sum(s.take(32 * j + 32)) == weighted_sum(s.take(32 * j)) + 32 * byte_sum(s.take(32 * j))
            + weighted_sum(s.subrange(32 * j, 32 * j + 32)),
{
    let x = s.take(32 * j);
    let w = s.subrange(32 * j, 32 * j + 32);
    assert(x + w =~= s.take(32 * j + 32));
    lemma_sums_concat(x, w);
}

/// Sum of up to sixteen bytes.
fn sum_bytes(bytes: &[u8]) -> (r: u32)
    requires
        bytes@.len() <= 16,
    ensures
        r == byte_sum(bytes@),
{
    let mut r: u32 = 0;
    let mut i: usize = 0;
    while i < bytes.len()
        invariant
            i <= bytes@.len() <= 16,
            r == byte_sum(bytes@.take(i as int)),
            r <= 255 * i,
        decreases bytes.len() - i,
    {
        proof {
            assert(bytes@.take(i + 1).drop_last() =~= bytes@.take(i as int));
        }
        r = r + bytes[i] as u32;
        i = i + 1;
    }
    proof {
        assert(bytes@.take(i as int) =~= bytes@);
    }
    r
}

/// Dot product of up to `top` bytes with the weights `top, top - 1, ...`.
fn weigh_bytes(bytes: &[u8], top: u32) -> (r: u32)
    requires
        bytes@.len() <= top <= 32,
    ensures
        r == desc_weighted(bytes@, top as int),
{
    let mut r: u32 = 0;
    let mut i: usize = 0;
    while i < bytes.len()
        invariant
            i <= bytes@.len() <= top <= 32,
            r == desc_weighted(bytes@.take(i as int), top as int),
            r <= 8160 * i,
        decreases bytes.len() - i,
    {
        proof {
            assert(bytes@.take(i + 1).drop_last() =~= bytes@.take(i as int));
        }
        let w: u32 = top - i as u32;
        let d: u32 = bytes[i] as u32;
        assert(w * d <= 255 * 32) by (nonlinear_arith)
            requires
                w <= 32,
                d <= 255,
        ;
        let p: u32 = w * d;
        assert(p <= 8160);
        assert(r <= 8160 * i);
        assert(r + p <= 8160 * (i + 1));
        r = r + p;
        i = i + 1;
    }
    proof {
        assert(bytes@.take(i as int) =~= bytes@);
    }
    r
}

/// Sum of absolute differences against zero over sixteen bytes: each
/// eight-byte half summed into the low lane of its 64-bit half.
pub fn sad_epu8_128(x: &[u8]) -> (r: [u32; 4])
    requires
        x@.len() == 16,
    ensures
        r[0] == byte_sum(x@.subrange(0, 8)),
        r[1] == 0,
        r[2] == byte_sum(x@.subrange(8, 16)),
        r[3] == 0,
        total4(r) == byte_sum(x@),
{
    let lo = sum_bytes(&x[0..8]);
    let hi = sum_bytes(&x[8..16]);
    proof {
        lemma_split_at(x@, 8, 0);
        assert(x@.take(8) =~= x@.subrange(0, 8));
        assert(x@.skip(8) =~= x@.subrange(8, 16));
    }
    [lo, 0, hi, 0]
}

/// Byte-times-weight products of sixteen bytes with the weights
/// `top, top - 1, ..., top - 15`, added four at a time into the four lanes.
pub fn madd_weights_128(x: &[u8], top: u32) -> (r: [u32; 4])
    requires
        x@.len() == 16,
        16 <= top <= 32,
    ensures
        r[0] == desc_weighted(x@.subrange(0, 4), top as int),
        r[1] == desc_weighted(x@.subrange(4, 8), top - 4),
        r[2] == desc_weighted(x@.subrange(8, 12), top - 8),
        r[3] == desc_weighted(x@.subrange(12, 16), top - 12),
        total4(r) == desc_weighted(x@, top as int),
{
    let l0 = weigh_bytes(&x[0..4], top);
    let l1 = weigh_bytes(&x[4..8], top - 4);
    let l2 = weigh_bytes(&x[8..12], top - 8);
    let l3 = weigh_bytes(&x[12..16], top - 12);
    proof {
        let s = x@;
        let t = top as int;
        lemma_split_at(s, 4, t);
        lemma_split_at(s.skip(4), 4, t - 4);
        lemma_split_at(s.skip(4).skip(4), 4, t - 8);
        assert(s.take(4) =~= s.subrange(0, 4));
        assert(s.skip(4).take(4) =~= s.subrange(4, 8));
        assert(s.skip(4).skip(4).take(4) =~= s.subrange(8, 12));
        assert(s.skip(4).skip(4).skip(4) =~= s.subrange(12, 16));
    }
    [l0, l1, l2, l3]
}

/// One lane of a vector addition, which wraps.
fn lane_add(x: u32, y: u32) -> (r: u32)
    ensures
        x + y <= u32::MAX ==> r == x + y,
{
    x.wrapping_add(y)
}

/// One lane of a left shift by five bits, which drops what is shifted out.
fn lane_shl5(x: u32) -> (r: u32)
    ensures
        32 * x <= u32::MAX ==> r == 32 * x,
{
    x.wrapping_mul(32)
}

/// Lane-wise addition, wrapping in each lane.
pub fn add_128(x: [u32; 4], y: [u32; 4]) -> (r: [u32; 4])
    ensures
        x[0] + y[0] <= u32::MAX ==> r[0] == x[0] + y[0],
        x[1] + y[1] <= u32::MAX ==> r[1] == x[1] + y[1],
        x[2] + y[2] <= u32::MAX ==> r[2] == x[2] + y[2],
        x[3] + y[3] <= u32::MAX ==> r[3] == x[3] + y[3],
        total4(x) + total4(y) <= u32::MAX ==> total4(r) == total4(x) + total4(y),
{
    [lane_add(x[0], y[0]), lane_add(x[1], y[1]), lane_add(x[2], y[2]), lane_add(x[3], y[3])]
}

/// Lane-wise shift left by five bits, that is times 32 in each lane.
pub fn shl5_128(x: [u32; 4]) -> (r: [u32; 4])
    ensures
        32 * x[0] <= u32::MAX ==> r[0] == 32 * x[0],
        32 * x[1] <= u32::MAX ==> r[1] == 32 * x[1],
        32 * x[2] <= u32::MAX ==> r[2] == 32 * x[2],
        32 * x[3] <= u32::MAX ==> r[3] == 32 * x[3],
        32 * total4(x) <= u32::MAX ==> total4(r) == 32 * total4(x),
{
    [lane_shl5(x[0]), lane_shl5(x[1]), lane_shl5(x[2]), lane_shl5(x[3])]
}

/// Swaps neighbouring lanes: the shuffle with selector `0b10_11_00_01`.
pub fn swap_pairs_128(x: [u32; 4]) -> (r: [u32; 4])
    ensures
        r[0] == x[1],
        r[1] == x[0],
        r[2] == x[3],
        r[3] == x[2],
{
    [x[1], x[0], x[3], x[2]]
}

/// Swaps the two 64-bit halves: the shuffle with selector `0b01_00_11_10`.
pub fn swap_halves_128(x: [u32; 4]) -> (r: [u32; 4])
    ensures
        r[0] == x[2],
        r[1] == x[3],
        r[2] == x[0],
        r[3] == x[1],
{
    [x[2], x[3], x[0], x[1]]
}

/// The high 64-bit half in both halves.
pub fn unpack_hi_128(x: [u32; 4]) -> (r: [u32; 4])
    ensures
        r[0] == x[2],
        r[1] == x[3],
        r[2] == x[2],
        r[3] == x[3],
{
    [x[2], x[3], x[2], x[3]]
}

/// Horizontal sum of the four lanes, by two rounds of shuffle and add.
pub fn hsum_128(v: [u32; 4]) -> (r: u32)
    requires
        total4(v) <= u32::MAX,
    ensures
        r == total4(v),
{
    let s = add_128(v, swap_pairs_128(v));
    let s = add_128(s, swap_halves_128(s));
    s[0]
}

/// Byte sums of a 32-byte block, per 128-bit half.
pub fn sad_epu8_256(x: &[u8]) -> (r: [u32; 8])
    requires
        x@.len() == 32,
    ensures
        r[0] == byte_sum(x@.subrange(0, 8)),
        r[1] == 0,
        r[2] == byte_sum(x@.subrange(8, 16)),
        r[3] == 0,
        r[4] == byte_sum(x@.subrange(16, 24)),
        r[5] == 0,
        r[6] == byte_sum(x@.subrange(24, 32)),
        r[7] == 0,
        total8(r) == byte_sum(x@),
{
    let lo = sad_epu8_128(&x[0..16]);
    let hi = sad_epu8_128(&x[16..32]);
    proof {
        assert(x@.subrange(0, 16).subrange(0, 8) =~= x@.subrange(0, 8));
        assert(x@.subrange(0, 16).subrange(8, 16) =~= x@.subrange(8, 16));
        assert(x@.subrange(16, 32).subrange(0, 8) =~= x@.subrange(16, 24));
        assert(x@.subrange(16, 32).subrange(8, 16) =~= x@.subrange(24, 32));
        lemma_split_at(x@, 16, 0);
        assert(x@.take(16) =~= x@.subrange(0, 16));
        assert(x@.skip(16) =~= x@.subrange(16, 32));
    }
    [lo[0], lo[1], lo[2], lo[3], hi[0], hi[1], hi[2], hi[3]]
}

/// Weighted byte products of a 32-byte block with the weights 32 down to 1,
/// added four at a time into the eight lanes.
pub fn madd_weights_256(x: &[u8]) -> (r: [u32; 8])
    requires
        x@.len() == 32,
    ensures
        r[0] == desc_weighted(x@.subrange(0, 4), 32),
        r[1] == desc_weighted(x@.subrange(4, 8), 28),
        r[2] == desc_weighted(x@.subrange(8, 12), 24),
        r[3] == desc_weighted(x@.subrange(12, 16), 20),
        r[4] == desc_weighted(x@.subrange(16, 20), 16),
        r[5] == desc_weighted(x@.subrange(20, 24), 12),
        r[6] == desc_weighted(x@.subrange(24, 28), 8),
        r[7] == desc_weighted(x@.subrange(28, 32), 4),
        total8(r) == weighted_sum(x@),
{
    let lo = madd_weights_128(&x[0..16], 32);
    let hi = madd_weights_128(&x[16..32], 16);
    proof {
        assert(x@.subrange(0, 16).subrange(0, 4) =~= x@.subrange(0, 4));
        assert(x@.subrange(0, 16).subrange(4, 8) =~= x@.subrange(4, 8));
        assert(x@.subrange(0, 16).subrange(8, 12) =~= x@.subrange(8, 12));
        assert(x@.subrange(0, 16).subrange(12, 16) =~= x@.subrange(12, 16));
        assert(x@.subrange(16, 32).subrange(0, 4) =~= x@.subrange(16, 20));
        assert(x@.subrange(16, 32).subrange(4, 8) =~= x@.subrange(20, 24));
        assert(x@.subrange(16, 32).subrange(8, 12) =~= x@.subrange(24, 28));
        assert(x@.subrange(16, 32).subrange(12, 16) =~= x@.subrange(28, 32));
        lemma_window_halves(x@);
    }
    [lo[0], lo[1], lo[2], lo[3], hi[0], hi[1], hi[2], hi[3]]
}

/// Lane-wise addition of 256-bit registers, wrapping in each lane.
pub fn add_256(x: [u32; 8], y: [u32; 8]) -> (r: [u32; 8])
    ensures
        x[0] + y[0] <= u32::MAX ==> r[0] == x[0] + y[0],
        x[1] + y[1] <= u32::MAX ==> r[1] == x[1] + y[1],
        x[2] + y[2] <= u32::MAX ==> r[2] == x[2] + y[2],
        x[3] + y[3] <= u32::MAX ==> r[3] == x[3] + y[3],
        x[4] + y[4] <= u32::MAX ==> r[4] == x[4] + y[4],
        x[5] + y[5] <= u32::MAX ==> r[5] == x[5] + y[5],
        x[6] + y[6] <= u32::MAX ==> r[6] == x[6] + y[6],
        x[7] + y[7] <= u32::MAX ==> r[7] == x[7] + y[7],
        total8(x) + total8(y) <= u32::MAX ==> total8(r) == total8(x) + total8(y),
{
    [
        lane_add(x[0], y[0]),
        lane_add(x[1], y[1]),
        lane_add(x[2], y[2]),
        lane_add(x[3], y[3]),
        lane_add(x[4], y[4]),
        lane_add(x[5], y[5]),
        lane_add(x[6], y[6]),
        lane_add(x[7], y[7]),
    ]
}

/// Lane-wise shift left by five bits of a 256-bit register.
pub fn shl5_256(x: [u32; 8]) -> (r: [u32; 8])
    ensures
        32 * x[0] <= u32::MAX ==> r[0] == 32 * x[0],
        32 * x[1] <= u32::MAX ==> r[1] == 32 * x[1],
        32 * x[2] <= u32::MAX ==> r[2] == 32 * x[2],
        32 * x[3] <= u32::MAX ==> r[3] == 32 * x[3],
        32 * x[4] <= u32::MAX ==> r[4] == 32 * x[4],
        32 * x[5] <= u32::MAX ==> r[5] == 32 * x[5],
        32 * x[6] <= u32::MAX ==> r[6] == 32 * x[6],
        32 * x[7] <= u32::MAX ==> r[7] == 32 * x[7],
        32 * total8(x) <= u32::MAX ==> total8(r) == 32 * total8(x),
{
    [
        lane_shl5(x[0]),
        lane_shl5(x[1]),
        lane_shl5(x[2]),
        lane_shl5(x[3]),
        lane_shl5(x[4]),
        lane_shl5(x[5]),
        lane_shl5(x[6]),
        lane_shl5(x[7]),
    ]
}

/// Horizontal sum of the eight lanes: the two 128-bit halves added, then the
/// high 64 bits onto the low, then neighbouring lanes.
pub fn hsum_256(v: [u32; 8]) -> (r: u32)
    requires
        total8(v) <= u32::MAX,
    ensures
        r == total8(v),
{
    let low = [v[0], v[1], v[2], v[3]];
    let high = [v[4], v[5], v[6], v[7]];
    let sum = add_128(low, high);
    let hi = unpack_hi_128(sum);
    let sum = add_128(hi, sum);
    let hi = swap_pairs_128(sum);
    let sum = add_128(sum, hi);
    sum[0]
}

} // verus!
