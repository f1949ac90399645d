//! The mathematical model of Adler-32 that every backend is proved against.
//!
//! Folding a byte `d` into the running sums is `a += d; b += a`. Over a whole
//! sequence `s` of length `n`, starting from `(a, b)`, this gives
//! `a + sum(s)` and `b + n * a + sum((n - i) * s[i])`; the checksum keeps both
//! modulo `BASE`.
use vstd::prelude::*;
use vstd::arithmetic::div_mod::{lemma_add_mod_noop, lemma_add_mod_noop_right, lemma_mul_mod_noop_right};

verus! {

/// The Adler-32 modulus: the largest prime below 2^16.
pub const BASE: u32 = 65521;

/// Sum of the bytes of `s`.
pub open spec fn byte_sum(s: Seq<u8>) -> nat
    decreases s.len(),
{
    if s.len() == 0 {
        0
    } else {
        byte_sum(s.drop_last()) + s.last() as nat
    }
}

/// Sum of the prefix sums of `s`, that is `sum((len - i) * s[i])`: what the
/// second running sum gains from `s` when the first starts at zero.
pub open spec fn weighted_sum(s: Seq<u8>) -> nat
    decreases s.len(),
{
    if s.len() == 0 {
        0
    } else {
        weighted_sum(s.drop_last()) + byte_sum(s)
    }
}

/// `sum((top - i) * s[i])`: a dot product with descending weights that start at `top`.
pub open spec fn desc_weighted(s: Seq<u8>, top: int) -> int
    decreases s.len(),
{
    if s.len() == 0 {
        0
    } else {
        desc_weighted(s.drop_last(), top) + (top - (s.len() - 1)) * (s.last() as int)
    }
}

/// The first running sum after folding `s` into `a`, before any reduction.
pub open spec fn raw_a(a: nat, s: Seq<u8>) -> nat {
    a + byte_sum(s)
}

/// The second running sum after folding `s` into `(a, b)`, before any reduction.
pub open spec fn raw_b(a: nat, b: nat, s: Seq<u8>) -> nat {
    b + s.len() * a + weighted_sum(s)
}

/// The running sums after one update with `s`: an empty input leaves them as
/// they are, any other input leaves them reduced modulo `BASE`.
pub open spec fn update_spec(st: (nat, nat), s: Seq<u8>) -> (nat, nat) {
    if s.len() == 0 {
        st
    } else {
        ((raw_a(st.0, s) % (BASE as nat)) as nat, (raw_b(st.0, st.1, s) % (BASE as nat)) as nat)
    }
}

/// The running sums after one update per piece, in order.
pub open spec fn update_pieces(st: (nat, nat), pieces: Seq<Seq<u8>>) -> (nat, nat)
    decreases pieces.len(),
{
    if pieces.len() == 0 {
        st
    } else {
        update_spec(update_pieces(st, pieces.drop_last()), pieces.last())
    }
}

/// The running sums that a checksum value stands for: low half and high half.
pub open spec fn seed_sums(seed: u32) -> (nat, nat) {
    ((seed as nat % 65536) as nat, (seed as nat / 65536) as nat)
}

/// The checksum value of running sums below 2^16.
pub open spec fn packed(st: (nat, nat)) -> nat {
    st.0 + st.1 * 65536
}

/// Both running sums fit in 16 bits.
pub open spec fn sums_in_range(st: (nat, nat)) -> bool {
    st.0 < 65536 && st.1 < 65536
}

/// Splits a checksum value into its running sums.
pub fn split_seed(seed: u32) -> (r: (u32, u32))
    ensures
        r.0 as nat == seed_sums(seed).0,
        r.1 as nat == seed_sums(seed).1,
{
    assert(seed & 0xffff == seed % 65536) by (bit_vector);
    assert(seed >> 16 == seed / 65536) by (bit_vector);
    (seed & 0xffff, seed >> 16)
}

/// Joins running sums below 2^16 into a checksum value.
pub fn pack(a: u32, b: u32) -> (r: u32)
    requires
        a < 65536,
        b < 65536,
    ensures
        r as nat == packed((a as nat, b as nat)),
{
    assert(a | (b << 16) == a + b * 65536) by (bit_vector)
        requires
            a < 65536,
            b < 65536,
    ;
    a | (b << 16)
}

/// A checksum value is the packing of the running sums it splits into.
pub proof fn lemma_seed_round_trip(seed: u32)
    ensures
        packed(seed_sums(seed)) == seed,
        sums_in_range(seed_sums(seed)),
{
}

/// Sums over a concatenation split into sums over the parts.
pub proof fn lemma_sums_concat(x: Seq<u8>, y: Seq<u8>)
    ensures
        byte_sum(x + y) == byte_sum(x) + byte_sum(y),
        weighted_sum(x + y) == weighted_sum(x) + y.len() * byte_sum(x) + weighted_sum(y),
    decreases y.len(),
{
    if y.len() == 0 {
        assert(x + y =~= x);
    } else {
        let y1 = y.drop_last();
        assert((x + y).drop_last() =~= x + y1);
        lemma_sums_concat(x, y1);
        let n = y.len() as int;
        let bx = byte_sum(x) as int;
        assert((n - 1) * bx + bx == n * bx) by (nonlinear_arith);
    }
}

/// Descending weights over a concatenation: the second part starts where the first ends.
pub proof fn lemma_desc_weighted_concat(x: Seq<u8>, y: Seq<u8>, top: int)
    ensures
        desc_weighted(x + y, top) == desc_weighted(x, top) + desc_weighted(y, top - x.len()),
    decreases y.len(),
{
    if y.len() == 0 {
        assert(x + y =~= x);
    } else {
        let y1 = y.drop_last();
        assert((x + y).drop_last() =~= x + y1);
        lemma_desc_weighted_concat(x, y1, top);
    }
}

/// Raising every weight by one adds the plain sum.
proof fn lemma_desc_weighted_shift(s: Seq<u8>, top: int)
    ensures
        desc_weighted(s, top + 1) == desc_weighted(s, top) + byte_sum(s),
    decreases s.len(),
{
    if s.len() > 0 {
        lemma_desc_weighted_shift(s.drop_last(), top);
        let k = s.len() - 1;
        let d = s.last() as int;
        assert((top + 1 - k) * d == (top - k) * d + d) by (nonlinear_arith);
    }
}

/// The weighted sum gives byte `i` the weight `len - i`.
pub proof fn lemma_weighted_sum_is_desc(s: Seq<u8>)
    ensures
        weighted_sum(s) == desc_weighted(s, s.len() as int),
    decreases s.len(),
{
    if s.len() > 0 {
        let s1 = s.drop_last();
        lemma_weighted_sum_is_desc(s1);
        lemma_desc_weighted_shift(s1, s1.len() as int);
        let n = s.len() as int;
        let d = s.last() as int;
        assert((n - (n - 1)) * d == d) by (nonlinear_arith);
    }
}

/// Bounds of the sums of `s` by its length.
pub proof fn lemma_sums_bounded(s: Seq<u8>)
    ensures
        byte_sum(s) <= 255 * s.len(),
        2 * weighted_sum(s) <= 255 * s.len() * (s.len() + 1),
    decreases s.len(),
{
    if s.len() > 0 {
        let s1 = s.drop_last();
        lemma_sums_bounded(s1);
        let n = s.len() as int;
        let m = s1.len() as int;
        let w1 = weighted_sum(s1) as int;
        let bs = byte_sum(s) as int;
        assert(2 * (w1 + bs) <= 255 * n * (n + 1)) by (nonlinear_arith)
            requires
                m == n - 1,
                2 * w1 <= 255 * m * (m + 1),
                bs <= 255 * n,
        ;
    }
}

/// Folding `x` and then `y` is folding `x + y`, before any reduction.
pub proof fn lemma_raw_concat(a: nat, b: nat, x: Seq<u8>, y: Seq<u8>)
    ensures
        raw_a(raw_a(a, x), y) == raw_a(a, x + y),
        raw_b(raw_a(a, x), raw_b(a, b, x), y) == raw_b(a, b, x + y),
{
    lemma_sums_concat(x, y);
    let nx = x.len() as int;
    let ny = y.len() as int;
    let bx = byte_sum(x) as int;
    assert(ny * (a + bx) == ny * a + ny * bx) by (nonlinear_arith);
    assert((nx + ny) * a == nx * a + ny * a) by (nonlinear_arith);
}

/// Folding one more byte: `a` gains the byte, then `b` gains the new `a`.
pub proof fn lemma_raw_step(a: nat, b: nat, s: Seq<u8>)
    requires
        s.len() > 0,
    ensures
        raw_a(a, s) == raw_a(a, s.drop_last()) + s.last(),
        raw_b(a, b, s) == raw_b(a, b, s.drop_last()) + raw_a(a, s),
{
    let n = s.len() as int;
    assert(n * a == (n - 1) * a + a) by (nonlinear_arith);
}

/// The unreduced sums over a prefix are at most those over the whole.
pub proof fn lemma_raw_prefix_le(a: nat, b: nat, s: Seq<u8>, i: int)
    requires
        0 <= i <= s.len(),
    ensures
        raw_a(a, s.take(i)) <= raw_a(a, s),
        raw_b(a, b, s.take(i)) <= raw_b(a, b, s),
{
    lemma_raw_concat(a, b, s.take(i), s.skip(i));
    assert(s.take(i) + s.skip(i) =~= s);
}

/// The sums over a prefix are at most those over the whole.
pub proof fn lemma_sums_prefix_le(s: Seq<u8>, i: int)
    requires
        0 <= i <= s.len(),
    ensures
        byte_sum(s.take(i)) <= byte_sum(s),
        weighted_sum(s.take(i)) <= weighted_sum(s),
{
    lemma_sums_concat(s.take(i), s.skip(i));
    assert(s.take(i) + s.skip(i) =~= s);
}

/// A block of at most `max_len` bytes folded into sums below 2^16 stays
/// within 32 bits before its reduction, as long as
/// `65535 * (max_len + 1) + 255 * max_len * (max_len + 1) / 2` does.
pub proof fn lemma_block_fits(a: nat, b: nat, s: Seq<u8>, max_len: nat)
    requires
        a < 65536,
        b < 65536,
        s.len() <= max_len,
        2 * 65535 * (max_len + 1) + 255 * max_len * (max_len + 1) <= 2 * u32::MAX,
    ensures
        raw_a(a, s) <= u32::MAX,
        raw_b(a, b, s) <= u32::MAX,
{
    lemma_sums_bounded(s);
    let n = s.len() as int;
    let m = max_len as int;
    let bs = byte_sum(s) as int;
    let ws = weighted_sum(s) as int;
    assert(a + bs <= u32::MAX && b + n * a + ws <= u32::MAX) by (nonlinear_arith)
        requires
            0 <= n <= m,
            0 <= a < 65536,
            0 <= b < 65536,
            0 <= bs <= 255 * n,
            0 <= ws,
            2 * ws <= 255 * n * (n + 1),
            2 * 65535 * (m + 1) + 255 * m * (m + 1) <= 2 * u32::MAX,
    ;
}

/// Updating with `x` and then with `y` is updating once with `x + y`: the
/// checksum does not depend on how the input is cut into pieces.
pub proof fn lemma_update_concat(st: (nat, nat), x: Seq<u8>, y: Seq<u8>)
    ensures
        update_spec(update_spec(st, x), y) == update_spec(st, x + y),
{
    if x.len() == 0 {
        assert(x + y =~= y);
    } else if y.len() == 0 {
        assert(x + y =~= x);
    } else {
        let m = BASE as int;
        let ra = raw_a(st.0, x) as int;
        let rb = raw_b(st.0, st.1, x) as int;
        lemma_raw_concat(st.0, st.1, x, y);
        let ny = y.len() as int;
        lemma_add_mod_noop(ra, byte_sum(y) as int, m);
        lemma_add_mod_noop(ra % m, byte_sum(y) as int, m);
        assert((ra % m + byte_sum(y)) % m == (ra + byte_sum(y)) % m) by {
            lemma_add_mod_noop_right(byte_sum(y) as int, ra, m);
        }
        let tail = ny * ra + weighted_sum(y);
        assert((rb % m + ny * (ra % m) + weighted_sum(y)) % m == (rb + ny * ra + weighted_sum(y)) % m) by {
            lemma_mul_mod_noop_right(ny, ra, m);
            lemma_add_mod_noop_right(weighted_sum(y) as int, ny * (ra % m), m);
            lemma_add_mod_noop_right(weighted_sum(y) as int, ny * ra, m);
            lemma_add_mod_noop(rb, ny * (ra % m) + weighted_sum(y), m);
            lemma_add_mod_noop(rb, ny * ra + weighted_sum(y), m);
            lemma_add_mod_noop_right(rb % m, ny * (ra % m) + weighted_sum(y), m);
            lemma_add_mod_noop_right(rb % m, ny * ra + weighted_sum(y), m);
            assert(rb % m + ny * (ra % m) + weighted_sum(y) == rb % m + (ny * (ra % m) + weighted_sum(y)));
        }
    }
}

/// Cutting an input into contiguous pieces and updating once per piece, in
/// order, gives the running sums of a single update with the whole input.
pub proof fn lemma_chunking_invariance(st: (nat, nat), pieces: Seq<Seq<u8>>)
    ensures
        update_pieces(st, pieces) == update_spec(st, pieces.flatten()),
    decreases pieces.len(),
{
    pieces.lemma_flatten_and_flatten_alt_are_equivalent();
    if pieces.len() == 0 {
        assert(pieces.flatten() =~= Seq::<u8>::empty());
    } else {
        let init = pieces.drop_last();
        lemma_chunking_invariance(st, init);
        init.lemma_flatten_and_flatten_alt_are_equivalent();
        lemma_update_concat(st, init.flatten(), pieces.last());
    }
}

} // verus!
