//! The 128-bit backend for processors with SSSE3.
use vstd::prelude::*;
use crate::baseline::update_slow;
use crate::checksum::{
    BASE, byte_sum, weighted_sum, raw_a, raw_b, update_spec, seed_sums, packed, sums_in_range,
    split_seed, pack, lemma_block_fits, lemma_raw_concat, lemma_raw_prefix_le, lemma_sums_prefix_le,
    lemma_update_concat,
};
use crate::lanes::{
    whole_windows, total4, sad_epu8_128, madd_weights_128, add_128, shl5_128, hsum_128, lemma_next_window,
    lemma_window_halves,
};
use crate::CpuFeatures;

verus! {

/// The longest block that the 128-bit lanes fold before a reduction.
pub const NMAX: usize = 5536;

/// Bytes folded per step: two 128-bit registers.
pub const CHUNK_SIZE: usize = 32;

/// Running sums of the SSSE3 backend.
#[derive(Clone, Copy, Debug)]
pub struct State {
    state: (u32, u32),
}

impl View for State {
    type V = (nat, nat);

    closed spec fn view(&self) -> (nat, nat) {
        (self.state.0 as nat, self.state.1 as nat)
    }
}

impl State {
    /// Continues from the checksum value `initial`, where the processor has SSSE3.
    pub fn new(initial: u32, cpu: &CpuFeatures) -> (r: Option<Self>)
        ensures
            r.is_some() == cpu.ssse3,
            r matches Some(s) ==> s@ == seed_sums(initial),
    {
        if cpu.ssse3 {
            Some(Self { state: split_seed(initial) })
        } else {
            None
        }
    }

    /// The checksum of everything folded in so far.
    pub fn finalize(self) -> (r: u32)
        requires
            sums_in_range(self@),
        ensures
            r as nat == packed(self@),
    {
        pack(self.state.0, self.state.1)
    }

    /// Back to the checksum of the empty input.
    pub fn reset(&mut self)
        ensures
            final(self)@ == (1nat, 0nat),
    {
        self.state = (1, 0);
    }

    /// Folds `buf` into the running sums.
    pub fn update(&mut self, buf: &[u8])
        requires
            sums_in_range(old(self)@),
        ensures
            final(self)@ == update_spec(old(self)@, buf@),
    {
        self.state = update_simd(self.state.0, self.state.1, buf);
    }
}

/// Folds `buf` into `(a, b)`: whole blocks of `NMAX` bytes through the lanes,
/// each reduced after it, then the last partial block through the lanes as
/// far as whole windows go and its tail byte by byte. An empty input leaves
/// `(a, b)` as they are.
#[verifier::rlimit(40)]
fn update_simd(a: u32, b: u32, buf: &[u8]) -> (r: (u32, u32))
    requires
        a < 65536,
        b < 65536,
    ensures
        (r.0 as nat, r.1 as nat) == update_spec((a as nat, b as nat), buf@),
{
    if buf.len() == 0 {
        return (a, b);
    }
    let ghost st0 = (a as nat, b as nat);
    let mut a = a;
    let mut b = b;
    let mut pos: usize = 0;
    proof {
        assert(buf@.take(0) =~= Seq::<u8>::empty());
        assert(2 * 65535 * (5536 + 1) + 255 * 5536 * (5536 + 1) <= 2 * u32::MAX) by (nonlinear_arith);
    }
    while buf.len() - pos >= NMAX
        invariant
            pos <= buf@.len(),
            sums_in_range(st0),
            (a as nat, b as nat) == update_spec(st0, buf@.take(pos as int)),
            pos > 0 ==> a < BASE && b < BASE,
        decreases buf.len() - pos,
    {
        let chunk = &buf[pos..pos + NMAX];
        proof {
            assert(2 * 65535 * (5536 + 1) + 255 * 5536 * (5536 + 1) <= 2 * u32::MAX) by (nonlinear_arith);
            lemma_block_fits(a as nat, b as nat, chunk@, 5536);
            assert(chunk@.take(5536) =~= chunk@);
            lemma_update_concat(st0, buf@.take(pos as int), chunk@);
            assert(buf@.take(pos as int) + chunk@ =~= buf@.take(pos + NMAX));
        }
        add_reduce(&mut a, &mut b, chunk);
        a = a % BASE;
        b = b % BASE;
        pos = pos + NMAX;
    }
    let remainder = &buf[pos..buf.len()];
    let ghost ra = a as nat;
    let ghost rb = b as nat;
    proof {
        lemma_block_fits(ra, rb, remainder@, 5536);
    }
    let rest = add_reduce(&mut a, &mut b, remainder);
    proof {
        let whole = whole_windows(remainder@.len() as nat) as int;
        lemma_raw_concat(ra, rb, remainder@.take(whole), rest@);
        assert(remainder@.take(whole) + rest@ =~= remainder@);
        assert(buf@.take(pos as int) + remainder@ =~= buf@);
        lemma_update_concat(st0, buf@.take(pos as int), remainder@);
        if remainder@.len() == 0 {
            assert(remainder@ =~= Seq::<u8>::empty());
            assert(pos > 0);
        }
    }
    update_slow(a, b, rest)
}

/// Folds the whole 32-byte windows at the start of `chunk` into `(a, b)`
/// without reducing, and hands back the bytes after them.
///
/// Per window, one lane vector collects the byte sums, a second the sums of
/// the bytes times their weights 32 down to 1, and a third, before the
/// window is added, the byte sum of all earlier windows: each earlier byte
/// is counted again, 32 times, by the second running sum of this window.
pub fn add_reduce<'a>(a: &mut u32, b: &mut u32, chunk: &'a [u8]) -> (rest: &'a [u8])
    requires
        chunk@.len() <= NMAX,
        raw_a(*old(a) as nat, chunk@) <= u32::MAX,
        raw_b(*old(a) as nat, *old(b) as nat, chunk@) <= u32::MAX,
    ensures
        rest@ == chunk@.skip(whole_windows(chunk@.len()) as int),
        *final(a) as nat == raw_a(*old(a) as nat, chunk@.take(whole_windows(chunk@.len()) as int)),
        *final(b) as nat == raw_b(*old(a) as nat, *old(b) as nat, chunk@.take(whole_windows(chunk@.len()) as int)),
{
    if chunk.len() < CHUNK_SIZE {
        proof {
            assert(whole_windows(chunk@.len() as nat) == 0);
            assert(chunk@.take(0) =~= Seq::<u8>::empty());
            assert(chunk@.skip(0) =~= chunk@);
            assert(0 * (*a as nat) == 0);
        }
        return chunk;
    }
    let ghost a0 = *a as nat;
    let ghost b0 = *b as nat;
    let windows: usize = chunk.len() / CHUNK_SIZE;
    let whole: usize = windows * CHUNK_SIZE;
    let ghost body = chunk@.take(whole as int);
    proof {
        lemma_raw_prefix_le(a0, b0, chunk@, whole as int);
        assert(a0 * whole == whole * a0) by (nonlinear_arith);
        assert(body.take(0) =~= Seq::<u8>::empty());
    }
    *b = *b + *a * (whole as u32);

    let mut v1: [u32; 4] = [0, 0, 0, 0];
    let mut v2j: [u32; 4] = [0, 0, 0, 0];
    let mut v2k: [u32; 4] = [0, 0, 0, 0];
    let mut j: usize = 0;
    while j < windows
        invariant
            j <= windows,
            whole == 32 * windows <= chunk@.len(),
            body == chunk@.take(whole as int),
            *a as nat == a0,
            *b as nat == b0 + whole * a0,
            raw_b(a0, b0, body) <= u32::MAX,
            total4(v1) == byte_sum(body.take(32 * j)),
            32 * total4(v2j) + total4(v2k) == weighted_sum(body.take(32 * j)),
        decreases windows - j,
    {
        let start = j * CHUNK_SIZE;
        let window = &chunk[start..start + CHUNK_SIZE];
        let left = &window[0..16];
        let right = &window[16..32];
        proof {
            lemma_next_window(body, j as int);
            assert(body.subrange(32 * j, 32 * j + 32) =~= window@);
            lemma_window_halves(window@);
            assert(left@ =~= window@.subrange(0, 16));
            assert(right@ =~= window@.subrange(16, 32));
            lemma_sums_prefix_le(body, 32 * j + 32);
        }
        v2j = add_128(v2j, v1);
        v1 = add_128(v1, sad_epu8_128(left));
        v1 = add_128(v1, sad_epu8_128(right));
        v2k = add_128(v2k, madd_weights_128(left, 32));
        v2k = add_128(v2k, madd_weights_128(right, 16));
        j = j + 1;
    }
    proof {
        assert(body.take(32 * j) =~= body);
    }
    *a = *a + hsum_128(v1);
    let v2 = add_128(v2k, shl5_128(v2j));
    *b = *b + hsum_128(v2);
    &chunk[whole..chunk.len()]
}

} // verus!
