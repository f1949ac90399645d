//! The scalar backend: the plain recurrence, reduced once per block.
use vstd::prelude::*;
use crate::checksum::{
    BASE, raw_a, raw_b, update_spec, seed_sums, packed, sums_in_range, split_seed, pack,
    lemma_block_fits, lemma_raw_concat, lemma_raw_prefix_le, lemma_raw_step, lemma_update_concat,
};

verus! {

/// The longest block whose unreduced running sums stay within 32 bits.
pub const NMAX: usize = 5552;

/// Running sums of the scalar backend.
#[derive(Clone, Copy, Debug)]
pub struct State {
    state: (u32, u32),
}

impl View for State {
    type V = (nat, nat);

    closed spec fn view(&self) -> (nat, nat) {
        (self.state.0 as nat, self.state.1 as nat)
    }
}

impl State {
    /// Continues from the checksum value `initial`.
    pub fn new(initial: u32) -> (r: Self)
        ensures
            r@ == seed_sums(initial),
    {
        Self { state: split_seed(initial) }
    }

    /// The checksum of everything folded in so far.
    pub fn finalize(&self) -> (r: u32)
        requires
            sums_in_range(self@),
        ensures
            r as nat == packed(self@),
    {
        pack(self.state.0, self.state.1)
    }

    /// Back to the checksum of the empty input.
    pub fn reset(&mut self)
        ensures
            final(self)@ == (1nat, 0nat),
    {
        self.state = (1, 0);
    }

    /// Folds `buf` into the running sums.
    pub fn update(&mut self, buf: &[u8])
        requires
            sums_in_range(old(self)@),
        ensures
            final(self)@ == update_spec(old(self)@, buf@),
    {
        self.state = update_fast(self.state.0, self.state.1, buf);
    }
}

/// Folds `buf` into `(a, b)` byte by byte, then reduces both sums.
pub fn update_slow(a: u32, b: u32, buf: &[u8]) -> (r: (u32, u32))
    requires
        raw_a(a as nat, buf@) <= u32::MAX,
        raw_b(a as nat, b as nat, buf@) <= u32::MAX,
    ensures
        r.0 as nat == raw_a(a as nat, buf@) % (BASE as nat),
        r.1 as nat == raw_b(a as nat, b as nat, buf@) % (BASE as nat),
{
    let mut x = a;
    let mut y = b;
    let mut i: usize = 0;
    while i < buf.len()
        invariant
            i <= buf@.len(),
            x as nat == raw_a(a as nat, buf@.take(i as int)),
            y as nat == raw_b(a as nat, b as nat, buf@.take(i as int)),
            raw_a(a as nat, buf@) <= u32::MAX,
            raw_b(a as nat, b as nat, buf@) <= u32::MAX,
        decreases buf.len() - i,
    {
        proof {
            let t = buf@.take(i as int + 1);
            assert(t.drop_last() =~= buf@.take(i as int));
            lemma_raw_prefix_le(a as nat, b as nat, buf@, i as int + 1);
            lemma_raw_step(a as nat, b as nat, t);
        }
        x = x + buf[i] as u32;
        y = y + x;
        i = i + 1;
    }
    proof {
        assert(buf@.take(i as int) =~= buf@);
    }
    (x % BASE, y % BASE)
}

/// Folds the first sixteen bytes of `buf` into `(a, b)` without reducing.
fn update_16(a: &mut u32, b: &mut u32, buf: &[u8])
    requires
        buf@.len() >= 16,
        raw_a(*old(a) as nat, buf@.take(16)) <= u32::MAX,
        raw_b(*old(a) as nat, *old(b) as nat, buf@.take(16)) <= u32::MAX,
    ensures
        *final(a) as nat == raw_a(*old(a) as nat, buf@.take(16)),
        *final(b) as nat == raw_b(*old(a) as nat, *old(b) as nat, buf@.take(16)),
{
    let ghost a0 = *a as nat;
    let ghost b0 = *b as nat;
    let ghost group = buf@.take(16);
    let mut i: usize = 0;
    while i < 16
        invariant
            i <= 16 <= buf@.len(),
            group == buf@.take(16),
            *a as nat == raw_a(a0, group.take(i as int)),
            *b as nat == raw_b(a0, b0, group.take(i as int)),
            raw_a(a0, group) <= u32::MAX,
            raw_b(a0, b0, group) <= u32::MAX,
        decreases 16 - i,
    {
        proof {
            let t = group.take(i as int + 1);
            assert(t.drop_last() =~= group.take(i as int));
            lemma_raw_prefix_le(a0, b0, group, i as int + 1);
            lemma_raw_step(a0, b0, t);
        }
        *a = *a + buf[i] as u32;
        *b = *b + *a;
        i = i + 1;
    }
    proof {
        assert(group.take(16) =~= group);
    }
}

/// Folds `buf` into `(a, b)` in blocks of at most `NMAX` bytes, sixteen bytes
/// at a time, reducing after each block.
fn update_fast(a: u32, b: u32, buf: &[u8]) -> (r: (u32, u32))
    requires
        a < 65536,
        b < 65536,
    ensures
        (r.0 as nat, r.1 as nat) == update_spec((a as nat, b as nat), buf@),
{
    let ghost st0 = (a as nat, b as nat);
    let mut a = a;
    let mut b = b;
    let mut pos: usize = 0;
    proof {
        assert(buf@.take(0) =~= Seq::<u8>::empty());
    }
    while pos < buf.len()
        invariant
            pos <= buf@.len(),
            sums_in_range(st0),
            (a as nat, b as nat) == update_spec(st0, buf@.take(pos as int)),
        decreases buf.len() - pos,
    {
        let end = if buf.len() - pos > NMAX { pos + NMAX } else { buf.len() };
        let chunk = &buf[pos..end];
        let ghost ca = a as nat;
        let ghost cb = b as nat;
        proof {
            assert(2 * 65535 * (5552 + 1) + 255 * 5552 * (5552 + 1) <= 2 * u32::MAX) by (nonlinear_arith);
            lemma_block_fits(ca, cb, chunk@, 5552);
            assert(chunk@.take(0) =~= Seq::<u8>::empty());
        }
        let mut i: usize = 0;
        while chunk.len() - i >= 16
            invariant
                i <= chunk@.len(),
                a as nat == raw_a(ca, chunk@.take(i as int)),
                b as nat == raw_b(ca, cb, chunk@.take(i as int)),
                raw_a(ca, chunk@) <= u32::MAX,
                raw_b(ca, cb, chunk@) <= u32::MAX,
            decreases chunk.len() - i,
        {
            let group = &chunk[i..i + 16];
            proof {
                lemma_raw_prefix_le(ca, cb, chunk@, i + 16);
                lemma_raw_concat(ca, cb, chunk@.take(i as int), group@);
                assert(chunk@.take(i as int) + group@ =~= chunk@.take(i + 16));
                assert(group@.take(16) =~= group@);
            }
            update_16(&mut a, &mut b, group);
            i = i + 16;
        }
        let rest = &chunk[i..chunk.len()];
        proof {
            lemma_raw_concat(ca, cb, chunk@.take(i as int), rest@);
            assert(chunk@.take(i as int) + rest@ =~= chunk@);
        }
        let (na, nb) = update_slow(a, b, rest);
        proof {
            lemma_update_concat(st0, buf@.take(pos as int), chunk@);
            assert(buf@.take(pos as int) + chunk@ =~= buf@.take(end as int));
        }
        a = na;
        b = nb;
        pos = end;
    }
    proof {
        assert(buf@.take(pos as int) =~= buf@);
    }
    (a, b)
}

} // verus!
