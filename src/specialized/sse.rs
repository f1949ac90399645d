//! The 128-bit backend for processors with SSE2 and SSE4.1: the same window
//! arithmetic as the SSSE3 backend, driven block by block.
use vstd::prelude::*;
use crate::baseline::update_slow;
use crate::checksum::{
    update_spec, seed_sums, packed, sums_in_range, split_seed, pack, lemma_block_fits,
    lemma_raw_concat, lemma_update_concat,
};
use crate::lanes::whole_windows;
use super::ssse3::add_reduce;
use crate::CpuFeatures;

verus! {

/// The longest block that the 128-bit lanes fold before a reduction.
pub const NMAX: usize = 5536;

/// Running sums of the SSE4.1 backend.
#[derive(Clone, Copy, Debug)]
pub struct State {
    state: (u32, u32),
}

impl View for State {
    type V = (nat, nat);

    closed spec fn view(&self) -> (nat, nat) {
        (self.state.0 as nat, self.state.1 as nat)
    }
}

impl State {
    /// Continues from the checksum value `initial`, where the processor has SSE2 and SSE4.1.
    pub fn new(initial: u32, cpu: &CpuFeatures) -> (r: Option<Self>)
        ensures
            r.is_some() == (cpu.sse2 && cpu.sse41),
            r matches Some(s) ==> s@ == seed_sums(initial),
    {
        if cpu.sse2 && cpu.sse41 {
            Some(Self { state: split_seed(initial) })
        } else {
            None
        }
    }

    /// The checksum of everything folded in so far.
    pub fn finalize(self) -> (r: u32)
        requires
            sums_in_range(self@),
        ensures
            r as nat == packed(self@),
    {
        pack(self.state.0, self.state.1)
    }

    /// Back to the checksum of the empty input.
    pub fn reset(&mut self)
        ensures
            final(self)@ == (1nat, 0nat),
    {
        self.state = (1, 0);
    }

    /// Folds `buf` into the running sums.
    pub fn update(&mut self, buf: &[u8])
        requires
            sums_in_range(old(self)@),
        ensures
            final(self)@ == update_spec(old(self)@, buf@),
    {
        self.state = update_simd(self.state.0, self.state.1, buf);
    }
}

/// Folds `buf` into `(a, b)` in blocks of at most `NMAX` bytes: the whole
/// windows of each block through the lanes, the rest byte by byte, then a
/// reduction.
fn update_simd(a: u32, b: u32, buf: &[u8]) -> (r: (u32, u32))
    requires
        a < 65536,
        b < 65536,
    ensures
        (r.0 as nat, r.1 as nat) == update_spec((a as nat, b as nat), buf@),
{
    let ghost st0 = (a as nat, b as nat);
    let mut a = a;
    let mut b = b;
    let mut pos: usize = 0;
    proof {
        assert(buf@.take(0) =~= Seq::<u8>::empty());
    }
    while pos < buf.len()
        invariant
            pos <= buf@.len(),
            sums_in_range(st0),
            (a as nat, b as nat) == update_spec(st0, buf@.take(pos as int)),
        decreases buf.len() - pos,
    {
        let end = if buf.len() - pos > NMAX { pos + NMAX } else { buf.len() };
        let chunk = &buf[pos..end];
        let ghost ca = a as nat;
        let ghost cb = b as nat;
        proof {
            assert(2 * 65535 * (5536 + 1) + 255 * 5536 * (5536 + 1) <= 2 * u32::MAX) by (nonlinear_arith);
            lemma_block_fits(ca, cb, chunk@, 5536);
        }
        let rest = add_reduce(&mut a, &mut b, chunk);
        proof {
            let whole = whole_windows(chunk@.len() as nat) as int;
            lemma_raw_concat(ca, cb, chunk@.take(whole), rest@);
            assert(chunk@.take(whole) + rest@ =~= chunk@);
            lemma_update_concat(st0, buf@.take(pos as int), chunk@);
            assert(buf@.take(pos as int) + chunk@ =~= buf@.take(end as int));
        }
        let (na, nb) = update_slow(a, b, rest);
        a = na;
        b = nb;
        pos = end;
    }
    proof {
        assert(buf@.take(pos as int) =~= buf@);
    }
    (a, b)
}

} // verus!
