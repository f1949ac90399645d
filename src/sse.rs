//! A stand-alone accumulator that always runs the 128-bit window arithmetic.
use vstd::prelude::*;
use crate::baseline::update_slow;
use crate::checksum::{
    update_spec, seed_sums, packed, sums_in_range, split_seed, pack, lemma_block_fits,
    lemma_raw_concat, lemma_update_concat,
};
use crate::lanes::whole_windows;
use crate::specialized::ssse3::add_reduce;

verus! {

/// The longest block folded through the lanes before a reduction.
pub const NMAX: usize = 5536;

/// Running sums of an Adler-32 computation.
pub struct Adler32 {
    a: u32,
    b: u32,
}

impl View for Adler32 {
    type V = (nat, nat);

    closed spec fn view(&self) -> (nat, nat) {
        (self.a as nat, self.b as nat)
    }
}

impl Adler32 {
    /// The checksum of the empty input.
    pub fn new() -> (r: Self)
        ensures
            r@ == (1nat, 0nat),
    {
        Self::from(1)
    }

    /// The checksum of everything folded in so far.
    pub fn hash(&self) -> (r: u32)
        requires
            sums_in_range(self@),
        ensures
            r as nat == packed(self@),
    {
        pack(self.a, self.b)
    }

    /// Folds `data` into the running sums, `NMAX` bytes at a time: the whole
    /// windows of each block through the lanes, the rest byte by byte, then a
    /// reduction.
    pub fn update(&mut self, data: &[u8])
        requires
            sums_in_range(old(self)@),
        ensures
            final(self)@ == update_spec(old(self)@, data@),
    {
        let ghost st0 = self@;
        let ghost full = data@;
        let ghost mut done: int = 0;
        let mut data = data;
        proof {
            assert(full.take(0) =~= Seq::<u8>::empty());
            assert(full.skip(0) =~= full);
        }
        while data.len() > 0
            invariant
                0 <= done <= full.len(),
                data@ == full.skip(done),
                sums_in_range(st0),
                self@ == update_spec(st0, full.take(done)),
            decreases data.len(),
        {
            let cut = if data.len() > NMAX { NMAX } else { data.len() };
            let block = &data[0..cut];
            let remaining = &data[cut..data.len()];
            let ghost ca = self.a as nat;
            let ghost cb = self.b as nat;
            proof {
                assert(2 * 65535 * (5536 + 1) + 255 * 5536 * (5536 + 1) <= 2 * u32::MAX) by (nonlinear_arith);
                lemma_block_fits(ca, cb, block@, 5536);
            }
            let mut a = self.a;
            let mut b = self.b;
            let rest = add_reduce(&mut a, &mut b, block);
            proof {
                let whole = whole_windows(block@.len() as nat) as int;
                lemma_raw_concat(ca, cb, block@.take(whole), rest@);
                assert(block@.take(whole) + rest@ =~= block@);
                lemma_update_concat(st0, full.take(done), block@);
                assert(full.take(done) + block@ =~= full.take(done + cut));
                assert(remaining@ =~= full.skip(done + cut));
                done = done + cut;
            }
            let (na, nb) = update_slow(a, b, rest);
            self.a = na;
            self.b = nb;
            data = remaining;
        }
        proof {
            assert(full.take(done) =~= full);
        }
    }
}

impl From<u32> for Adler32 {
    /// Continues from the checksum value `adler32`.
    fn from(adler32: u32) -> (r: Self) {
        let (a, b) = split_seed(adler32);
        Adler32 { a, b }
    }
}

impl vstd::std_specs::convert::FromSpecImpl<u32> for Adler32 {
    open spec fn obeys_from_spec() -> bool {
        true
    }

    closed spec fn from_spec(v: u32) -> Self {
        Adler32 { a: (v % 65536) as u32, b: (v / 65536) as u32 }
    }
}

/// The accumulator made from a checksum value holds the running sums that
/// the value stands for.
pub proof fn lemma_from_sums(v: u32)
    ensures
        <Adler32 as vstd::std_specs::convert::FromSpec<u32>>::from_spec(v)@ == seed_sums(v),
{
}

impl Default for Adler32 {
    fn default() -> (r: Self)
        ensures
            r@ == (1nat, 0nat),
    {
        Self::new()
    }
}

} // verus!
