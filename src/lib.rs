//! Adler-32 checksums with a scalar backend and vector-style backends whose
//! results are proved equal to the scalar recurrence for every input.
use vstd::prelude::*;
use crate::checksum::{update_spec, seed_sums, packed, sums_in_range};
use crate::specialized::has_vector_backend;

pub mod checksum;
pub mod baseline;
pub mod lanes;
pub mod specialized;
pub mod sse;

verus! {

/// What the processor reports of the instruction sets that the vector
/// backends stand for. Only a backend whose instruction sets are all
/// reported is ever chosen.
#[derive(Clone, Copy, Debug)]
pub struct CpuFeatures {
    pub sse2: bool,
    pub ssse3: bool,
    pub sse41: bool,
    pub avx2: bool,
}

/// The checksum value that a new accumulator starts from: that of the empty input.
const DEFAULT_INIT_STATE: u32 = 1;

/// The backend that an accumulator runs on.
#[derive(Clone, Copy, Debug)]
enum State {
    Baseline(baseline::State),
    Specialized(specialized::State),
}

/// An Adler-32 computation in progress, on the fastest backend that the
/// processor supports, chosen once when it is made.
#[derive(Clone, Copy, Debug)]
pub struct Adler32 {
    state: State,
}

impl View for Adler32 {
    type V = (nat, nat);

    closed spec fn view(&self) -> (nat, nat) {
        match self.state {
            State::Baseline(s) => s@,
            State::Specialized(s) => s@,
        }
    }
}

impl Adler32 {
    /// Whether a vector backend is in use.
    pub closed spec fn simd_enabled(&self) -> bool {
        self.state is Specialized
    }

    /// The checksum of the empty input, on the fastest backend for `cpu`.
    pub fn new(cpu: &CpuFeatures) -> (r: Self)
        ensures
            r@ == (1nat, 0nat),
            r.simd_enabled() == has_vector_backend(*cpu),
    {
        Self::from_seed(DEFAULT_INIT_STATE, cpu)
    }

    /// Continues from the checksum value `initial`, on the fastest backend
    /// for `cpu`: a vector backend where there is one, else the scalar one.
    pub fn from_seed(initial: u32, cpu: &CpuFeatures) -> (r: Self)
        ensures
            r@ == seed_sums(initial),
            r.simd_enabled() == has_vector_backend(*cpu),
    {
        match Self::internal_new_specialized(initial, cpu) {
            Some(s) => s,
            None => Self::internal_new_baseline(initial),
        }
    }

    /// The checksum of everything folded in so far.
    pub fn as_u32(&self) -> (r: u32)
        requires
            sums_in_range(self@),
        ensures
            r as nat == packed(self@),
    {
        match self.state {
            State::Baseline(state) => state.finalize(),
            State::Specialized(state) => state.finalize(),
        }
    }

    /// Whether a vector backend is in use.
    pub fn is_simd_enabled(&self) -> (r: bool)
        ensures
            r == self.simd_enabled(),
    {
        match self.state {
            State::Specialized(_) => true,
            _ => false,
        }
    }

    /// Back to the checksum of the empty input, on the same backend.
    pub fn reset(&mut self)
        ensures
            final(self)@ == (1nat, 0nat),
            final(self).simd_enabled() == old(self).simd_enabled(),
    {
        match self.state {
            State::Baseline(ref mut state) => state.reset(),
            State::Specialized(ref mut state) => state.reset(),
        }
    }

    /// Folds `buf` into the checksum.
    pub fn update(&mut self, buf: &[u8])
        requires
            sums_in_range(old(self)@),
        ensures
            final(self)@ == update_spec(old(self)@, buf@),
            final(self).simd_enabled() == old(self).simd_enabled(),
    {
        match self.state {
            State::Baseline(ref mut state) => state.update(buf),
            State::Specialized(ref mut state) => state.update(buf),
        }
    }

    /// Continues from the checksum value `initial` on the scalar backend.
    pub fn internal_new_baseline(initial: u32) -> (r: Self)
        ensures
            r@ == seed_sums(initial),
            !r.simd_enabled(),
    {
        Self { state: State::Baseline(baseline::State::new(initial)) }
    }

    /// Continues from the checksum value `initial` on the fastest vector
    /// backend for `cpu`; `None` where there is none.
    pub fn internal_new_specialized(initial: u32, cpu: &CpuFeatures) -> (r: Option<Self>)
        ensures
            r.is_some() == has_vector_backend(*cpu),
            r matches Some(s) ==> s@ == seed_sums(initial) && s.simd_enabled(),
    {
        match specialized::State::new(initial, cpu) {
            Some(state) => Some(Self { state: State::Specialized(state) }),
            None => None,
        }
    }
}

} // verus!
