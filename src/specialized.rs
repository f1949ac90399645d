//! The vector backends, and the choice among them.
use vstd::prelude::*;
use crate::checksum::{update_spec, seed_sums, packed, sums_in_range};
use crate::CpuFeatures;

pub mod avx2;
pub mod sse;
pub mod ssse3;

verus! {

/// Which vector backend is in use.
#[derive(Clone, Copy, Debug)]
pub enum Arch {
    Avx2(avx2::State),
    Ssse3(ssse3::State),
    Sse(sse::State),
}

/// A vector backend, chosen once when it is made.
#[derive(Clone, Copy, Debug)]
pub struct State {
    arch: Arch,
}

/// Whether the processor has the instruction sets of some vector backend.
pub open spec fn has_vector_backend(cpu: CpuFeatures) -> bool {
    cpu.avx2 || cpu.ssse3 || (cpu.sse2 && cpu.sse41)
}

impl View for State {
    type V = (nat, nat);

    closed spec fn view(&self) -> (nat, nat) {
        match self.arch {
            Arch::Avx2(s) => s@,
            Arch::Ssse3(s) => s@,
            Arch::Sse(s) => s@,
        }
    }
}

impl State {
    /// Continues from the checksum value `initial` on the fastest vector
    /// backend that the processor supports: AVX2, then SSSE3, then SSE4.1.
    /// `None` where it supports none of them.
    pub fn new(initial: u32, cpu: &CpuFeatures) -> (r: Option<Self>)
        ensures
            r.is_some() == has_vector_backend(*cpu),
            r matches Some(s) ==> s@ == seed_sums(initial),
    {
        match avx2::State::new(initial, cpu) {
            Some(a) => Some(Self { arch: Arch::Avx2(a) }),
            None => match ssse3::State::new(initial, cpu) {
                Some(a) => Some(Self { arch: Arch::Ssse3(a) }),
                None => match sse::State::new(initial, cpu) {
                    Some(a) => Some(Self { arch: Arch::Sse(a) }),
                    None => None,
                },
            },
        }
    }

    /// The checksum of everything folded in so far.
    pub fn finalize(self) -> (r: u32)
        requires
            sums_in_range(self@),
        ensures
            r as nat == packed(self@),
    {
        match self.arch {
            Arch::Avx2(state) => state.finalize(),
            Arch::Ssse3(state) => state.finalize(),
            Arch::Sse(state) => state.finalize(),
        }
    }

    /// Back to the checksum of the empty input, on the same backend.
    pub fn reset(&mut self)
        ensures
            final(self)@ == (1nat, 0nat),
    {
        match self.arch {
            Arch::Avx2(ref mut state) => state.reset(),
            Arch::Ssse3(ref mut state) => state.reset(),
            Arch::Sse(ref mut state) => state.reset(),
        }
    }

    /// Folds `buf` into the running sums.
    pub fn update(&mut self, buf: &[u8])
        requires
            sums_in_range(old(self)@),
        ensures
            final(self)@ == update_spec(old(self)@, buf@),
    {
        match self.arch {
            Arch::Avx2(ref mut state) => state.update(buf),
            Arch::Ssse3(ref mut state) => state.update(buf),
            Arch::Sse(ref mut state) => state.update(buf),
        }
    }
}

} // verus!
