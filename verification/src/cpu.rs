//! CPU capabilities as the admission of kernels sees them.
use crate::kernels::abi::{CPU_AVX2, CPU_FMA, CPU_NEON};
use vstd::prelude::*;

verus! {

#[derive(Clone, Copy, Debug, PartialEq, Eq, Structural)]
pub struct CpuFeatures {
    pub avx2: bool,
    pub neon: bool,
    pub fma: bool,
}

impl CpuFeatures {
    /// The feature bits that kernels may require on this host.
    pub open spec fn available(self) -> u64 {
        ((if self.avx2 {
            CPU_AVX2
        } else {
            0
        }) + (if self.neon {
            CPU_NEON
        } else {
            0
        }) + (if self.fma {
            CPU_FMA
        } else {
            0
        })) as u64
    }

    /// The feature bits that kernels may require on this host.
    pub fn mask(&self) -> (bits: u64)
        ensures
            bits == self.available(),
    {
        let mut bits: u64 = 0;
        if self.avx2 {
            bits = bits + CPU_AVX2;
        }
        if self.neon {
            bits = bits + CPU_NEON;
        }
        if self.fma {
            bits = bits + CPU_FMA;
        }
        bits
    }

    /// Whether the host has every feature in `required`.
    pub fn supports(&self, required: u64) -> (result: bool)
        ensures
            result == (required & !self.available() == 0),
    {
        required & !self.mask() == 0
    }
}

/// What a probe of the host comes to. AVX2 and FMA3 are features of x86 hosts
/// and NEON is one of AArch64 hosts, where it covers fused multiply-add.
pub fn features(x86: bool, aarch64: bool, avx2: bool, neon: bool, fma: bool) -> (host: CpuFeatures)
    ensures
        host == (CpuFeatures { avx2: x86 && avx2, neon: aarch64 && neon, fma: x86 && fma }),
{
    CpuFeatures { avx2: x86 && avx2, neon: aarch64 && neon, fma: x86 && fma }
}

/// A host has the features of a mask exactly when each of the three known bits
/// in it is backed by the host and no other bit is set.
pub proof fn supported_bit_by_bit(host: CpuFeatures, required: u64)
    ensures
        (required & !host.available() == 0) <==> {
            &&& required & CPU_AVX2 != 0 ==> host.avx2
            &&& required & CPU_NEON != 0 ==> host.neon
            &&& required & CPU_FMA != 0 ==> host.fma
            &&& required < 8
        },
{
    let available = host.available();
    let avx2 = host.avx2;
    let neon = host.neon;
    let fma = host.fma;
    assert((required & !available == 0) <==> ((required & 1 != 0 ==> avx2) && (required & 2 != 0
        ==> neon) && (required & 4 != 0 ==> fma) && required < 8)) by (bit_vector)
        requires
            available == (if avx2 {
                1u64
            } else {
                0u64
            }) + (if neon {
                2u64
            } else {
                0u64
            }) + (if fma {
                4u64
            } else {
                0u64
            }),
    ;
}

} // verus!
