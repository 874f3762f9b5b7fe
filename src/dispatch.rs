//! The choice of the code-distance kernel from processor features and
//! environment overrides.
use vstd::prelude::*;

verus! {

/// The kernels that compute the code distance.
#[derive(Clone, Copy, Debug, PartialEq, Eq, Structural)]
pub enum DiffBackend {
    /// A byte at a time through a table of symbol distances.
    Lut,
    /// Four 64-bit words.
    Cpu,
    /// Two 128-bit SSE2 registers.
    Sse2,
    /// One 256-bit AVX2 register.
    Avx2,
    /// Two 128-bit NEON registers.
    Neon,
}

/// Vector extensions the processor offers.
#[derive(Clone, Copy, Debug)]
pub struct CpuFeatures {
    pub avx2: bool,
    pub sse2: bool,
    pub neon: bool,
}

/// What the environment asks of the choice: which extensions not to use,
/// and whether to force the 64-bit kernel.
#[derive(Clone, Copy, Debug)]
pub struct DiffOverrides {
    pub disable_avx: bool,
    pub disable_sse: bool,
    pub disable_neon: bool,
    pub force_cpu: bool,
}

/// The widest kernel that the processor offers and the environment allows;
/// the 64-bit kernel when forced; the table otherwise.
pub open spec fn backend_choice(f: CpuFeatures, o: DiffOverrides) -> DiffBackend {
    if o.force_cpu {
        DiffBackend::Cpu
    } else if f.avx2 && !o.disable_avx {
        DiffBackend::Avx2
    } else if f.sse2 && !o.disable_sse {
        DiffBackend::Sse2
    } else if f.neon && !o.disable_neon {
        DiffBackend::Neon
    } else {
        DiffBackend::Lut
    }
}

/// Chooses the code-distance kernel, once, at start-up.
pub fn select_backend(f: CpuFeatures, o: DiffOverrides) -> (r: DiffBackend)
    ensures
        r == backend_choice(f, o),
{
    let mut backend = DiffBackend::Lut;
    if f.avx2 && !o.disable_avx {
        backend = DiffBackend::Avx2;
    } else if f.sse2 && !o.disable_sse {
        backend = DiffBackend::Sse2;
    } else if f.neon && !o.disable_neon {
        backend = DiffBackend::Neon;
    }
    if o.force_cpu {
        backend = DiffBackend::Cpu;
    }
    backend
}

pub open spec fn mode_name_of(b: DiffBackend) -> Seq<char> {
    match b {
        DiffBackend::Lut => "LUT"@,
        DiffBackend::Cpu => "cpu"@,
        DiffBackend::Sse2 => "sse2"@,
        DiffBackend::Avx2 => "avx2"@,
        DiffBackend::Neon => "neon"@,
    }
}

impl DiffBackend {
    /// The name under which the kernel is reported.
    pub fn mode_name(&self) -> (r: &'static str)
        ensures
            r@ == mode_name_of(*self),
    {
        match self {
            DiffBackend::Lut => "LUT",
            DiffBackend::Cpu => "cpu",
            DiffBackend::Sse2 => "sse2",
            DiffBackend::Avx2 => "avx2",
            DiffBackend::Neon => "neon",
        }
    }
}

} // verus!
