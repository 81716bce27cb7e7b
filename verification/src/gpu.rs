//! Which GPU execution provider an ONNX Runtime session registers.

use vstd::prelude::*;

verus! {

/// The GPU execution providers that a build carries. With none, ONNX Runtime
/// runs on the CPU.
#[derive(Debug, Clone, Copy, PartialEq, Eq, Structural)]
pub struct GpuFeatures {
    /// CUDA.
    pub cuda: bool,
    /// CoreML.
    pub coreml: bool,
    /// DirectML.
    pub directml: bool,
    /// ROCm.
    pub rocm: bool,
}

impl Default for GpuFeatures {
    fn default() -> (r: Self)
        ensures
            !r.cuda && !r.coreml && !r.directml && !r.rocm,
    {
        GpuFeatures { cuda: false, coreml: false, directml: false, rocm: false }
    }
}

/// The name of the provider to register.
pub open spec fn provider_name(f: GpuFeatures) -> Option<Seq<char>> {
    if f.cuda {
        Some("CUDAExecutionProvider"@)
    } else if f.coreml {
        Some("CoreMLExecutionProvider"@)
    } else if f.directml {
        Some("DmlExecutionProvider"@)
    } else if f.rocm {
        Some("ROCMExecutionProvider"@)
    } else {
        None
    }
}

/// Returns the name of the GPU execution provider to register: the first that
/// the build carries, in the order CUDA → CoreML → DirectML → ROCm, or `None`
/// in a CPU-only build.
pub fn gpu_execution_provider(features: GpuFeatures) -> (r: Option<&'static str>)
    ensures
        (match r {
            Some(name) => Some(name@),
            None => None,
        }) == provider_name(features),
{
    if features.cuda {
        Some("CUDAExecutionProvider")
    } else if features.coreml {
        Some("CoreMLExecutionProvider")
    } else if features.directml {
        Some("DmlExecutionProvider")
    } else if features.rocm {
        Some("ROCMExecutionProvider")
    } else {
        None
    }
}

} // verus!
