//! Choice of the ONNX Runtime execution providers for a detected GPU.
//!
//! | `GpuType` | Providers tried (in order)                                       |
//! |-----------|------------------------------------------------------------------|
//! | `NoGpu`   | CPU (no GPU path)                                                |
//! | `OpenCL`  | CPU (no dedicated ORT provider for OpenCL)                       |
//! | `Metal`   | CoreML (CPU and Neural Engine) → CPU                             |
//! | `Cuda`    | CUDA → (DirectML, supplementing CUDA) → CPU                      |
//! | `Vulkan`  | DirectML (Windows) / OpenVINO (elsewhere) → CPU                  |
//!
//! A non-CPU provider is only chosen when the build supports it, and a
//! build without a GPU's own provider falls back to CPU alone; CPU is always
//! the last entry, so that ORT falls back to it.

use vstd::prelude::*;

verus! {

/// The kind of GPU found on the machine.
#[derive(Clone, Copy, Debug, PartialEq, Eq, Structural)]
pub enum GpuType {
    NoGpu,
    Metal,
    Cuda,
    Vulkan,
    OpenCL,
}

/// The devices the CoreML execution provider may use.
#[derive(Clone, Copy, Debug, PartialEq, Eq, Structural)]
pub enum CoreMLComputeUnits {
    All,
    CPUAndNeuralEngine,
    CPUAndGPU,
    CPUOnly,
}

/// An ONNX Runtime execution provider.
#[derive(Clone, Copy, Debug, PartialEq, Eq, Structural)]
pub enum ExecutionProviderKind {
    CoreML(CoreMLComputeUnits),
    Cuda,
    DirectML,
    OpenVino,
    Cpu,
}

/// Which accelerated providers this build supports, and the platform.
#[derive(Clone, Copy, Debug)]
pub struct ProviderSupport {
    pub coreml: bool,
    pub cuda: bool,
    pub directml: bool,
    pub openvino: bool,
    pub windows: bool,
}

/// The accelerated providers tried for `gpu`, in order.
pub open spec fn accelerated_providers(gpu: GpuType, s: ProviderSupport) -> Seq<
    ExecutionProviderKind,
> {
    match gpu {
        GpuType::NoGpu | GpuType::OpenCL => seq![],
        GpuType::Metal => if s.coreml {
            seq![ExecutionProviderKind::CoreML(CoreMLComputeUnits::CPUAndNeuralEngine)]
        } else {
            seq![]
        },
        GpuType::Cuda => if s.cuda {
            if s.directml {
                seq![ExecutionProviderKind::Cuda, ExecutionProviderKind::DirectML]
            } else {
                seq![ExecutionProviderKind::Cuda]
            }
        } else {
            seq![]
        },
        GpuType::Vulkan => if s.windows {
            if s.directml {
                seq![ExecutionProviderKind::DirectML]
            } else {
                seq![]
            }
        } else {
            if s.openvino {
                seq![ExecutionProviderKind::OpenVino]
            } else {
                seq![]
            }
        },
    }
}

/// The full provider chain: the accelerated providers, then CPU.
pub open spec fn provider_chain(gpu: GpuType, s: ProviderSupport) -> Seq<ExecutionProviderKind> {
    accelerated_providers(gpu, s).push(ExecutionProviderKind::Cpu)
}

/// Map a detected GPU to an ordered list of ORT execution providers, CPU last.
pub fn onnx_provider_chain(gpu_type: GpuType, support: ProviderSupport) -> (providers: Vec<
    ExecutionProviderKind,
>)
    ensures
        providers@ == provider_chain(gpu_type, support),
{
    let mut providers: Vec<ExecutionProviderKind> = Vec::new();
    match gpu_type {
        GpuType::NoGpu | GpuType::OpenCL => {},
        GpuType::Metal => {
            if support.coreml {
                providers.push(ExecutionProviderKind::CoreML(CoreMLComputeUnits::CPUAndNeuralEngine));
            }
        },
        GpuType::Cuda => {
            if support.cuda {
                providers.push(ExecutionProviderKind::Cuda);
                // DirectML supplements CUDA; it is not a replacement for it
                if support.directml {
                    providers.push(ExecutionProviderKind::DirectML);
                }
            }
        },
        GpuType::Vulkan => {
            if support.windows {
                if support.directml {
                    providers.push(ExecutionProviderKind::DirectML);
                }
            } else if support.openvino {
                providers.push(ExecutionProviderKind::OpenVino);
            }
        },
    }
    providers.push(ExecutionProviderKind::Cpu);
    assert(providers@ =~= provider_chain(gpu_type, support));
    providers
}

/// Every chain ends with CPU, holds it exactly once, and has at most three
/// entries.
pub proof fn lemma_cpu_is_the_single_last_provider(gpu: GpuType, s: ProviderSupport)
    ensures
        ({
            let c = provider_chain(gpu, s);
            &&& 1 <= c.len() <= 3
            &&& c.last() == ExecutionProviderKind::Cpu
            &&& forall|i: int| 0 <= i < c.len() - 1 ==> c[i] != ExecutionProviderKind::Cpu
        }),
{
}

/// Without support for any accelerated provider, every GPU gets CPU alone.
pub proof fn lemma_cpu_only_without_support(gpu: GpuType, s: ProviderSupport)
    requires
        !s.coreml,
        !s.cuda,
        !s.directml,
        !s.openvino,
    ensures
        provider_chain(gpu, s) == seq![ExecutionProviderKind::Cpu],
{
    assert(provider_chain(gpu, s) =~= seq![ExecutionProviderKind::Cpu]);
}

/// A CUDA GPU gets CPU alone when the build lacks CUDA support, whatever
/// else it supports.
pub proof fn lemma_cuda_needs_cuda_support(s: ProviderSupport)
    requires
        !s.cuda,
    ensures
        provider_chain(GpuType::Cuda, s) == seq![ExecutionProviderKind::Cpu],
{
    assert(provider_chain(GpuType::Cuda, s) =~= seq![ExecutionProviderKind::Cpu]);
}

/// With no GPU, or only OpenCL, the chain is CPU alone whatever the build.
pub proof fn lemma_no_gpu_is_cpu_only(gpu: GpuType, s: ProviderSupport)
    requires
        gpu == GpuType::NoGpu || gpu == GpuType::OpenCL,
    ensures
        provider_chain(gpu, s) == seq![ExecutionProviderKind::Cpu],
{
    assert(provider_chain(gpu, s) =~= seq![ExecutionProviderKind::Cpu]);
}


/// A GPU's own provider comes first whenever the build supports it: CUDA for
/// a CUDA GPU (with DirectML after it when that is supported too), CoreML
/// for Metal, and DirectML on Windows or OpenVINO elsewhere for Vulkan.
pub proof fn lemma_supported_provider_first(s: ProviderSupport)
    ensures
        s.cuda ==> provider_chain(GpuType::Cuda, s)[0] == ExecutionProviderKind::Cuda,
        s.cuda && s.directml ==> provider_chain(GpuType::Cuda, s)[1]
            == ExecutionProviderKind::DirectML,
        s.cuda && !s.directml ==> provider_chain(GpuType::Cuda, s) == seq![
            ExecutionProviderKind::Cuda,
            ExecutionProviderKind::Cpu,
        ],
        s.coreml ==> provider_chain(GpuType::Metal, s) == seq![
            ExecutionProviderKind::CoreML(CoreMLComputeUnits::CPUAndNeuralEngine),
            ExecutionProviderKind::Cpu,
        ],
        s.windows && s.directml ==> provider_chain(GpuType::Vulkan, s)[0]
            == ExecutionProviderKind::DirectML,
        !s.windows && s.openvino ==> provider_chain(GpuType::Vulkan, s)[0]
            == ExecutionProviderKind::OpenVino,
{
    if s.cuda && !s.directml {
        assert(provider_chain(GpuType::Cuda, s) =~= seq![
            ExecutionProviderKind::Cuda,
            ExecutionProviderKind::Cpu,
        ]);
    }
    if s.coreml {
        assert(provider_chain(GpuType::Metal, s) =~= seq![
            ExecutionProviderKind::CoreML(CoreMLComputeUnits::CPUAndNeuralEngine),
            ExecutionProviderKind::Cpu,
        ]);
    }
}

} // verus!
