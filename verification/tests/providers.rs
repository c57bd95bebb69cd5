use meetily_asr::providers::{
    onnx_provider_chain, CoreMLComputeUnits, ExecutionProviderKind, GpuType, ProviderSupport,
};

/// What a build without any accelerated execution provider supports.
fn cpu_build() -> ProviderSupport {
    ProviderSupport { coreml: false, cuda: false, directml: false, openvino: false, windows: false }
}

fn full_build(windows: bool) -> ProviderSupport {
    ProviderSupport { coreml: true, cuda: true, directml: true, openvino: true, windows }
}

#[test]
fn test_cpu_only_fallback() {
    let providers = onnx_provider_chain(GpuType::NoGpu, cpu_build());
    assert_eq!(
        providers.len(),
        1,
        "CPU-only fallback should return exactly 1 provider, got {}",
        providers.len()
    );
}

#[test]
fn test_metal_includes_coreml() {
    let providers = onnx_provider_chain(GpuType::Metal, cpu_build());
    assert_eq!(
        providers.len(),
        1,
        "Without ort-coreml, Metal should have 1 provider (CPU), got {}",
        providers.len()
    );
    let providers = onnx_provider_chain(GpuType::Metal, full_build(false));
    assert!(
        providers.len() >= 2,
        "With ort-coreml, Metal should have >=2 providers, got {}",
        providers.len()
    );
}

#[test]
fn test_cuda_includes_cuda() {
    let providers = onnx_provider_chain(GpuType::Cuda, cpu_build());
    assert_eq!(
        providers.len(),
        1,
        "Without ort-cuda, Cuda should have 1 provider (CPU), got {}",
        providers.len()
    );
    // DirectML only supplements CUDA: without CUDA support it is not used
    let no_cuda = ProviderSupport { cuda: false, ..full_build(true) };
    assert_eq!(onnx_provider_chain(GpuType::Cuda, no_cuda), vec![ExecutionProviderKind::Cpu]);
    let providers = onnx_provider_chain(GpuType::Cuda, full_build(false));
    assert_eq!(providers[0], ExecutionProviderKind::Cuda);
    assert!(
        providers.len() >= 2,
        "With ort-cuda, Cuda should have >=2 providers, got {}",
        providers.len()
    );
}

#[test]
fn test_cpu_last_in_chain() {
    for gpu_type in &[
        GpuType::NoGpu,
        GpuType::Metal,
        GpuType::Cuda,
        GpuType::Vulkan,
        GpuType::OpenCL,
    ] {
        for support in [cpu_build(), full_build(false), full_build(true)] {
            let providers = onnx_provider_chain(*gpu_type, support);
            assert!(
                !providers.is_empty(),
                "Every GpuType must produce at least the CPU provider"
            );
            assert_eq!(*providers.last().unwrap(), ExecutionProviderKind::Cpu);
        }
    }
}

#[test]
fn chains_follow_the_table() {
    assert_eq!(onnx_provider_chain(GpuType::Metal, full_build(false)), vec![
            ExecutionProviderKind::CoreML(CoreMLComputeUnits::CPUAndNeuralEngine),
            ExecutionProviderKind::Cpu
        ]);
    assert_eq!(onnx_provider_chain(GpuType::Cuda, full_build(false)), vec![
            ExecutionProviderKind::Cuda,
            ExecutionProviderKind::DirectML,
            ExecutionProviderKind::Cpu
        ]);
    assert_eq!(onnx_provider_chain(GpuType::Vulkan, full_build(true)), vec![ExecutionProviderKind::DirectML, ExecutionProviderKind::Cpu]);
    assert_eq!(onnx_provider_chain(GpuType::Vulkan, full_build(false)), vec![ExecutionProviderKind::OpenVino, ExecutionProviderKind::Cpu]);
    assert_eq!(onnx_provider_chain(GpuType::OpenCL, full_build(true)), vec![ExecutionProviderKind::Cpu]);
}
