use svod_tensor::config::device_supports_storage_dtype;
use svod_tensor::device::{AmdArch, CudaArch, DeviceSpec, GpuArch, MetalFamily, ScalarDType};
use svod_tensor::renderer::{
    get_optimizer_renderer, hash_of_words, Renderer, RendererDevice, RendererOps, Reported, TensorCore,
};

/// What an optimizer could report of a target.
fn reported() -> Reported {
    Reported {
        allow_tf32: false,
        global_max: Some(vec![1 << 20, 1 << 10, 1 << 10]),
        global_prod_max: Some(1 << 30),
        local_max: Some(512),
        upcast_max: 16,
        buffer_max: None,
        supports_float4: true,
        storage: vec![ScalarDType::Float32, ScalarDType::Int32, ScalarDType::Float16],
        tensor_cores: vec![],
    }
}

/// Every operation.
fn all_ops() -> RendererOps {
    RendererOps { unary: vec![0, 1, 2], binary: vec![0, 1, 2, 3], ternary: vec![0] }
}

/// The runtime CPU target is distinct from the tinygrad reference: no tensor
/// cores, no local cap, and a different fingerprint.
#[test]
fn cpu_renderers_are_distinct_targets() {
    let (runtime, reference) = (Renderer::cpu(&reported()), Renderer::tinygrad_base_cpu(&reported()));
    assert!(runtime.tensor_cores.is_empty());
    assert_eq!(runtime.local_max, None);
    assert_eq!(reference.shared_max, 32768);
    assert_eq!(reference.global_max, Some(vec![0x8fff_ffff; 3]));
    assert_eq!(reference.local_max, Some(0x8fff_ffff));
    assert_ne!(runtime.cache_fingerprint(), reference.cache_fingerprint());
}

/// Two capabilities sharing a profile still fingerprint apart (the target), and
/// a repeated construction is stable.
#[test]
fn for_cuda_arch_fingerprint_tracks_the_exact_capability() {
    let sm80 = Renderer::for_cuda_arch(CudaArch::from_compute_capability(8, 0), &reported());
    let sm86 = Renderer::for_cuda_arch(CudaArch::from_compute_capability(8, 6), &reported());
    assert_eq!(sm80.device, sm86.device);
    assert_ne!(sm80.cache_fingerprint(), sm86.cache_fingerprint());
    assert_eq!(
        Renderer::for_cuda_arch(CudaArch::from_compute_capability(8, 6), &reported()).cache_fingerprint(),
        sm86.cache_fingerprint()
    );
    assert_ne!(Renderer::cuda(&reported()).cache_fingerprint(), sm80.cache_fingerprint(), "no target");
}

/// Every gfx family maps to its optimizer profile, with the exact `mcpu` target.
#[test]
fn for_amd_arch_maps_each_family() {
    for (arch, device) in [
        (AmdArch::Gfx942, RendererDevice::AmdCdna3),
        (AmdArch::Gfx950, RendererDevice::AmdCdna4),
        (AmdArch::Gfx1100, RendererDevice::AmdRdna3),
        (AmdArch::Gfx1151, RendererDevice::AmdRdna3),
        (AmdArch::Gfx1201, RendererDevice::AmdRdna4),
    ] {
        let renderer = Renderer::for_amd_arch(arch, &reported());
        assert_eq!(renderer.device, device);
        assert_eq!(renderer.target.as_deref(), Some(arch.mcpu()));
    }
}

fn is_fp8(dtype: ScalarDType) -> bool {
    matches!(
        dtype,
        ScalarDType::FP8E4M3 | ScalarDType::FP8E5M2 | ScalarDType::FP8E4M3FNUZ | ScalarDType::FP8E5M2FNUZ
    )
}

/// The AMD tensor-core tables, with the accumulator pinned alongside the operand.
#[test]
fn amd_tensor_core_tables_match_architecture() {
    for (arch, len, dims, dtype_in, dtype_out) in [
        (AmdArch::Gfx942, 4, (16, 16, 32), ScalarDType::FP8E4M3, ScalarDType::Float32),
        (AmdArch::Gfx950, 8, (16, 16, 128), ScalarDType::FP8E4M3, ScalarDType::Float32),
        (AmdArch::Gfx1151, 4, (16, 16, 16), ScalarDType::Int8, ScalarDType::Int32),
        (AmdArch::Gfx1201, 5, (16, 16, 16), ScalarDType::BFloat16, ScalarDType::BFloat16),
    ] {
        let renderer = Renderer::for_amd_arch(arch, &reported());
        assert_eq!(renderer.tensor_cores.len(), len, "{}", arch.mcpu());
        assert!(
            renderer
                .tensor_cores
                .iter()
                .any(|tc| tc.dims == dims && tc.dtype_in == dtype_in && tc.dtype_out == dtype_out),
            "{}",
            arch.mcpu()
        );
        assert!(!renderer.tensor_cores.iter().any(|tc| tc.dtype_in == ScalarDType::Float32), "no fp32 input core");

        let cdna = matches!(arch, AmdArch::Gfx942 | AmdArch::Gfx950);
        let fp8 = renderer.tensor_cores.iter().any(|tc| is_fp8(tc.dtype_in));
        assert_eq!(fp8, cdna, "{} fp8 core", arch.mcpu());
        assert_eq!(
            renderer
                .tensor_cores
                .iter()
                .any(|tc| tc.dtype_in == ScalarDType::Int8 && tc.dtype_out == ScalarDType::Int32),
            !cdna,
            "{} int8 core",
            arch.mcpu()
        );
    }
}

/// Tensor cores follow the Apple GPU family: none below Apple7 or on Intel-Mac
/// GPU families, five from Apple7 on, and the M4 family matches plain metal.
#[test]
fn metal_profile_follows_gpu_family() {
    for (family, cores) in [
        (MetalFamily::Apple(9), 5),
        (MetalFamily::Apple(7), 5),
        (MetalFamily::Apple(6), 0),
        (MetalFamily::Mac2, 0),
        (MetalFamily::Unknown, 0),
    ] {
        let renderer = Renderer::for_metal_family(family, &reported());
        assert_eq!(renderer.tensor_cores.len(), cores, "{}", family.to_string());
        assert_eq!(renderer.target.as_deref(), Some(family.to_string().as_str()));
        assert_eq!(
            Renderer::for_metal_family(family, &reported()).cache_fingerprint(),
            renderer.cache_fingerprint(),
            "stable"
        );

        if family == MetalFamily::Apple(9) {
            assert_eq!(renderer.tensor_cores.len(), Renderer::metal(&reported()).tensor_cores.len(), "the M4 family");
            assert_ne!(
                renderer.cache_fingerprint(),
                Renderer::for_metal_family(MetalFamily::Apple(7), &reported()).cache_fingerprint()
            );
            assert_ne!(
                renderer.cache_fingerprint(),
                Renderer::metal(&reported()).cache_fingerprint(),
                "the target separates them"
            );
        }
    }
}

fn with_tf32(allow_tf32: bool) -> Reported {
    Reported { allow_tf32, ..reported() }
}

/// A TF32 opt-in is a distinct capability (it adds a core, and it changes the
/// fingerprint), so it must fingerprint apart.
#[test]
fn tf32_opt_in_changes_the_capability() {
    for allow_tf32 in [false, true] {
        assert_ne!(
            Renderer::cuda(&with_tf32(false)).cache_fingerprint(),
            Renderer::cuda(&with_tf32(true)).cache_fingerprint()
        );
        assert_eq!(
            Renderer::cuda(&with_tf32(allow_tf32)).tensor_cores.iter().any(|tc| tc.dtype_in == ScalarDType::Float32),
            allow_tf32
        );
    }
}

/// The opt-in reaches the profiles devices actually build.
#[test]
fn tf32_opt_in_reaches_the_arch_profiles() {
    for expected in [false, true] {
        let sm86 = CudaArch::from_compute_capability(8, 6);
        let device = DeviceSpec::Cuda { device_id: 0 };
        for renderer in [
            Renderer::cuda(&with_tf32(expected)),
            Renderer::for_cuda_arch(sm86, &with_tf32(expected)),
            get_optimizer_renderer(&device, Some(GpuArch::Cuda(sm86)), None, all_ops(), &with_tf32(expected)),
            get_optimizer_renderer(&device, None, None, all_ops(), &with_tf32(expected)),
        ] {
            assert_eq!(renderer.tensor_cores.iter().any(|tc| tc.dtype_in == ScalarDType::Float32), expected);
            assert_eq!(renderer.tensor_cores.len(), 6 + usize::from(expected));
        }
        let turing = CudaArch::from_compute_capability(7, 5);
        assert_eq!(Renderer::for_cuda_arch(turing, &with_tf32(expected)).tensor_cores.len(), 2);
    }
}

/// Every target's device, memory flags, wave width, shared-memory budget and
/// per-axis local limit.
#[test]
fn renderer_profiles_match_their_capabilities() {
    let reported = reported();
    let gpu = (true, true, false);
    for (renderer, device, flags, wave, shared_max, local_max_axes) in [
        (Renderer::cpu(&reported), RendererDevice::Cpu, (false, false, true), 32, 0, None),
        (Renderer::tinygrad_base_cpu(&reported), RendererDevice::Cpu, gpu, 32, 32768, None),
        (Renderer::cuda_sm75(&reported), RendererDevice::CudaSm75, gpu, 32, 49152, Some([1024, 1024, 64])),
        (Renderer::cuda(&reported), RendererDevice::CudaSm80, gpu, 32, 49152, Some([1024, 1024, 64])),
        (Renderer::cuda_sm89(&reported), RendererDevice::CudaSm89, gpu, 32, 49152, Some([1024, 1024, 64])),
        (Renderer::metal(&reported), RendererDevice::Metal, gpu, 32, 32768, None),
        (Renderer::amd_rdna3(&reported), RendererDevice::AmdRdna3, gpu, 32, 65536, None),
        (Renderer::amd_cdna3(&reported), RendererDevice::AmdCdna3, gpu, 64, 65536, None),
        (Renderer::amd_cdna4(&reported), RendererDevice::AmdCdna4, gpu, 64, 65536, None),
        (Renderer::intel_xe(&reported), RendererDevice::IntelXe, gpu, 32, 65536, None),
        (Renderer::webgpu(&reported), RendererDevice::WebGpu, gpu, 32, 16384, Some([256, 256, 64])),
    ] {
        assert_eq!(renderer.device, device);
        assert_eq!((renderer.has_local, renderer.has_shared, renderer.has_threads), flags);
        assert_eq!(renderer.wave_size(), wave);
        assert_eq!(renderer.local_max_axes(), local_max_axes);
        assert_eq!(renderer.shared_max, shared_max);
        assert_eq!(renderer.shared_max == 0, !renderer.has_shared, "the shared budget matches the flag");
    }
}

/// A GFX1151 renderer with one capability field edited, for fingerprint tests.
fn mutate(edit: fn(&mut Renderer)) -> Renderer {
    let mut renderer = Renderer::for_amd_arch(AmdArch::Gfx1151, &reported());
    edit(&mut renderer);
    renderer
}

/// The fingerprint keys the compilation caches, so it must move with anything
/// that can change codegen: the target and every capability field.
#[test]
fn fingerprint_tracks_the_exact_target_and_every_capability() {
    let gfx1151 = || Renderer::for_amd_arch(AmdArch::Gfx1151, &reported());
    assert_ne!(
        Renderer::for_amd_arch(AmdArch::Gfx1100, &reported()).cache_fingerprint(),
        gfx1151().cache_fingerprint()
    );

    let fields: Vec<(&str, Renderer)> = vec![
        ("target", mutate(|r| r.target = None)),
        ("has_local", mutate(|r| r.has_local = false)),
        ("has_shared", mutate(|r| r.has_shared = false)),
        ("has_threads", mutate(|r| r.has_threads = true)),
        ("shared_max", mutate(|r| r.shared_max += 1)),
        ("global_max", mutate(|r| r.global_max = None)),
        ("global_prod_max", mutate(|r| r.global_prod_max = None)),
        ("local_max", mutate(|r| r.local_max = None)),
        ("upcast_max", mutate(|r| r.upcast_max -= 1)),
        ("buffer_max", mutate(|r| r.buffer_max = Some(1))),
        ("supports_float4", mutate(|r| r.supports_float4 = !r.supports_float4)),
        ("tensor_cores", mutate(|r| r.tensor_cores.clear())),
        ("supported_dtypes", mutate(|r| r.supported_dtypes.retain(|dtype| *dtype != ScalarDType::Int32))),
        ("decomposition profile", gfx1151().with_rewrite_capabilities(all_ops())),
    ];
    for (name, renderer) in fields {
        assert_ne!(gfx1151().cache_fingerprint(), renderer.cache_fingerprint(), "{name} must change the key");
    }

    // The renderer's operation table is part of the identity too.
    let with_ops = gfx1151().with_rewrite_capabilities(all_ops());
    let mut fewer = all_ops();
    fewer.binary.pop();
    assert_ne!(with_ops.cache_fingerprint(), gfx1151().with_rewrite_capabilities(fewer).cache_fingerprint());
}

#[test]
fn open_matrix_units_are_the_reported_ones() {
    let core = TensorCore { dims: (8, 16, 32), dtype_in: ScalarDType::FP8E4M3, dtype_out: ScalarDType::Float32 };
    let reported = Reported { tensor_cores: vec![core], ..reported() };
    for renderer in [Renderer::cuda_sm89(&reported), Renderer::intel_xe(&reported), Renderer::webgpu(&reported)] {
        assert_eq!(renderer.tensor_cores, vec![core]);
    }
    assert!(Renderer::cpu(&reported).tensor_cores.is_empty());
    assert_eq!(Renderer::cuda_sm75(&reported).tensor_cores.len(), 2);
}

#[test]
fn limits_are_the_reported_ones() {
    let rdna3 = Renderer::amd_rdna3(&reported());
    assert_eq!((rdna3.global_max, rdna3.global_prod_max), (reported().global_max, Some(1 << 30)));
    assert_eq!((rdna3.local_max, rdna3.upcast_max), (Some(512), 16));
    assert_eq!((rdna3.buffer_max, rdna3.supports_float4, rdna3.renderer_ops), (None, true, None));
    assert_eq!(Renderer::cpu(&reported()).local_max, None, "a CPU runs no work groups");
}

/// Whether a matrix operation takes values of this type.
fn has_core(renderer: &Renderer, dtype: ScalarDType) -> bool {
    renderer.tensor_cores.iter().any(|tc| tc.dtype_in == dtype)
}

/// bf16, `m16n8k16` and the s8 `m16n8k32` fragment, plus every capability the
/// compute version gates. The byte-wide core is pinned to the RDNA3 dtype pair.
#[test]
fn for_cuda_arch_follows_capability() {
    for (major, minor, device, tensor_cores, bf16, fp8, int8) in [
        (7, 0, RendererDevice::CudaSm75, 0, false, false, false),
        (7, 5, RendererDevice::CudaSm75, 2, false, false, false),
        (8, 0, RendererDevice::CudaSm80, 6, true, false, true),
        (8, 6, RendererDevice::CudaSm80, 6, true, false, true),
        (8, 9, RendererDevice::CudaSm80, 6, true, false, true),
        (9, 0, RendererDevice::CudaSm80, 6, true, false, true),
        (12, 0, RendererDevice::CudaSm80, 6, true, false, true),
    ] {
        let arch = CudaArch::from_compute_capability(major, minor);
        let renderer = Renderer::for_cuda_arch(arch, &reported());
        assert_eq!(renderer.device, device);
        assert_eq!(renderer.tensor_cores.len(), tensor_cores);
        assert_eq!(renderer.target.as_deref(), Some(arch.to_string().as_str()));
        assert_eq!(renderer.supports_storage_dtype(ScalarDType::BFloat16), bf16);
        assert_eq!(has_core(&renderer, ScalarDType::BFloat16), bf16 && tensor_cores > 0);
        assert!(renderer.supports_storage_dtype(ScalarDType::Int8));
        assert_eq!(has_core(&renderer, ScalarDType::Int8), int8);

        let int8_cores: Vec<_> = renderer.tensor_cores.iter().filter(|tc| tc.dtype_in == ScalarDType::Int8).collect();
        assert_eq!(int8_cores.len(), usize::from(int8));
        if let Some(tc) = int8_cores.first() {
            assert_eq!((tc.dims, tc.dtype_out), ((8, 16, 32), ScalarDType::Int32), "the byte-wide m16n8k32 fragment");
            let rdna3 = Renderer::amd_rdna3(&reported());
            assert!(
                rdna3.tensor_cores.iter().any(|amd| (amd.dtype_in, amd.dtype_out) == (tc.dtype_in, tc.dtype_out)),
                "CUDA int8 core must share the RDNA3 dtype pair"
            );
        }
        assert_eq!(renderer.supports_storage_dtype(ScalarDType::FP8E4M3), fp8);
        for dtype in [
            ScalarDType::FP8E4M3,
            ScalarDType::FP8E5M2,
            ScalarDType::FP8E4M3FNUZ,
            ScalarDType::FP8E5M2FNUZ,
        ] {
            assert!(!has_core(&renderer, dtype));
        }
        assert!(!renderer.supports_storage_dtype(ScalarDType::FP8E4M3FNUZ));
        assert!(!has_core(&renderer, ScalarDType::Float32), "no tf32 unless allowed");
        assert!(renderer.tensor_cores.iter().all(|tc| (tc.dims.0, tc.dims.1) == (8, 16)));
    }
}

#[test]
fn sm80_cores_are_in_their_order() {
    let cores = Renderer::cuda(&reported()).tensor_cores;
    let shown: Vec<_> = cores.iter().map(|core| (core.dims.2, core.dtype_in, core.dtype_out)).collect();
    assert_eq!(
        shown,
        vec![
            (16, ScalarDType::Float16, ScalarDType::Float32),
            (16, ScalarDType::BFloat16, ScalarDType::Float32),
            (16, ScalarDType::Float16, ScalarDType::Float16),
            (8, ScalarDType::Float16, ScalarDType::Float32),
            (8, ScalarDType::Float16, ScalarDType::Float16),
            (32, ScalarDType::Int8, ScalarDType::Int32),
        ]
    );
}

/// CDNA and RDNA4 store OCP FP8 natively but not the FNUZ encodings; RDNA3 renders
/// none of them. Only CDNA has an FP8 matrix core.
#[test]
fn amd_fp8_dtype_capabilities_are_arch_specific() {
    for (arch, dtype, supported, matrix) in [
        (AmdArch::Gfx942, ScalarDType::FP8E4M3, true, true),
        (AmdArch::Gfx942, ScalarDType::FP8E4M3FNUZ, false, false),
        (AmdArch::Gfx1151, ScalarDType::FP8E4M3, false, false),
        (AmdArch::Gfx1201, ScalarDType::FP8E4M3, true, false),
        (AmdArch::Gfx1201, ScalarDType::FP8E5M2, true, false),
        (AmdArch::Gfx1201, ScalarDType::FP8E5M2FNUZ, false, false),
    ] {
        let renderer = Renderer::for_amd_arch(arch, &reported());
        assert_eq!(renderer.supports_storage_dtype(dtype), supported, "{} storage", arch.mcpu());
        assert_eq!(has_core(&renderer, dtype), matrix, "{} matrix operand", arch.mcpu());
    }
}

/// The profile names the codegen binding per backend family, and the matcher
/// identities are part of the cache key. Every row also pins the `target` the
/// binding takes from the code renderer, since it is the rest of the cache key.
#[test]
fn with_codegen_renderer_names_the_profiles() {
    for (renderer, decomposition, extra) in [
        (Renderer::cpu(&reported()), "backend-decomposition-v1", "llvm-cpu-extra-v1"),
        (Renderer::amd_rdna3(&reported()), "amd-decomposition-v1", "llvm-amd-fp8-extra-v1"),
        (Renderer::amd_cdna4(&reported()), "amd-decomposition-v1", "llvm-amd-fp8-extra-v1"),
        (Renderer::metal(&reported()), "backend-decomposition-v1", "backend-extra-v1"),
        (Renderer::cuda_sm75(&reported()), "nvptx-decomposition-v1", "llvm-nvptx-extra-v1"),
        (Renderer::cuda(&reported()), "nvptx-decomposition-v1", "llvm-nvptx-extra-v1"),
        (Renderer::cuda_sm89(&reported()), "nvptx-decomposition-v1", "llvm-nvptx-extra-v1"),
    ] {
        let arch = CudaArch::from_compute_capability(8, 6);
        let bound = renderer.with_codegen_renderer(Some(arch.to_string()), all_ops());
        assert_eq!(bound.decomposition_profile, decomposition);
        assert_eq!(bound.extra_profile, extra);
        assert_eq!(bound.target.as_deref(), Some("sm_86"));
        assert_eq!(bound.renderer_ops, Some(all_ops()));
        assert_ne!(bound.cache_fingerprint(), Renderer::for_cuda_arch(arch, &reported()).cache_fingerprint());
    }
    assert_eq!(Renderer::cpu(&reported()).with_codegen_renderer(None, all_ops()).target, None);
}

#[test]
fn devices_are_optimized_for_their_architecture() {
    let renderer_for = |device: DeviceSpec, arch, target: Option<&str>| {
        get_optimizer_renderer(&device, arch, target.map(|text| text.to_string()), all_ops(), &reported())
    };
    let sm75 = CudaArch::from_compute_capability(7, 5);
    let cuda = renderer_for(DeviceSpec::Cuda { device_id: 1 }, Some(GpuArch::Cuda(sm75)), None);
    assert_eq!((cuda.device, cuda.target.as_deref()), (RendererDevice::CudaSm75, Some("sm_75")));

    let other = renderer_for(DeviceSpec::Cuda { device_id: 0 }, Some(GpuArch::Amd(AmdArch::Gfx942)), None);
    assert_eq!((other.device, other.target), (RendererDevice::CudaSm80, None));

    let amd = renderer_for(DeviceSpec::Amd { device_id: 0 }, None, Some("gfx1103"));
    assert_eq!((amd.device, amd.target.as_deref()), (RendererDevice::AmdRdna3, Some("gfx1103")));

    let family = GpuArch::Metal(MetalFamily::Apple(8));
    let metal = renderer_for(DeviceSpec::Metal { device_id: 0 }, Some(family), None);
    assert_eq!(metal.target, Some(MetalFamily::Apple(8).to_string()));

    let disk = renderer_for(DeviceSpec::Disk { path: "w".to_string() }, None, None);
    assert_eq!(disk, Renderer::cpu(&reported()).with_codegen_renderer(None, all_ops()));
    assert_eq!(renderer_for(DeviceSpec::WebGpu, None, None), disk);
}

#[test]
fn storage_support_follows_the_device() {
    let sm75 = Some(CudaArch::from_compute_capability(7, 5));
    let sm90 = Some(CudaArch::from_compute_capability(9, 0));
    let cuda = DeviceSpec::Cuda { device_id: 0 };
    let metal = DeviceSpec::Metal { device_id: 0 };
    let supports = |spec: &DeviceSpec, dtype, arch| device_supports_storage_dtype(spec, dtype, arch, &reported());
    assert!(!supports(&cuda, ScalarDType::BFloat16, sm75));
    assert!(supports(&cuda, ScalarDType::BFloat16, sm90));
    assert!(supports(&cuda, ScalarDType::BFloat16, None));
    assert!(supports(&cuda, ScalarDType::Int8, sm75));
    assert!(!supports(&metal, ScalarDType::Float64, None));
    assert!(!supports(&DeviceSpec::WebGpu, ScalarDType::Float64, None));
    assert!(supports(&DeviceSpec::Cpu, ScalarDType::Float64, None));
    assert!(supports(&DeviceSpec::Disk { path: String::new() }, ScalarDType::Float64, None));
    assert!(supports(&metal, ScalarDType::Float16, None), "reported");
    assert!(!supports(&metal, ScalarDType::BFloat16, None), "not reported");
    assert!(!supports(&DeviceSpec::Amd { device_id: 0 }, ScalarDType::FP8E4M3, None));
}

#[test]
fn hashes_are_stable_and_follow_the_words() {
    assert_eq!(hash_of_words(&vec![1, 2, 3]), hash_of_words(&vec![1, 2, 3]));
    assert_ne!(hash_of_words(&vec![1, 2, 3]), hash_of_words(&vec![1, 3, 2]));
    assert_ne!(hash_of_words(&vec![]), hash_of_words(&vec![0]));
}

#[test]
fn architectures_have_their_names() {
    assert_eq!(CudaArch::from_compute_capability(12, 0).to_string(), "sm_120");
    assert_eq!(AmdArch::Gfx1151.mcpu(), "gfx1151");
    assert_eq!(AmdArch::from_gfx_target_version(90402), Some(AmdArch::Gfx942));
    assert_eq!(AmdArch::from_gfx_target_version(90500), Some(AmdArch::Gfx950));
    assert_eq!(AmdArch::from_gfx_target_version(110000), Some(AmdArch::Gfx1100));
    assert_eq!(AmdArch::from_gfx_target_version(110501), Some(AmdArch::Gfx1151));
    assert_eq!(AmdArch::from_gfx_target_version(120001), Some(AmdArch::Gfx1201));
    assert_eq!(AmdArch::from_gfx_target_version(0), None);
    let arch = CudaArch::from_compute_capability(8, 6);
    assert_eq!(GpuArch::Cuda(arch).cuda(), Some(arch));
    assert_eq!(GpuArch::Cuda(arch).amd(), None);
    assert_eq!(GpuArch::Metal(MetalFamily::Mac2).metal(), Some(MetalFamily::Mac2));
    assert_eq!(GpuArch::Amd(AmdArch::Gfx942).amd(), Some(AmdArch::Gfx942));
}
