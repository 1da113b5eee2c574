use svod_tensor::config::{
    amd_test_arch, cuda_test_arch, CpuBackend, DeviceResolver, DeviceSource, Environment, PlannerMode, PrepareConfig,
};
use svod_tensor::device::{AmdArch, CudaArch, DeviceSpec, GpuArch};
use svod_tensor::kernels::{OptStrategy, OptimizerConfig};
use svod_tensor::worker::BeamConfig;

fn optimizer() -> OptimizerConfig {
    OptimizerConfig {
        strategy: OptStrategy::Heuristic,
        opts_to_apply: None,
        heuristics: 0,
        beam: BeamConfig {
            beam_width: 4,
            max_upcast: 256,
            max_local: 1024,
            max_uops: 3000,
            min_progress_ns: 10,
            enable_nolocals: false,
            compile_timeout_secs: 10,
            num_runs: 3,
            compile_workers: 0,
            max_tasks_per_child: 16,
            disable_cache: false,
        },
        transcendental: 1,
        disable_fast_idiv: false,
    }
}

fn environment(default_device: DeviceSpec, gpu_arch: Option<GpuArch>, metal_present: bool) -> Environment {
    Environment {
        optimizer: optimizer(),
        planner_mode: PlannerMode::Remap,
        threads: 6,
        default_device,
        gpu_arch,
        metal_present,
    }
}

#[test]
fn settings_come_from_the_environment() {
    let config = PrepareConfig::from_env(environment(DeviceSpec::Cpu, None, false));
    assert_eq!((config.planner_mode, config.threads), (PlannerMode::Remap, 6));
    assert_eq!((config.disable_schedule_cache, config.device_local_outputs), (false, false));
    assert_eq!(config.optimizer, optimizer());
    assert_eq!(PrepareConfig::with_optimizer(optimizer(), PlannerMode::Remap, 6), config);
}

#[test]
fn a_chosen_compiler_serves_the_cpu_alone() {
    let environment = || environment(DeviceSpec::Cpu, None, false);
    let chosen = PrepareConfig::for_cpu_backend(CpuBackend::Llvm, environment());
    assert_eq!(chosen.resolver, DeviceResolver::CpuBackend(CpuBackend::Llvm));
    assert_eq!(chosen.resolve_device(&DeviceSpec::Cpu), DeviceSource::Cpu(CpuBackend::Llvm));
    assert_eq!(chosen.resolve_device(&DeviceSpec::Metal { device_id: 0 }), DeviceSource::Factories);
    assert_eq!(PrepareConfig::from_env(environment()).resolve_device(&DeviceSpec::Cpu), DeviceSource::Factories);
}

#[test]
fn gpu_settings_need_their_gpu() {
    let amd = || DeviceSpec::Amd { device_id: 0 };
    let cuda = || DeviceSpec::Cuda { device_id: 0 };
    let metal = || DeviceSpec::Metal { device_id: 0 };
    let gfx = Some(GpuArch::Amd(AmdArch::Gfx1100));
    let sm80 = Some(GpuArch::Cuda(CudaArch::from_compute_capability(8, 0)));
    let present = |default, arch, apple| {
        (
            PrepareConfig::for_amd_if_available(environment(default, arch, apple)).is_some(),
            arch,
        )
    };
    assert!(present(amd(), gfx, false).0);
    assert!(!present(amd(), None, false).0);
    assert!(!present(amd(), sm80, false).0);
    assert!(!present(DeviceSpec::Cpu, gfx, false).0);
    assert!(PrepareConfig::for_cuda_if_available(environment(cuda(), sm80, false)).is_some());
    assert!(PrepareConfig::for_cuda_if_available(environment(cuda(), None, false)).is_none());
    assert!(PrepareConfig::for_cuda_if_available(environment(amd(), gfx, false)).is_none());
    let found = PrepareConfig::for_metal_if_available(environment(metal(), None, true));
    assert_eq!(found, Some(PrepareConfig::from_env(environment(metal(), None, true))));
    assert!(PrepareConfig::for_metal_if_available(environment(metal(), None, false)).is_none());
    assert!(PrepareConfig::for_metal_if_available(environment(DeviceSpec::Cpu, None, true)).is_none());
}

#[test]
fn schedules_are_cached_unless_something_says_otherwise() {
    let mut config = PrepareConfig::from_env(environment(DeviceSpec::Cpu, None, false));
    assert!(config.caches_schedules(false));
    assert!(!config.caches_schedules(true));
    config.disable_schedule_cache = true;
    assert!(!config.caches_schedules(false));
}

#[test]
fn test_hosts_are_known_by_their_first_gpu() {
    assert_eq!(amd_test_arch(&vec![110501, 90402]), Some(AmdArch::Gfx1151));
    assert_eq!(amd_test_arch(&vec![100300, 110000]), None, "the first GPU is of no known kind");
    assert_eq!(amd_test_arch(&vec![100300]), None);
    assert_eq!(amd_test_arch(&vec![]), None);
    let arch = CudaArch::from_compute_capability(9, 0);
    assert_eq!(cuda_test_arch(true, Some(arch)), Some(arch));
    assert_eq!(cuda_test_arch(true, None), None);
    assert_eq!(cuda_test_arch(false, Some(arch)), None);
}
