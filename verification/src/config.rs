//! The settings under which tensors are prepared and realized.

use vstd::prelude::*;

use crate::device::{AmdArch, CudaArch, DeviceSpec, GpuArch, ScalarDType};
use crate::kernels::OptimizerConfig;
use crate::renderer::{cuda_family, family_stores, lemma_stored, Renderer, RendererDevice, Reported};

verus! {

/// How buffers are packed into allocations.
#[derive(Clone, Copy, Debug, PartialEq, Eq, Structural)]
pub enum PlannerMode {
    /// Into one or two large allocations.
    Arena,
    /// By reusing whole allocations.
    Remap,
    Disabled,
}

/// The compilers for CPU kernels.
#[derive(Clone, Copy, Debug, PartialEq, Eq, Structural)]
pub enum CpuBackend {
    Clang,
    Llvm,
}

/// How a device is found: by the factories of the process, or with a CPU
/// compiler of the caller's choice.
#[derive(Clone, Copy, Debug, PartialEq, Eq, Structural)]
pub enum DeviceResolver {
    Env,
    CpuBackend(CpuBackend),
}

/// Where a device comes from.
#[derive(Clone, Copy, Debug, PartialEq, Eq, Structural)]
pub enum DeviceSource {
    /// The factories of the process.
    Factories,
    /// A CPU with this compiler.
    Cpu(CpuBackend),
}

/// The settings under which tensors are prepared: those of the optimizer, and
/// which devices are used.
#[derive(Debug, PartialEq, Eq)]
pub struct PrepareConfig {
    pub optimizer: OptimizerConfig,
    pub resolver: DeviceResolver,
    pub planner_mode: PlannerMode,
    /// Whether schedules are made anew even where one is cached.
    pub disable_schedule_cache: bool,
    /// Whether outputs are allocated out of the host's reach, where the device
    /// can.
    pub device_local_outputs: bool,
    /// The number of threads to compile and run on; 1 compiles in schedule
    /// order.
    pub threads: usize,
}

/// What the process's environment says.
#[derive(Debug, PartialEq, Eq)]
pub struct Environment {
    pub optimizer: OptimizerConfig,
    pub planner_mode: PlannerMode,
    pub threads: usize,
    pub default_device: DeviceSpec,
    /// The architecture of the default device, where it could be opened.
    pub gpu_arch: Option<GpuArch>,
    /// Whether there is an Apple GPU.
    pub metal_present: bool,
}

/// The settings that an environment gives, with devices found by `resolver`.
pub open spec fn config_of(environment: Environment, resolver: DeviceResolver) -> PrepareConfig {
    PrepareConfig {
        optimizer: environment.optimizer,
        resolver,
        planner_mode: environment.planner_mode,
        disable_schedule_cache: false,
        device_local_outputs: false,
        threads: environment.threads,
    }
}

impl PrepareConfig {
    /// The settings of the environment.
    pub fn from_env(environment: Environment) -> (config: PrepareConfig)
        ensures
            config == config_of(environment, DeviceResolver::Env),
    {
        PrepareConfig {
            optimizer: environment.optimizer,
            resolver: DeviceResolver::Env,
            planner_mode: environment.planner_mode,
            disable_schedule_cache: false,
            device_local_outputs: false,
            threads: environment.threads,
        }
    }

    /// The settings of the environment, with this optimizer's.
    pub fn with_optimizer(optimizer: OptimizerConfig, planner_mode: PlannerMode, threads: usize) -> (config:
        PrepareConfig)
        ensures
            config == (PrepareConfig {
                optimizer,
                resolver: DeviceResolver::Env,
                planner_mode,
                disable_schedule_cache: false,
                device_local_outputs: false,
                threads,
            }),
    {
        PrepareConfig {
            optimizer,
            resolver: DeviceResolver::Env,
            planner_mode,
            disable_schedule_cache: false,
            device_local_outputs: false,
            threads,
        }
    }

    /// The settings of the environment, with this CPU compiler.
    pub fn for_cpu_backend(backend: CpuBackend, environment: Environment) -> (config: PrepareConfig)
        ensures
            config == config_of(environment, DeviceResolver::CpuBackend(backend)),
    {
        PrepareConfig {
            optimizer: environment.optimizer,
            resolver: DeviceResolver::CpuBackend(backend),
            planner_mode: environment.planner_mode,
            disable_schedule_cache: false,
            device_local_outputs: false,
            threads: environment.threads,
        }
    }

    /// The settings of the environment, where its default device is an AMD GPU
    /// of a known kind.
    pub fn for_amd_if_available(environment: Environment) -> (config: Option<PrepareConfig>)
        ensures
            config == if environment.default_device is Amd && environment.gpu_arch matches Some(GpuArch::Amd(_)) {
                Some(config_of(environment, DeviceResolver::Env))
            } else {
                None
            },
    {
        match (&environment.default_device, environment.gpu_arch) {
            (DeviceSpec::Amd { .. }, Some(GpuArch::Amd(_))) => Some(PrepareConfig::from_env(environment)),
            _ => None,
        }
    }

    /// The settings of the environment, where its default device is an Apple GPU
    /// and there is one.
    pub fn for_metal_if_available(environment: Environment) -> (config: Option<PrepareConfig>)
        ensures
            config == if environment.default_device is Metal && environment.metal_present {
                Some(config_of(environment, DeviceResolver::Env))
            } else {
                None
            },
    {
        match (&environment.default_device, environment.metal_present) {
            (DeviceSpec::Metal { .. }, true) => Some(PrepareConfig::from_env(environment)),
            _ => None,
        }
    }

    /// The settings of the environment, where its default device is an NVIDIA
    /// GPU that could be opened.
    pub fn for_cuda_if_available(environment: Environment) -> (config: Option<PrepareConfig>)
        ensures
            config == if environment.default_device is Cuda && environment.gpu_arch matches Some(GpuArch::Cuda(_)) {
                Some(config_of(environment, DeviceResolver::Env))
            } else {
                None
            },
    {
        match (&environment.default_device, environment.gpu_arch) {
            (DeviceSpec::Cuda { .. }, Some(GpuArch::Cuda(_))) => Some(PrepareConfig::from_env(environment)),
            _ => None,
        }
    }

    /// Where a device comes from: a CPU with the caller's compiler where one was
    /// chosen, and the factories for all else.
    pub fn resolve_device(&self, spec: &DeviceSpec) -> (source: DeviceSource)
        ensures
            source == match (self.resolver, *spec) {
                (DeviceResolver::CpuBackend(backend), DeviceSpec::Cpu) => DeviceSource::Cpu(backend),
                _ => DeviceSource::Factories,
            },
    {
        match (self.resolver, spec) {
            (DeviceResolver::CpuBackend(backend), DeviceSpec::Cpu) => DeviceSource::Cpu(backend),
            _ => DeviceSource::Factories,
        }
    }

    /// Whether schedules are cached: neither these settings nor the environment
    /// say otherwise.
    pub fn caches_schedules(&self, disabled_by_env: bool) -> (cached: bool)
        ensures
            cached == (!self.disable_schedule_cache && !disabled_by_env),
    {
        !self.disable_schedule_cache && !disabled_by_env
    }
}

/// The family whose profile tells what a device can hold.
pub open spec fn storage_family(spec: DeviceSpec, cuda_arch: Option<CudaArch>) -> RendererDevice {
    match spec {
        DeviceSpec::Cpu | DeviceSpec::Disk { .. } => RendererDevice::Cpu,
        DeviceSpec::Cuda { .. } => match cuda_arch {
            Some(arch) => cuda_family(arch),
            None => RendererDevice::CudaSm80,
        },
        DeviceSpec::Amd { .. } => RendererDevice::AmdRdna3,
        DeviceSpec::Metal { .. } => RendererDevice::Metal,
        DeviceSpec::WebGpu => RendererDevice::WebGpu,
    }
}

/// Whether a device can hold buffers of `dtype`: for an NVIDIA GPU by the
/// compute capability of the opened one, for others by their family, and where
/// that leaves it open, by what the optimizer reports.
pub fn device_supports_storage_dtype(
    spec: &DeviceSpec,
    dtype: ScalarDType,
    cuda_arch: Option<CudaArch>,
    reported: &Reported,
) -> (supported: bool)
    ensures
        supported == family_stores(storage_family(*spec, cuda_arch), dtype, *reported),
{
    let profile = match spec {
        DeviceSpec::Cpu | DeviceSpec::Disk { .. } => Renderer::cpu(reported),
        DeviceSpec::Cuda { .. } => match cuda_arch {
            Some(arch) => Renderer::for_cuda_arch(arch, reported),
            None => Renderer::cuda(reported),
        },
        DeviceSpec::Amd { .. } => Renderer::amd_rdna3(reported),
        DeviceSpec::Metal { .. } => Renderer::metal(reported),
        DeviceSpec::WebGpu => Renderer::webgpu(reported),
    };
    proof {
        lemma_stored(storage_family(*spec, cuda_arch), *reported, dtype);
    }
    profile.supports_storage_dtype(dtype)
}

/// The kind of the first GPU, by the versions that the driver reports of its
/// GPUs, where there is one and its kind is known. A known kind further on says
/// nothing of the first.
pub fn amd_test_arch(versions: &Vec<u32>) -> (arch: Option<AmdArch>)
    ensures
        match arch {
            Some(arch) => versions@.len() > 0 && versions@[0] == arch.gfx_target_version(),
            None => versions@.len() == 0 || forall|arch: AmdArch| #[trigger] arch.gfx_target_version() != versions@[0],
        },
{
    if versions.len() == 0 {
        return None;
    }
    AmdArch::from_gfx_target_version(versions[0])
}

/// The compute capability of the first NVIDIA GPU, where there is a GPU and it
/// could be opened.
pub fn cuda_test_arch(has_devices: bool, resolved: Option<CudaArch>) -> (arch: Option<CudaArch>)
    ensures
        arch == if has_devices {
            resolved
        } else {
            None
        },
{
    if has_devices { resolved } else { None }
}

} // verus!
