//! The capabilities of the targets that kernels are optimized for.
//!
//! What a family of targets has in common is known here: its memory, its waves,
//! its matrix units where they are settled, and the rewrites that its code
//! generator asks for. What else there is to say of a target, the optimizer
//! reports.

use std::collections::hash_map::DefaultHasher;
use std::hash::Hasher;

use vstd::prelude::*;
use vstd::std_specs::hash::DefaultHasherAdditionalSpecFns;
use vstd::string::*;

use crate::device::{AmdArch, CudaArch, DeviceSpec, GpuArch, MetalFamily, ScalarDType};
use crate::opt::{word_bytes, words_to_bytes};
use crate::schedule::{copy_u64s, copy_usizes};

verus! {

/// The families of targets that share an optimizer profile.
#[derive(Clone, Copy, Debug, PartialEq, Eq, Structural)]
pub enum RendererDevice {
    Cpu,
    CudaSm75,
    CudaSm80,
    CudaSm89,
    Metal,
    AmdRdna3,
    AmdRdna4,
    AmdCdna3,
    AmdCdna4,
    IntelXe,
    WebGpu,
}

/// A matrix unit: the extents of the product that it computes at once, and the
/// element types of its operands and of its sums.
#[derive(Clone, Copy, Debug, PartialEq, Eq)]
pub struct TensorCore {
    pub dims: (usize, usize, usize),
    pub dtype_in: ScalarDType,
    pub dtype_out: ScalarDType,
}

/// What the optimizer reports of a target, beyond what is known of its family.
#[derive(Debug, PartialEq, Eq)]
pub struct Reported {
    /// Whether single-precision products may be computed at a lower precision.
    pub allow_tf32: bool,
    /// The greatest launch along each axis, and in all.
    pub global_max: Option<Vec<usize>>,
    pub global_prod_max: Option<usize>,
    /// The greatest work group, on a target that runs any.
    pub local_max: Option<usize>,
    /// The most values that one thread computes.
    pub upcast_max: usize,
    /// The most buffers that a kernel takes.
    pub buffer_max: Option<usize>,
    /// Whether four values can be loaded at once.
    pub supports_float4: bool,
    /// The element types that buffers can have, where the family leaves it open.
    pub storage: Vec<ScalarDType>,
    /// The matrix units, where the family leaves them open.
    pub tensor_cores: Vec<TensorCore>,
}

/// The operations that a code generator renders, by their numbers; the others
/// are decomposed first.
#[derive(Debug, PartialEq, Eq)]
pub struct RendererOps {
    pub unary: Vec<u64>,
    pub binary: Vec<u64>,
    pub ternary: Vec<u64>,
}

/// What the optimizer knows of a target.
#[derive(Debug, PartialEq, Eq)]
pub struct Renderer {
    pub device: RendererDevice,
    /// The exact target, where it is known.
    pub target: Option<String>,
    /// Whether the target runs work groups.
    pub has_local: bool,
    /// Whether a work group shares memory.
    pub has_shared: bool,
    /// Whether kernels are split over CPU threads.
    pub has_threads: bool,
    /// The memory that a work group shares, in bytes.
    pub shared_max: usize,
    /// The greatest launch along each axis, and in all.
    pub global_max: Option<Vec<usize>>,
    pub global_prod_max: Option<usize>,
    /// The greatest work group.
    pub local_max: Option<usize>,
    /// The most values that one thread computes.
    pub upcast_max: usize,
    /// The most buffers that a kernel takes.
    pub buffer_max: Option<usize>,
    /// Whether four values can be loaded at once.
    pub supports_float4: bool,
    /// The element types that buffers can have.
    pub supported_dtypes: Vec<ScalarDType>,
    /// The matrix units that the code generator can use.
    pub tensor_cores: Vec<TensorCore>,
    /// The operations that the bound code generator renders.
    pub renderer_ops: Option<RendererOps>,
    /// The rewrites that the bound code generator asks for.
    pub decomposition_profile: String,
    pub extra_profile: String,
}

/// A limit that no launch reaches.
pub const UNBOUNDED: usize = 0x8fff_ffff;

// ---------------------------------------------------------------------------
// Families
// ---------------------------------------------------------------------------

/// Whether a family runs work groups, shares memory in them and splits kernels
/// over threads, and the bytes that a work group shares.
pub open spec fn family_limits(device: RendererDevice) -> (bool, bool, bool, usize) {
    match device {
        RendererDevice::Cpu => (false, false, true, 0),
        RendererDevice::CudaSm75 | RendererDevice::CudaSm80 | RendererDevice::CudaSm89 => (true, true, false, 49152),
        RendererDevice::Metal => (true, true, false, 32768),
        RendererDevice::AmdRdna3 | RendererDevice::AmdRdna4 | RendererDevice::AmdCdna3 | RendererDevice::AmdCdna4
        | RendererDevice::IntelXe => (true, true, false, 65536),
        RendererDevice::WebGpu => (true, true, false, 16384),
    }
}

/// A matrix unit by its extents and element types.
pub open spec fn unit(dims: (usize, usize, usize), dtype_in: ScalarDType, dtype_out: ScalarDType) -> TensorCore {
    TensorCore { dims, dtype_in, dtype_out }
}

/// The matrix unit that rounds its operands to 19 bits.
pub open spec fn tf32_core() -> TensorCore {
    unit((8, 16, 8), ScalarDType::Float32, ScalarDType::Float32)
}

/// The matrix units of a family, the preferred ones first; those that round
/// their operands only where that is allowed. Some families leave them open.
pub open spec fn family_cores(device: RendererDevice, reported: Reported) -> Seq<TensorCore> {
    match device {
        RendererDevice::CudaSm89 | RendererDevice::IntelXe | RendererDevice::WebGpu => reported.tensor_cores@,
        RendererDevice::CudaSm80 => settled_cores(device) + if reported.allow_tf32 {
            seq![tf32_core()]
        } else {
            seq![]
        },
        _ => settled_cores(device),
    }
}

/// The matrix units that a family always has.
pub open spec fn settled_cores(device: RendererDevice) -> Seq<TensorCore> {
    match device {
        RendererDevice::Cpu | RendererDevice::CudaSm89 | RendererDevice::IntelXe | RendererDevice::WebGpu => seq![],
        RendererDevice::CudaSm75 => seq![
            unit((8, 16, 8), ScalarDType::Float16, ScalarDType::Float32),
            unit((8, 16, 8), ScalarDType::Float16, ScalarDType::Float16),
        ],
        RendererDevice::CudaSm80 => seq![
            unit((8, 16, 16), ScalarDType::Float16, ScalarDType::Float32),
            unit((8, 16, 16), ScalarDType::BFloat16, ScalarDType::Float32),
            unit((8, 16, 16), ScalarDType::Float16, ScalarDType::Float16),
            unit((8, 16, 8), ScalarDType::Float16, ScalarDType::Float32),
            unit((8, 16, 8), ScalarDType::Float16, ScalarDType::Float16),
            unit((8, 16, 32), ScalarDType::Int8, ScalarDType::Int32),
        ],
        RendererDevice::Metal => seq![
            unit((8, 8, 8), ScalarDType::Float32, ScalarDType::Float32),
            unit((8, 8, 8), ScalarDType::Float16, ScalarDType::Float32),
            unit((8, 8, 8), ScalarDType::Float16, ScalarDType::Float16),
            unit((8, 8, 8), ScalarDType::BFloat16, ScalarDType::Float32),
            unit((8, 8, 8), ScalarDType::BFloat16, ScalarDType::BFloat16),
        ],
        RendererDevice::AmdRdna3 => seq![
            unit((16, 16, 16), ScalarDType::Float16, ScalarDType::Float32),
            unit((16, 16, 16), ScalarDType::Float16, ScalarDType::Float16),
            unit((16, 16, 16), ScalarDType::BFloat16, ScalarDType::Float32),
            unit((16, 16, 16), ScalarDType::Int8, ScalarDType::Int32),
        ],
        RendererDevice::AmdRdna4 => seq![
            unit((16, 16, 16), ScalarDType::Float16, ScalarDType::Float32),
            unit((16, 16, 16), ScalarDType::Float16, ScalarDType::Float16),
            unit((16, 16, 16), ScalarDType::BFloat16, ScalarDType::Float32),
            unit((16, 16, 16), ScalarDType::BFloat16, ScalarDType::BFloat16),
            unit((16, 16, 16), ScalarDType::Int8, ScalarDType::Int32),
        ],
        RendererDevice::AmdCdna3 => seq![
            unit((16, 16, 32), ScalarDType::FP8E5M2, ScalarDType::Float32),
            unit((16, 16, 32), ScalarDType::FP8E4M3, ScalarDType::Float32),
            unit((16, 16, 16), ScalarDType::Float16, ScalarDType::Float32),
            unit((16, 16, 16), ScalarDType::BFloat16, ScalarDType::Float32),
        ],
        RendererDevice::AmdCdna4 => seq![
            unit((16, 16, 128), ScalarDType::FP8E5M2, ScalarDType::Float32),
            unit((16, 16, 128), ScalarDType::FP8E4M3, ScalarDType::Float32),
            unit((16, 16, 32), ScalarDType::FP8E5M2, ScalarDType::Float32),
            unit((16, 16, 32), ScalarDType::FP8E4M3, ScalarDType::Float32),
            unit((16, 16, 32), ScalarDType::Float16, ScalarDType::Float32),
            unit((16, 16, 32), ScalarDType::BFloat16, ScalarDType::Float32),
            unit((16, 16, 16), ScalarDType::Float16, ScalarDType::Float32),
            unit((16, 16, 16), ScalarDType::BFloat16, ScalarDType::Float32),
        ],
    }
}

/// The family of an NVIDIA GPU.
pub open spec fn cuda_family(arch: CudaArch) -> RendererDevice {
    if arch.major >= 8 {
        RendererDevice::CudaSm80
    } else {
        RendererDevice::CudaSm75
    }
}

/// The family of an AMD GPU.
pub open spec fn amd_family(arch: AmdArch) -> RendererDevice {
    match arch {
        AmdArch::Gfx942 => RendererDevice::AmdCdna3,
        AmdArch::Gfx950 => RendererDevice::AmdCdna4,
        AmdArch::Gfx1100 | AmdArch::Gfx1151 => RendererDevice::AmdRdna3,
        AmdArch::Gfx1201 => RendererDevice::AmdRdna4,
    }
}

/// Whether a family can hold buffers of `dtype`, where that is settled. There
/// are no doubles under Metal and WebGPU, and there are on CPUs, NVIDIA and AMD
/// GPUs. NVIDIA GPUs hold bytes, bfloat16 from compute capability 8.0 on and no
/// 8-bit floats. AMD's CDNA and RDNA4 GPUs hold the standard 8-bit floats and not
/// their other encodings; RDNA3 GPUs hold neither.
pub open spec fn settled_storage(device: RendererDevice, dtype: ScalarDType) -> Option<bool> {
    match device {
        RendererDevice::Cpu => match dtype {
            ScalarDType::Float64 => Some(true),
            _ => None,
        },
        RendererDevice::Metal | RendererDevice::WebGpu => match dtype {
            ScalarDType::Float64 => Some(false),
            _ => None,
        },
        RendererDevice::CudaSm75 | RendererDevice::CudaSm80 => match dtype {
            ScalarDType::Float64 | ScalarDType::Int8 => Some(true),
            ScalarDType::BFloat16 => Some(device == RendererDevice::CudaSm80),
            ScalarDType::FP8E4M3 | ScalarDType::FP8E5M2 | ScalarDType::FP8E4M3FNUZ | ScalarDType::FP8E5M2FNUZ =>
                Some(false),
            _ => None,
        },
        RendererDevice::AmdRdna3 | RendererDevice::AmdRdna4 | RendererDevice::AmdCdna3 | RendererDevice::AmdCdna4 =>
            match dtype {
            ScalarDType::Float64 => Some(true),
            ScalarDType::FP8E4M3 | ScalarDType::FP8E5M2 => Some(device != RendererDevice::AmdRdna3),
            ScalarDType::FP8E4M3FNUZ | ScalarDType::FP8E5M2FNUZ => Some(false),
            _ => None,
        },
        RendererDevice::CudaSm89 | RendererDevice::IntelXe => None,
    }
}

/// Whether a target can hold buffers of `dtype`: as its family settles it, else
/// as the optimizer reports.
pub open spec fn family_stores(device: RendererDevice, dtype: ScalarDType, reported: Reported) -> bool {
    match settled_storage(device, dtype) {
        Some(stored) => stored,
        None => reported.storage@.contains(dtype),
    }
}

/// Every element type.
pub open spec fn all_dtypes() -> Seq<ScalarDType> {
    seq![
        ScalarDType::Bool,
        ScalarDType::Int8,
        ScalarDType::Int16,
        ScalarDType::Int32,
        ScalarDType::Int64,
        ScalarDType::UInt8,
        ScalarDType::UInt16,
        ScalarDType::UInt32,
        ScalarDType::UInt64,
        ScalarDType::Float16,
        ScalarDType::BFloat16,
        ScalarDType::Float32,
        ScalarDType::Float64,
        ScalarDType::FP8E4M3,
        ScalarDType::FP8E5M2,
        ScalarDType::FP8E4M3FNUZ,
        ScalarDType::FP8E5M2FNUZ,
    ]
}

/// Those of the first `k` element types that a target can hold.
pub open spec fn stored_dtypes(device: RendererDevice, reported: Reported, k: nat) -> Seq<ScalarDType>
    decreases k,
{
    if k == 0 {
        seq![]
    } else {
        let earlier = stored_dtypes(device, reported, (k - 1) as nat);
        if family_stores(device, all_dtypes()[k - 1], reported) {
            earlier.push(all_dtypes()[k - 1])
        } else {
            earlier
        }
    }
}

// ---------------------------------------------------------------------------
// Profiles
// ---------------------------------------------------------------------------

/// What tells targets apart: the family, the exact target where it is known,
/// the matrix units, and what the optimizer reports of the rest.
pub struct Profile {
    pub device: RendererDevice,
    pub target: Option<Seq<char>>,
    pub cores: Seq<TensorCore>,
    pub reported: Reported,
}

/// A family of which no exact target is known.
pub open spec fn family_profile(device: RendererDevice, reported: Reported) -> Profile {
    Profile { device, target: None, cores: family_cores(device, reported), reported }
}

/// The NVIDIA GPUs of a compute capability; there are matrix units from 7.5 on.
pub open spec fn cuda_profile(arch: CudaArch, reported: Reported) -> Profile {
    Profile {
        device: cuda_family(arch),
        target: Some(arch.target()),
        cores: if arch.major > 7 || (arch.major == 7 && arch.minor >= 5) {
            family_cores(cuda_family(arch), reported)
        } else {
            seq![]
        },
        reported,
    }
}

/// An AMD GPU.
pub open spec fn amd_profile(arch: AmdArch, reported: Reported) -> Profile {
    Profile {
        device: amd_family(arch),
        target: Some(arch.target()),
        cores: family_cores(amd_family(arch), reported),
        reported,
    }
}

/// The Apple GPUs of a family; there are matrix units from the seventh on.
pub open spec fn metal_profile(family: MetalFamily, reported: Reported) -> Profile {
    Profile {
        device: RendererDevice::Metal,
        target: Some(family.target()),
        cores: match family {
            MetalFamily::Apple(n) => if n >= 7 {
                family_cores(RendererDevice::Metal, reported)
            } else {
                seq![]
            },
            _ => seq![],
        },
        reported,
    }
}

/// A device, by its architecture where one of its kind is known. A device of no
/// known family is treated as a CPU.
pub open spec fn device_profile(device: DeviceSpec, gpu_arch: Option<GpuArch>, reported: Reported) -> Profile {
    match device {
        DeviceSpec::Cuda { .. } => match gpu_arch {
            Some(GpuArch::Cuda(arch)) => cuda_profile(arch, reported),
            _ => family_profile(RendererDevice::CudaSm80, reported),
        },
        DeviceSpec::Metal { .. } => match gpu_arch {
            Some(GpuArch::Metal(family)) => metal_profile(family, reported),
            _ => family_profile(RendererDevice::Metal, reported),
        },
        DeviceSpec::Amd { .. } => match gpu_arch {
            Some(GpuArch::Amd(arch)) => amd_profile(arch, reported),
            _ => family_profile(RendererDevice::AmdRdna3, reported),
        },
        _ => family_profile(RendererDevice::Cpu, reported),
    }
}

/// The same with the target that a code generator reports, if it reports one.
pub open spec fn retargeted(profile: Profile, target: Option<String>) -> Profile {
    match target {
        Some(target) => Profile { target: Some(target@), ..profile },
        None => profile,
    }
}

/// Two limits are the same.
pub open spec fn same_sizes(a: Option<Vec<usize>>, b: Option<Vec<usize>>) -> bool {
    a is Some == b is Some && sizes_or_empty(a) == sizes_or_empty(b)
}

/// `renderer` says of its target what `profile` does, with the limits of its
/// family.
pub open spec fn says(renderer: Renderer, profile: Profile) -> bool {
    let (has_local, has_shared, has_threads, shared_max) = family_limits(profile.device);
    let reported = profile.reported;
    &&& renderer.device == profile.device
    &&& renderer.has_local == has_local
    &&& renderer.has_shared == has_shared
    &&& renderer.has_threads == has_threads
    &&& renderer.shared_max == shared_max
    &&& same_sizes(renderer.global_max, reported.global_max)
    &&& renderer.global_prod_max == reported.global_prod_max
    &&& renderer.local_max == if has_local {
        reported.local_max
    } else {
        None
    }
    &&& renderer.upcast_max == reported.upcast_max
    &&& renderer.buffer_max == reported.buffer_max
    &&& renderer.supports_float4 == reported.supports_float4
    &&& renderer.supported_dtypes@ == stored_dtypes(profile.device, reported, all_dtypes().len())
    &&& renderer.tensor_cores@ == profile.cores
    &&& match profile.target {
        Some(target) => renderer.target matches Some(text) && text@ == target,
        None => renderer.target is None,
    }
}

/// A profile with no code generator bound yet.
pub open spec fn is_unbound(renderer: Renderer, profile: Profile) -> bool {
    &&& says(renderer, profile)
    &&& renderer.renderer_ops is None
    &&& renderer.decomposition_profile@.len() == 0
    &&& renderer.extra_profile@.len() == 0
}

/// Two reports say the same.
pub open spec fn same_report(a: Reported, b: Reported) -> bool {
    &&& a.allow_tf32 == b.allow_tf32
    &&& same_sizes(a.global_max, b.global_max)
    &&& a.global_prod_max == b.global_prod_max
    &&& a.local_max == b.local_max
    &&& a.upcast_max == b.upcast_max
    &&& a.buffer_max == b.buffer_max
    &&& a.supports_float4 == b.supports_float4
    &&& a.storage@ == b.storage@
    &&& a.tensor_cores@ == b.tensor_cores@
}

/// Two code generators render the same operations.
pub open spec fn same_ops(a: RendererOps, b: RendererOps) -> bool {
    a.unary@ == b.unary@ && a.binary@ == b.binary@ && a.ternary@ == b.ternary@
}

/// A profile with its family's code generator bound, which renders `ops`.
pub open spec fn is_bound(renderer: Renderer, profile: Profile, ops: RendererOps) -> bool {
    &&& says(renderer, profile)
    &&& renderer.renderer_ops matches Some(own) && same_ops(own, ops)
    &&& renderer.decomposition_profile@ == decomposition_of(profile.device)
    &&& renderer.extra_profile@ == extra_of(profile.device)
}

/// `bound` is `renderer` with its family's code generator bound, which renders
/// `ops` and reports `target` if it reports one.
pub open spec fn binds(renderer: Renderer, target: Option<String>, ops: RendererOps, bound: Renderer) -> bool {
    &&& bound == (Renderer {
        target: match target {
            Some(target) => Some(target),
            None => renderer.target,
        },
        renderer_ops: Some(ops),
        decomposition_profile: bound.decomposition_profile,
        extra_profile: bound.extra_profile,
        ..renderer
    })
    &&& bound.decomposition_profile@ == decomposition_of(renderer.device)
    &&& bound.extra_profile@ == extra_of(renderer.device)
}

/// The decompositions that a family's code generator asks for.
pub open spec fn decomposition_of(device: RendererDevice) -> Seq<char> {
    match device {
        RendererDevice::CudaSm75 | RendererDevice::CudaSm80 | RendererDevice::CudaSm89 => "nvptx-decomposition-v1"@,
        RendererDevice::AmdRdna3 | RendererDevice::AmdRdna4 | RendererDevice::AmdCdna3 | RendererDevice::AmdCdna4 =>
            "amd-decomposition-v1"@,
        _ => "backend-decomposition-v1"@,
    }
}

/// The further rewrites that a family's code generator asks for.
pub open spec fn extra_of(device: RendererDevice) -> Seq<char> {
    match device {
        RendererDevice::Cpu => "llvm-cpu-extra-v1"@,
        RendererDevice::CudaSm75 | RendererDevice::CudaSm80 | RendererDevice::CudaSm89 => "llvm-nvptx-extra-v1"@,
        RendererDevice::AmdRdna3 | RendererDevice::AmdRdna4 | RendererDevice::AmdCdna3 | RendererDevice::AmdCdna4 =>
            "llvm-amd-fp8-extra-v1"@,
        _ => "backend-extra-v1"@,
    }
}

/// A matrix unit by its extents and element types.
fn matrix_unit(dims: (usize, usize, usize), dtype_in: ScalarDType, dtype_out: ScalarDType) -> (made: TensorCore)
    ensures
        made == unit(dims, dtype_in, dtype_out),
{
    TensorCore { dims, dtype_in, dtype_out }
}

fn copy_cores(list: &Vec<TensorCore>) -> (copy: Vec<TensorCore>)
    ensures
        copy@ == list@,
{
    let mut copy: Vec<TensorCore> = Vec::new();
    let mut i: usize = 0;
    while i < list.len()
        invariant
            i <= list@.len(),
            copy@ == list@.subrange(0, i as int),
        decreases list@.len() - i,
    {
        copy.push(list[i]);
        i = i + 1;
    }
    assert(copy@ =~= list@);
    copy
}

/// The matrix units of a family.
fn cores_of(device: RendererDevice, reported: &Reported) -> (cores: Vec<TensorCore>)
    ensures
        cores@ == family_cores(device, *reported),
{
    match device {
        RendererDevice::CudaSm89 | RendererDevice::IntelXe | RendererDevice::WebGpu => {
            return copy_cores(&reported.tensor_cores);
        }
        _ => {}
    }
    let mut cores: Vec<TensorCore> = match device {
        RendererDevice::Cpu | RendererDevice::CudaSm89 | RendererDevice::IntelXe | RendererDevice::WebGpu => Vec::new(),
        RendererDevice::CudaSm75 => vec![
            matrix_unit((8, 16, 8), ScalarDType::Float16, ScalarDType::Float32),
            matrix_unit((8, 16, 8), ScalarDType::Float16, ScalarDType::Float16),
        ],
        RendererDevice::CudaSm80 => vec![
            matrix_unit((8, 16, 16), ScalarDType::Float16, ScalarDType::Float32),
            matrix_unit((8, 16, 16), ScalarDType::BFloat16, ScalarDType::Float32),
            matrix_unit((8, 16, 16), ScalarDType::Float16, ScalarDType::Float16),
            matrix_unit((8, 16, 8), ScalarDType::Float16, ScalarDType::Float32),
            matrix_unit((8, 16, 8), ScalarDType::Float16, ScalarDType::Float16),
            matrix_unit((8, 16, 32), ScalarDType::Int8, ScalarDType::Int32),
        ],
        RendererDevice::Metal => vec![
            matrix_unit((8, 8, 8), ScalarDType::Float32, ScalarDType::Float32),
            matrix_unit((8, 8, 8), ScalarDType::Float16, ScalarDType::Float32),
            matrix_unit((8, 8, 8), ScalarDType::Float16, ScalarDType::Float16),
            matrix_unit((8, 8, 8), ScalarDType::BFloat16, ScalarDType::Float32),
            matrix_unit((8, 8, 8), ScalarDType::BFloat16, ScalarDType::BFloat16),
        ],
        RendererDevice::AmdRdna3 => vec![
            matrix_unit((16, 16, 16), ScalarDType::Float16, ScalarDType::Float32),
            matrix_unit((16, 16, 16), ScalarDType::Float16, ScalarDType::Float16),
            matrix_unit((16, 16, 16), ScalarDType::BFloat16, ScalarDType::Float32),
            matrix_unit((16, 16, 16), ScalarDType::Int8, ScalarDType::Int32),
        ],
        RendererDevice::AmdRdna4 => vec![
            matrix_unit((16, 16, 16), ScalarDType::Float16, ScalarDType::Float32),
            matrix_unit((16, 16, 16), ScalarDType::Float16, ScalarDType::Float16),
            matrix_unit((16, 16, 16), ScalarDType::BFloat16, ScalarDType::Float32),
            matrix_unit((16, 16, 16), ScalarDType::BFloat16, ScalarDType::BFloat16),
            matrix_unit((16, 16, 16), ScalarDType::Int8, ScalarDType::Int32),
        ],
        RendererDevice::AmdCdna3 => vec![
            matrix_unit((16, 16, 32), ScalarDType::FP8E5M2, ScalarDType::Float32),
            matrix_unit((16, 16, 32), ScalarDType::FP8E4M3, ScalarDType::Float32),
            matrix_unit((16, 16, 16), ScalarDType::Float16, ScalarDType::Float32),
            matrix_unit((16, 16, 16), ScalarDType::BFloat16, ScalarDType::Float32),
        ],
        RendererDevice::AmdCdna4 => vec![
            matrix_unit((16, 16, 128), ScalarDType::FP8E5M2, ScalarDType::Float32),
            matrix_unit((16, 16, 128), ScalarDType::FP8E4M3, ScalarDType::Float32),
            matrix_unit((16, 16, 32), ScalarDType::FP8E5M2, ScalarDType::Float32),
            matrix_unit((16, 16, 32), ScalarDType::FP8E4M3, ScalarDType::Float32),
            matrix_unit((16, 16, 32), ScalarDType::Float16, ScalarDType::Float32),
            matrix_unit((16, 16, 32), ScalarDType::BFloat16, ScalarDType::Float32),
            matrix_unit((16, 16, 16), ScalarDType::Float16, ScalarDType::Float32),
            matrix_unit((16, 16, 16), ScalarDType::BFloat16, ScalarDType::Float32),
        ],
    };
    assert(cores@ =~= settled_cores(device));
    let ghost settled = cores@;
    match device {
        RendererDevice::CudaSm80 => {
            if reported.allow_tf32 {
                cores.push(matrix_unit((8, 16, 8), ScalarDType::Float32, ScalarDType::Float32));
            }
        }
        _ => {}
    }
    assert(cores@ =~= family_cores(device, *reported));
    cores
}

fn holds_dtype(list: &Vec<ScalarDType>, dtype: ScalarDType) -> (found: bool)
    ensures
        found == list@.contains(dtype),
{
    let mut i: usize = 0;
    while i < list.len()
        invariant
            i <= list@.len(),
            forall|k: int| #![trigger list@[k]] 0 <= k < i ==> list@[k] != dtype,
        decreases list@.len() - i,
    {
        if list[i] == dtype {
            assert(list@[i as int] == dtype);
            return true;
        }
        i = i + 1;
    }
    false
}

/// Whether a target can hold buffers of `dtype`.
fn stores(device: RendererDevice, dtype: ScalarDType, reported: &Reported) -> (stored: bool)
    ensures
        stored == family_stores(device, dtype, *reported),
{
    let settled: Option<bool> = match device {
        RendererDevice::Cpu => match dtype {
            ScalarDType::Float64 => Some(true),
            _ => None,
        },
        RendererDevice::Metal | RendererDevice::WebGpu => match dtype {
            ScalarDType::Float64 => Some(false),
            _ => None,
        },
        RendererDevice::CudaSm75 | RendererDevice::CudaSm80 => match dtype {
            ScalarDType::Float64 | ScalarDType::Int8 => Some(true),
            ScalarDType::BFloat16 => Some(device == RendererDevice::CudaSm80),
            ScalarDType::FP8E4M3 | ScalarDType::FP8E5M2 | ScalarDType::FP8E4M3FNUZ | ScalarDType::FP8E5M2FNUZ =>
                Some(false),
            _ => None,
        },
        RendererDevice::AmdRdna3 | RendererDevice::AmdRdna4 | RendererDevice::AmdCdna3 | RendererDevice::AmdCdna4 =>
            match dtype {
            ScalarDType::Float64 => Some(true),
            ScalarDType::FP8E4M3 | ScalarDType::FP8E5M2 => Some(device != RendererDevice::AmdRdna3),
            ScalarDType::FP8E4M3FNUZ | ScalarDType::FP8E5M2FNUZ => Some(false),
            _ => None,
        },
        RendererDevice::CudaSm89 | RendererDevice::IntelXe => None,
    };
    match settled {
        Some(stored) => stored,
        None => holds_dtype(&reported.storage, dtype),
    }
}

/// The element types that a target can hold.
fn dtypes_of(device: RendererDevice, reported: &Reported) -> (dtypes: Vec<ScalarDType>)
    ensures
        dtypes@ == stored_dtypes(device, *reported, all_dtypes().len()),
{
    let all: Vec<ScalarDType> = vec![
        ScalarDType::Bool,
        ScalarDType::Int8,
        ScalarDType::Int16,
        ScalarDType::Int32,
        ScalarDType::Int64,
        ScalarDType::UInt8,
        ScalarDType::UInt16,
        ScalarDType::UInt32,
        ScalarDType::UInt64,
        ScalarDType::Float16,
        ScalarDType::BFloat16,
        ScalarDType::Float32,
        ScalarDType::Float64,
        ScalarDType::FP8E4M3,
        ScalarDType::FP8E5M2,
        ScalarDType::FP8E4M3FNUZ,
        ScalarDType::FP8E5M2FNUZ,
    ];
    assert(all@ =~= all_dtypes());
    let mut dtypes: Vec<ScalarDType> = Vec::new();
    let mut i: usize = 0;
    while i < all.len()
        invariant
            i <= all@.len(),
            all@ == all_dtypes(),
            dtypes@ == stored_dtypes(device, *reported, i as nat),
        decreases all@.len() - i,
    {
        if stores(device, all[i], reported) {
            dtypes.push(all[i]);
        }
        i = i + 1;
    }
    dtypes
}

fn copy_sizes(list: &Option<Vec<usize>>) -> (copy: Option<Vec<usize>>)
    ensures
        same_sizes(copy, *list),
{
    match list {
        Some(list) => Some(copy_usizes(list)),
        None => None,
    }
}

impl RendererOps {
    /// The same operations.
    pub fn copy(&self) -> (copy: RendererOps)
        ensures
            same_ops(copy, *self),
    {
        RendererOps {
            unary: copy_u64s(&self.unary),
            binary: copy_u64s(&self.binary),
            ternary: copy_u64s(&self.ternary),
        }
    }
}

impl Reported {
    /// The same report.
    pub fn copy(&self) -> (copy: Reported)
        ensures
            same_report(copy, *self),
    {
        let mut storage: Vec<ScalarDType> = Vec::new();
        let mut i: usize = 0;
        while i < self.storage.len()
            invariant
                i <= self.storage@.len(),
                storage@ == self.storage@.subrange(0, i as int),
            decreases self.storage@.len() - i,
        {
            storage.push(self.storage[i]);
            i = i + 1;
        }
        assert(storage@ =~= self.storage@);
        Reported {
            allow_tf32: self.allow_tf32,
            global_max: copy_sizes(&self.global_max),
            global_prod_max: self.global_prod_max,
            local_max: self.local_max,
            upcast_max: self.upcast_max,
            buffer_max: self.buffer_max,
            supports_float4: self.supports_float4,
            storage,
            tensor_cores: copy_cores(&self.tensor_cores),
        }
    }
}

impl Renderer {
    /// The profile of a family for target `target`, where it is known, with
    /// these matrix units.
    fn profile(
        device: RendererDevice,
        target: Option<String>,
        tensor_cores: Vec<TensorCore>,
        reported: &Reported,
    ) -> (renderer: Renderer)
        ensures
            is_unbound(
                renderer,
                (Profile {
                    device,
                    target: match target {
                        Some(target) => Some(target@),
                        None => None,
                    },
                    cores: tensor_cores@,
                    reported: *reported,
                }),
            ),
    {
        let (has_local, has_shared, has_threads, shared_max): (bool, bool, bool, usize) = match device {
            RendererDevice::Cpu => (false, false, true, 0),
            RendererDevice::CudaSm75 | RendererDevice::CudaSm80 | RendererDevice::CudaSm89 => (
                true,
                true,
                false,
                49152,
            ),
            RendererDevice::Metal => (true, true, false, 32768),
            RendererDevice::AmdRdna3 | RendererDevice::AmdRdna4 | RendererDevice::AmdCdna3
            | RendererDevice::AmdCdna4 | RendererDevice::IntelXe => (true, true, false, 65536),
            RendererDevice::WebGpu => (true, true, false, 16384),
        };
        Renderer {
            device,
            target,
            has_local,
            has_shared,
            has_threads,
            shared_max,
            global_max: copy_sizes(&reported.global_max),
            global_prod_max: reported.global_prod_max,
            local_max: if has_local { reported.local_max } else { None },
            upcast_max: reported.upcast_max,
            buffer_max: reported.buffer_max,
            supports_float4: reported.supports_float4,
            supported_dtypes: dtypes_of(device, reported),
            tensor_cores,
            renderer_ops: None,
            decomposition_profile: String::new(),
            extra_profile: String::new(),
        }
    }

    /// A family of which no exact target is known.
    fn family(device: RendererDevice, reported: &Reported) -> (renderer: Renderer)
        ensures
            is_unbound(renderer, family_profile(device, *reported)),
    {
        Renderer::profile(device, None, cores_of(device, reported), reported)
    }

    /// The host's CPU.
    pub fn cpu(reported: &Reported) -> (renderer: Renderer)
        ensures
            is_unbound(renderer, family_profile(RendererDevice::Cpu, *reported)),
    {
        Renderer::family(RendererDevice::Cpu, reported)
    }

    /// A CPU with work groups and without limits, to compare optimizer
    /// decisions on.
    pub fn tinygrad_base_cpu(reported: &Reported) -> (renderer: Renderer)
        ensures
            renderer.device == RendererDevice::Cpu,
            renderer.target is None,
            renderer.has_local && renderer.has_shared && !renderer.has_threads,
            renderer.shared_max == 32768,
            renderer.global_max matches Some(limits) && limits@ == seq![UNBOUNDED, UNBOUNDED, UNBOUNDED],
            renderer.local_max == Some(UNBOUNDED),
            renderer.global_prod_max == reported.global_prod_max,
            renderer.upcast_max == reported.upcast_max,
            renderer.buffer_max == reported.buffer_max,
            renderer.supports_float4 == reported.supports_float4,
            renderer.supported_dtypes@ == stored_dtypes(RendererDevice::Cpu, *reported, all_dtypes().len()),
            renderer.tensor_cores@.len() == 0,
            renderer.renderer_ops is None,
            renderer.decomposition_profile@.len() == 0,
            renderer.extra_profile@.len() == 0,
    {
        let global_max: Vec<usize> = vec![UNBOUNDED, UNBOUNDED, UNBOUNDED];
        assert(global_max@ =~= seq![UNBOUNDED, UNBOUNDED, UNBOUNDED]);
        Renderer {
            has_local: true,
            has_shared: true,
            has_threads: false,
            shared_max: 32768,
            global_max: Some(global_max),
            local_max: Some(UNBOUNDED),
            ..Renderer::family(RendererDevice::Cpu, reported)
        }
    }

    /// NVIDIA GPUs before compute capability 8.0.
    pub fn cuda_sm75(reported: &Reported) -> (renderer: Renderer)
        ensures
            is_unbound(renderer, family_profile(RendererDevice::CudaSm75, *reported)),
    {
        Renderer::family(RendererDevice::CudaSm75, reported)
    }

    /// NVIDIA GPUs from compute capability 8.0 on.
    pub fn cuda(reported: &Reported) -> (renderer: Renderer)
        ensures
            is_unbound(renderer, family_profile(RendererDevice::CudaSm80, *reported)),
    {
        Renderer::family(RendererDevice::CudaSm80, reported)
    }

    /// NVIDIA GPUs of compute capability 8.9, with what the optimizer reports of
    /// their matrix units.
    pub fn cuda_sm89(reported: &Reported) -> (renderer: Renderer)
        ensures
            is_unbound(renderer, family_profile(RendererDevice::CudaSm89, *reported)),
    {
        Renderer::family(RendererDevice::CudaSm89, reported)
    }

    /// Apple GPUs.
    pub fn metal(reported: &Reported) -> (renderer: Renderer)
        ensures
            is_unbound(renderer, family_profile(RendererDevice::Metal, *reported)),
    {
        Renderer::family(RendererDevice::Metal, reported)
    }

    /// AMD's RDNA3 GPUs.
    pub fn amd_rdna3(reported: &Reported) -> (renderer: Renderer)
        ensures
            is_unbound(renderer, family_profile(RendererDevice::AmdRdna3, *reported)),
    {
        Renderer::family(RendererDevice::AmdRdna3, reported)
    }

    /// AMD's CDNA3 GPUs.
    pub fn amd_cdna3(reported: &Reported) -> (renderer: Renderer)
        ensures
            is_unbound(renderer, family_profile(RendererDevice::AmdCdna3, *reported)),
    {
        Renderer::family(RendererDevice::AmdCdna3, reported)
    }

    /// AMD's CDNA4 GPUs.
    pub fn amd_cdna4(reported: &Reported) -> (renderer: Renderer)
        ensures
            is_unbound(renderer, family_profile(RendererDevice::AmdCdna4, *reported)),
    {
        Renderer::family(RendererDevice::AmdCdna4, reported)
    }

    /// Intel's Xe GPUs.
    pub fn intel_xe(reported: &Reported) -> (renderer: Renderer)
        ensures
            is_unbound(renderer, family_profile(RendererDevice::IntelXe, *reported)),
    {
        Renderer::family(RendererDevice::IntelXe, reported)
    }

    /// GPUs under WebGPU.
    pub fn webgpu(reported: &Reported) -> (renderer: Renderer)
        ensures
            is_unbound(renderer, family_profile(RendererDevice::WebGpu, *reported)),
    {
        Renderer::family(RendererDevice::WebGpu, reported)
    }

    /// The NVIDIA GPU of this compute capability.
    pub fn for_cuda_arch(arch: CudaArch, reported: &Reported) -> (renderer: Renderer)
        ensures
            is_unbound(renderer, cuda_profile(arch, *reported)),
    {
        let device = if arch.major >= 8 { RendererDevice::CudaSm80 } else { RendererDevice::CudaSm75 };
        let cores = if arch.major > 7 || (arch.major == 7 && arch.minor >= 5) {
            cores_of(device, reported)
        } else {
            Vec::new()
        };
        Renderer::profile(device, Some(arch.to_string()), cores, reported)
    }

    /// This AMD GPU.
    pub fn for_amd_arch(arch: AmdArch, reported: &Reported) -> (renderer: Renderer)
        ensures
            is_unbound(renderer, amd_profile(arch, *reported)),
    {
        let device = match arch {
            AmdArch::Gfx942 => RendererDevice::AmdCdna3,
            AmdArch::Gfx950 => RendererDevice::AmdCdna4,
            AmdArch::Gfx1100 | AmdArch::Gfx1151 => RendererDevice::AmdRdna3,
            AmdArch::Gfx1201 => RendererDevice::AmdRdna4,
        };
        Renderer::profile(device, Some(arch.mcpu().to_owned()), cores_of(device, reported), reported)
    }

    /// The Apple GPUs of this family.
    pub fn for_metal_family(family: MetalFamily, reported: &Reported) -> (renderer: Renderer)
        ensures
            is_unbound(renderer, metal_profile(family, *reported)),
    {
        let cores = match family {
            MetalFamily::Apple(n) => {
                if n >= 7 {
                    cores_of(RendererDevice::Metal, reported)
                } else {
                    Vec::new()
                }
            }
            _ => Vec::new(),
        };
        Renderer::profile(RendererDevice::Metal, Some(family.to_string()), cores, reported)
    }

    /// The number of lanes that run in lockstep.
    pub fn wave_size(&self) -> (lanes: usize)
        ensures
            lanes == if self.device == RendererDevice::AmdCdna3 || self.device == RendererDevice::AmdCdna4 {
                64usize
            } else {
                32usize
            },
    {
        match self.device {
            RendererDevice::AmdCdna3 | RendererDevice::AmdCdna4 => 64,
            _ => 32,
        }
    }

    /// The greatest work group along each axis.
    pub fn local_max_axes(&self) -> (axes: Option<[usize; 3]>)
        ensures
            match self.device {
                RendererDevice::CudaSm75 | RendererDevice::CudaSm80 | RendererDevice::CudaSm89 => axes matches Some(
                    axes,
                ) && axes@ == seq![1024usize, 1024, 64],
                RendererDevice::WebGpu => axes matches Some(axes) && axes@ == seq![256usize, 256, 64],
                _ => axes is None,
            },
    {
        match self.device {
            RendererDevice::CudaSm75 | RendererDevice::CudaSm80 | RendererDevice::CudaSm89 => {
                let axes: [usize; 3] = [1024, 1024, 64];
                assert(axes@ =~= seq![1024usize, 1024, 64]);
                Some(axes)
            }
            RendererDevice::WebGpu => {
                let axes: [usize; 3] = [256, 256, 64];
                assert(axes@ =~= seq![256usize, 256, 64]);
                Some(axes)
            }
            _ => None,
        }
    }

    /// Whether the target can hold buffers of `dtype`.
    pub fn supports_storage_dtype(&self, dtype: ScalarDType) -> (supported: bool)
        ensures
            supported == self.supported_dtypes@.contains(dtype),
    {
        holds_dtype(&self.supported_dtypes, dtype)
    }

    /// Tells which operations are rendered, and so which are decomposed first.
    pub fn with_rewrite_capabilities(self, ops: RendererOps) -> (told: Renderer)
        ensures
            told == (Renderer { renderer_ops: Some(ops), ..self }),
    {
        Renderer { renderer_ops: Some(ops), ..self }
    }

    /// Binds a code generator for `target` that renders `ops`: the rewrites that
    /// its family needs are named, so that what is compiled with them is told
    /// apart.
    pub fn with_codegen_renderer(self, target: Option<String>, ops: RendererOps) -> (bound: Renderer)
        ensures
            binds(self, target, ops, bound),
    {
        let (decomposition, extra) = match self.device {
            RendererDevice::Cpu => ("backend-decomposition-v1", "llvm-cpu-extra-v1"),
            RendererDevice::CudaSm75 | RendererDevice::CudaSm80 | RendererDevice::CudaSm89 => (
                "nvptx-decomposition-v1",
                "llvm-nvptx-extra-v1",
            ),
            RendererDevice::AmdRdna3 | RendererDevice::AmdRdna4 | RendererDevice::AmdCdna3
            | RendererDevice::AmdCdna4 => ("amd-decomposition-v1", "llvm-amd-fp8-extra-v1"),
            _ => ("backend-decomposition-v1", "backend-extra-v1"),
        };
        let target = match target {
            Some(target) => Some(target),
            None => self.target,
        };
        Renderer {
            target,
            renderer_ops: Some(ops),
            decomposition_profile: decomposition.to_owned(),
            extra_profile: extra.to_owned(),
            ..self
        }
    }
}

/// A type is among those that a target can hold if and only if the target can
/// hold it.
pub proof fn lemma_stored(device: RendererDevice, reported: Reported, dtype: ScalarDType)
    ensures
        stored_dtypes(device, reported, all_dtypes().len()).contains(dtype) <==> family_stores(
            device,
            dtype,
            reported,
        ),
{
    let all = all_dtypes();
    assert(all[dtype_code(dtype) as int] == dtype);
    lemma_stored_upto(device, reported, dtype, all.len());
}

proof fn lemma_stored_upto(device: RendererDevice, reported: Reported, dtype: ScalarDType, k: nat)
    requires
        k <= all_dtypes().len(),
    ensures
        stored_dtypes(device, reported, k).contains(dtype) <==> family_stores(device, dtype, reported) && dtype_code(
            dtype,
        ) < k,
    decreases k,
{
    let all = all_dtypes();
    if k > 0 {
        lemma_stored_upto(device, reported, dtype, (k - 1) as nat);
        let earlier = stored_dtypes(device, reported, (k - 1) as nat);
        assert(dtype_code(all[k - 1]) == k - 1);
        let last = all[k - 1];
        if family_stores(device, last, reported) {
            assert(earlier.push(last)[earlier.len() as int] == last);
            if earlier.contains(dtype) {
                let j = choose|j: int| 0 <= j < earlier.len() && earlier[j] == dtype;
                assert(earlier.push(last)[j] == dtype);
            }
            if earlier.push(last).contains(dtype) && dtype != last {
                let j = choose|j: int| 0 <= j < earlier.push(last).len() && earlier.push(last)[j] == dtype;
                assert(earlier[j] == dtype);
            }
        }
        assert(dtype_code(dtype) == k - 1 ==> dtype == last);
    }
}

// ---------------------------------------------------------------------------
// Fingerprints
// ---------------------------------------------------------------------------

/// A truth value as a word.
pub open spec fn flag(b: bool) -> u64 {
    if b {
        1
    } else {
        0
    }
}

/// The number of a family.
pub open spec fn device_code(device: RendererDevice) -> u64 {
    match device {
        RendererDevice::Cpu => 0,
        RendererDevice::CudaSm75 => 1,
        RendererDevice::CudaSm80 => 2,
        RendererDevice::CudaSm89 => 3,
        RendererDevice::Metal => 4,
        RendererDevice::AmdRdna3 => 5,
        RendererDevice::AmdRdna4 => 6,
        RendererDevice::AmdCdna3 => 7,
        RendererDevice::AmdCdna4 => 8,
        RendererDevice::IntelXe => 9,
        RendererDevice::WebGpu => 10,
    }
}

/// The number of an element type.
pub open spec fn dtype_code(dtype: ScalarDType) -> u64 {
    match dtype {
        ScalarDType::Bool => 0,
        ScalarDType::Int8 => 1,
        ScalarDType::Int16 => 2,
        ScalarDType::Int32 => 3,
        ScalarDType::Int64 => 4,
        ScalarDType::UInt8 => 5,
        ScalarDType::UInt16 => 6,
        ScalarDType::UInt32 => 7,
        ScalarDType::UInt64 => 8,
        ScalarDType::Float16 => 9,
        ScalarDType::BFloat16 => 10,
        ScalarDType::Float32 => 11,
        ScalarDType::Float64 => 12,
        ScalarDType::FP8E4M3 => 13,
        ScalarDType::FP8E5M2 => 14,
        ScalarDType::FP8E4M3FNUZ => 15,
        ScalarDType::FP8E5M2FNUZ => 16,
    }
}

/// A text as words, one for each character.
pub open spec fn char_words(s: Seq<char>) -> Seq<u64> {
    Seq::new(s.len(), |i: int| s[i] as u64)
}

/// Numbers as words.
pub open spec fn size_words(s: Seq<usize>) -> Seq<u64> {
    Seq::new(s.len(), |i: int| s[i] as u64)
}

/// Matrix units as words, five for each.
pub open spec fn core_words(s: Seq<TensorCore>) -> Seq<u64>
    decreases s.len(),
{
    if s.len() == 0 {
        seq![]
    } else {
        let core = s.last();
        core_words(s.drop_last()) + seq![
            core.dims.0 as u64,
            core.dims.1 as u64,
            core.dims.2 as u64,
            dtype_code(core.dtype_in),
            dtype_code(core.dtype_out),
        ]
    }
}

/// The target's name, or nothing.
pub open spec fn text_or_empty(s: Option<String>) -> Seq<char> {
    match s {
        Some(s) => s@,
        None => Seq::empty(),
    }
}

/// The launch limits, or nothing.
pub open spec fn sizes_or_empty(s: Option<Vec<usize>>) -> Seq<usize> {
    match s {
        Some(s) => s@,
        None => Seq::empty(),
    }
}

/// Element types as words.
pub open spec fn dtype_words(s: Seq<ScalarDType>) -> Seq<u64> {
    Seq::new(s.len(), |i: int| dtype_code(s[i]))
}

/// A limit, or 0.
pub open spec fn size_or_zero(n: Option<usize>) -> u64 {
    match n {
        Some(n) => n as u64,
        None => 0,
    }
}

/// The operations of a code generator, where one is bound.
pub open spec fn unary_of(ops: Option<RendererOps>) -> Seq<u64> {
    match ops {
        Some(ops) => ops.unary@,
        None => seq![],
    }
}

pub open spec fn binary_of(ops: Option<RendererOps>) -> Seq<u64> {
    match ops {
        Some(ops) => ops.binary@,
        None => seq![],
    }
}

pub open spec fn ternary_of(ops: Option<RendererOps>) -> Seq<u64> {
    match ops {
        Some(ops) => ops.ternary@,
        None => seq![],
    }
}

impl Renderer {
    /// Everything of a fixed size, and the length of everything else.
    pub open spec fn header(&self) -> Seq<u64> {
        seq![
            device_code(self.device),
            flag(self.has_local),
            flag(self.has_shared),
            flag(self.has_threads),
            self.shared_max as u64,
            flag(self.local_max is Some),
            size_or_zero(self.local_max),
            flag(self.global_prod_max is Some),
            size_or_zero(self.global_prod_max),
            self.upcast_max as u64,
            flag(self.buffer_max is Some),
            size_or_zero(self.buffer_max),
            flag(self.supports_float4),
            flag(self.global_max is Some),
            sizes_or_empty(self.global_max).len() as u64,
            self.tensor_cores@.len() as u64,
            self.supported_dtypes@.len() as u64,
            flag(self.renderer_ops is Some),
            unary_of(self.renderer_ops).len() as u64,
            binary_of(self.renderer_ops).len() as u64,
            ternary_of(self.renderer_ops).len() as u64,
            flag(self.target is Some),
            text_or_empty(self.target).len() as u64,
            self.decomposition_profile@.len() as u64,
            self.extra_profile@.len() as u64,
        ]
    }

    /// Everything else, one list after the other.
    pub open spec fn lists(&self) -> Seq<Seq<u64>> {
        seq![
            size_words(sizes_or_empty(self.global_max)),
            core_words(self.tensor_cores@),
            dtype_words(self.supported_dtypes@),
            unary_of(self.renderer_ops),
            binary_of(self.renderer_ops),
            ternary_of(self.renderer_ops),
            char_words(text_or_empty(self.target)),
            char_words(self.decomposition_profile@),
            char_words(self.extra_profile@),
        ]
    }

    /// All of a profile as words.
    pub open spec fn words(&self) -> Seq<u64> {
        self.header() + size_words(sizes_or_empty(self.global_max)) + core_words(self.tensor_cores@) + dtype_words(
            self.supported_dtypes@,
        ) + unary_of(self.renderer_ops) + binary_of(self.renderer_ops) + ternary_of(self.renderer_ops) + char_words(
            text_or_empty(self.target),
        ) + char_words(self.decomposition_profile@) + char_words(self.extra_profile@)
    }
}

/// Lists one after the other.
pub open spec fn joined(parts: Seq<Seq<u64>>) -> Seq<u64>
    decreases parts.len(),
{
    if parts.len() == 0 {
        seq![]
    } else {
        joined(parts.drop_last()) + parts.last()
    }
}

/// Two profiles say the same of everything.
pub open spec fn same_profile(a: Renderer, b: Renderer) -> bool {
    &&& a.device == b.device
    &&& a.has_local == b.has_local
    &&& a.has_shared == b.has_shared
    &&& a.has_threads == b.has_threads
    &&& a.shared_max == b.shared_max
    &&& same_sizes(a.global_max, b.global_max)
    &&& a.global_prod_max == b.global_prod_max
    &&& a.local_max == b.local_max
    &&& a.upcast_max == b.upcast_max
    &&& a.buffer_max == b.buffer_max
    &&& a.supports_float4 == b.supports_float4
    &&& a.supported_dtypes@ == b.supported_dtypes@
    &&& a.tensor_cores@ == b.tensor_cores@
    &&& a.renderer_ops is Some == b.renderer_ops is Some
    &&& a.renderer_ops matches Some(x) ==> b.renderer_ops matches Some(y) ==> same_ops(x, y)
    &&& a.target is Some == b.target is Some
    &&& text_or_empty(a.target) == text_or_empty(b.target)
    &&& a.decomposition_profile@ == b.decomposition_profile@
    &&& a.extra_profile@ == b.extra_profile@
}

/// The number of a family.
fn device_word(device: RendererDevice) -> (word: u64)
    ensures
        word == device_code(device),
{
    match device {
        RendererDevice::Cpu => 0,
        RendererDevice::CudaSm75 => 1,
        RendererDevice::CudaSm80 => 2,
        RendererDevice::CudaSm89 => 3,
        RendererDevice::Metal => 4,
        RendererDevice::AmdRdna3 => 5,
        RendererDevice::AmdRdna4 => 6,
        RendererDevice::AmdCdna3 => 7,
        RendererDevice::AmdCdna4 => 8,
        RendererDevice::IntelXe => 9,
        RendererDevice::WebGpu => 10,
    }
}

fn size_word(n: Option<usize>) -> (word: u64)
    ensures
        word == size_or_zero(n),
{
    match n {
        Some(n) => n as u64,
        None => 0,
    }
}

/// The number of an element type.
fn dtype_word(dtype: ScalarDType) -> (word: u64)
    ensures
        word == dtype_code(dtype),
{
    match dtype {
        ScalarDType::Bool => 0,
        ScalarDType::Int8 => 1,
        ScalarDType::Int16 => 2,
        ScalarDType::Int32 => 3,
        ScalarDType::Int64 => 4,
        ScalarDType::UInt8 => 5,
        ScalarDType::UInt16 => 6,
        ScalarDType::UInt32 => 7,
        ScalarDType::UInt64 => 8,
        ScalarDType::Float16 => 9,
        ScalarDType::BFloat16 => 10,
        ScalarDType::Float32 => 11,
        ScalarDType::Float64 => 12,
        ScalarDType::FP8E4M3 => 13,
        ScalarDType::FP8E5M2 => 14,
        ScalarDType::FP8E4M3FNUZ => 15,
        ScalarDType::FP8E5M2FNUZ => 16,
    }
}

/// A truth value as a word.
pub fn flag_word(b: bool) -> (word: u64)
    ensures
        word == flag(b),
{
    if b { 1 } else { 0 }
}

/// Appends the characters of a text to words.
fn push_chars(words: &mut Vec<u64>, s: &str)
    ensures
        final(words)@ == old(words)@ + char_words(s@),
{
    let n = s.unicode_len();
    let ghost before = words@;
    let mut i: usize = 0;
    assert(words@ =~= before + char_words(s@).subrange(0, 0));
    while i < n
        invariant
            i <= n,
            n == s@.len(),
            words@ == before + char_words(s@).subrange(0, i as int),
        decreases n - i,
    {
        let c = s.get_char(i);
        words.push(c as u64);
        assert(words@ =~= before + char_words(s@).subrange(0, i + 1));
        i = i + 1;
    }
    assert(char_words(s@).subrange(0, i as int) =~= char_words(s@));
}

/// The hash of words, the same in every process.
pub open spec fn hash_words(words: Seq<u64>) -> u64 {
    DefaultHasher::spec_finish(seq![word_bytes(words)])
}

/// The hash of words.
pub fn hash_of_words(words: &Vec<u64>) -> (hash: u64)
    ensures
        hash == hash_words(words@),
{
    let bytes = words_to_bytes(words);
    let mut hasher = DefaultHasher::new();
    hasher.write(bytes.as_slice());
    assert(hasher@ =~= seq![word_bytes(words@)]);
    hasher.finish()
}

/// Appends numbers to words.
fn push_sizes(words: &mut Vec<u64>, list: &Vec<usize>)
    ensures
        final(words)@ == old(words)@ + size_words(list@),
{
    let ghost before = words@;
    let mut i: usize = 0;
    assert(words@ =~= before + size_words(list@).subrange(0, 0));
    while i < list.len()
        invariant
            i <= list@.len(),
            words@ == before + size_words(list@).subrange(0, i as int),
        decreases list@.len() - i,
    {
        words.push(list[i] as u64);
        assert(words@ =~= before + size_words(list@).subrange(0, i + 1));
        i = i + 1;
    }
    assert(size_words(list@).subrange(0, i as int) =~= size_words(list@));
}

/// Appends matrix units to words.
fn push_cores(words: &mut Vec<u64>, list: &Vec<TensorCore>)
    ensures
        final(words)@ == old(words)@ + core_words(list@),
{
    let ghost before = words@;
    let mut i: usize = 0;
    assert(words@ =~= before + core_words(list@.subrange(0, 0)));
    while i < list.len()
        invariant
            i <= list@.len(),
            words@ == before + core_words(list@.subrange(0, i as int)),
        decreases list@.len() - i,
    {
        let core = list[i];
        words.push(core.dims.0 as u64);
        words.push(core.dims.1 as u64);
        words.push(core.dims.2 as u64);
        words.push(dtype_word(core.dtype_in));
        words.push(dtype_word(core.dtype_out));
        assert(list@.subrange(0, i + 1).drop_last() =~= list@.subrange(0, i as int));
        assert(words@ =~= before + core_words(list@.subrange(0, i + 1)));
        i = i + 1;
    }
    assert(list@.subrange(0, i as int) =~= list@);
}

/// Appends element types to words.
fn push_dtypes(words: &mut Vec<u64>, list: &Vec<ScalarDType>)
    ensures
        final(words)@ == old(words)@ + dtype_words(list@),
{
    let ghost before = words@;
    let mut i: usize = 0;
    assert(words@ =~= before + dtype_words(list@).subrange(0, 0));
    while i < list.len()
        invariant
            i <= list@.len(),
            words@ == before + dtype_words(list@).subrange(0, i as int),
        decreases list@.len() - i,
    {
        words.push(dtype_word(list[i]));
        assert(words@ =~= before + dtype_words(list@).subrange(0, i + 1));
        i = i + 1;
    }
    assert(dtype_words(list@).subrange(0, i as int) =~= dtype_words(list@));
}

/// A header and lists, one after the other, and one more list.
proof fn lemma_joined_push(header: Seq<u64>, parts: Seq<Seq<u64>>, k: int)
    requires
        0 <= k < parts.len(),
    ensures
        header + joined(parts.subrange(0, k + 1)) == header + joined(parts.subrange(0, k)) + parts[k],
{
    assert(parts.subrange(0, k + 1).drop_last() =~= parts.subrange(0, k));
    assert(header + (joined(parts.subrange(0, k)) + parts[k]) =~= header + joined(parts.subrange(0, k)) + parts[k]);
}

/// A profile's words are its header and its lists, one after the other.
proof fn lemma_joined_lists(a: Renderer)
    ensures
        a.words() == a.header() + joined(a.lists()),
{
    let lists = a.lists();
    let header = a.header();
    assert(header + joined(lists.subrange(0, 0)) =~= header);
    lemma_joined_push(header, lists, 0);
    lemma_joined_push(header, lists, 1);
    lemma_joined_push(header, lists, 2);
    lemma_joined_push(header, lists, 3);
    lemma_joined_push(header, lists, 4);
    lemma_joined_push(header, lists, 5);
    lemma_joined_push(header, lists, 6);
    lemma_joined_push(header, lists, 7);
    lemma_joined_push(header, lists, 8);
    assert(lists.subrange(0, 9) =~= lists);
}

impl Renderer {
    /// Everything of a fixed size, and the length of everything else.
    fn header_words(&self) -> (words: Vec<u64>)
        ensures
            words@ == self.header(),
    {
        let limits: u64 = match &self.global_max {
            Some(limits) => limits.len() as u64,
            None => 0,
        };
        let (unary, binary, ternary): (u64, u64, u64) = match &self.renderer_ops {
            Some(ops) => (ops.unary.len() as u64, ops.binary.len() as u64, ops.ternary.len() as u64),
            None => (0, 0, 0),
        };
        let target: u64 = match &self.target {
            Some(target) => target.as_str().unicode_len() as u64,
            None => 0,
        };
        let words: Vec<u64> = vec![
            device_word(self.device),
            flag_word(self.has_local),
            flag_word(self.has_shared),
            flag_word(self.has_threads),
            self.shared_max as u64,
            flag_word(self.local_max.is_some()),
            size_word(self.local_max),
            flag_word(self.global_prod_max.is_some()),
            size_word(self.global_prod_max),
            self.upcast_max as u64,
            flag_word(self.buffer_max.is_some()),
            size_word(self.buffer_max),
            flag_word(self.supports_float4),
            flag_word(self.global_max.is_some()),
            limits,
            self.tensor_cores.len() as u64,
            self.supported_dtypes.len() as u64,
            flag_word(self.renderer_ops.is_some()),
            unary,
            binary,
            ternary,
            flag_word(self.target.is_some()),
            target,
            self.decomposition_profile.as_str().unicode_len() as u64,
            self.extra_profile.as_str().unicode_len() as u64,
        ];
        assert(words@ =~= self.header());
        words
    }

    /// Appends the operations of the code generator to words.
    fn push_ops(&self, words: &mut Vec<u64>)
        ensures
            final(words)@ == old(words)@ + unary_of(self.renderer_ops) + binary_of(self.renderer_ops) + ternary_of(
                self.renderer_ops,
            ),
    {
        let ghost before = words@;
        if let Some(ops) = &self.renderer_ops {
            let mut unary = copy_u64s(&ops.unary);
            let mut binary = copy_u64s(&ops.binary);
            let mut ternary = copy_u64s(&ops.ternary);
            words.append(&mut unary);
            words.append(&mut binary);
            words.append(&mut ternary);
        }
        assert(words@ =~= before + unary_of(self.renderer_ops) + binary_of(self.renderer_ops) + ternary_of(
            self.renderer_ops,
        ));
    }

    /// All of a profile as words.
    fn to_words(&self) -> (words: Vec<u64>)
        ensures
            words@ == self.words(),
    {
        let mut words = self.header_words();
        match &self.global_max {
            Some(list) => push_sizes(&mut words, list),
            None => {
                assert(words@ + size_words(Seq::empty()) =~= words@);
            }
        }
        push_cores(&mut words, &self.tensor_cores);
        push_dtypes(&mut words, &self.supported_dtypes);
        self.push_ops(&mut words);
        match &self.target {
            Some(target) => push_chars(&mut words, target.as_str()),
            None => {
                assert(words@ + char_words(Seq::empty()) =~= words@);
            }
        }
        push_chars(&mut words, self.decomposition_profile.as_str());
        push_chars(&mut words, self.extra_profile.as_str());
        words
    }

    /// The identity of a profile in cache keys: the hash of all it says.
    pub fn cache_fingerprint(&self) -> (fingerprint: u64)
        ensures
            fingerprint == hash_words(self.words()),
    {
        let words = self.to_words();
        hash_of_words(&words)
    }
}

proof fn lemma_char_word(a: char, b: char)
    requires
        a as u64 == b as u64,
    ensures
        a == b,
{
}

proof fn lemma_core_words_length(s: Seq<TensorCore>)
    ensures
        core_words(s).len() == 5 * s.len(),
    decreases s.len(),
{
    if s.len() > 0 {
        lemma_core_words_length(s.drop_last());
    }
}

proof fn lemma_core_words_distinct(a: Seq<TensorCore>, b: Seq<TensorCore>)
    requires
        a.len() == b.len(),
        core_words(a) == core_words(b),
    ensures
        a == b,
    decreases a.len(),
{
    if a.len() > 0 {
        let (u, v) = (core_words(a), core_words(b));
        let (p, q) = (core_words(a.drop_last()), core_words(b.drop_last()));
        lemma_core_words_length(a.drop_last());
        lemma_core_words_length(b.drop_last());
        let n = p.len() as int;
        assert(u.subrange(0, n) =~= p);
        assert(v.subrange(0, n) =~= q);
        lemma_core_words_distinct(a.drop_last(), b.drop_last());
        assert(u[n] == v[n] && u[n + 1] == v[n + 1] && u[n + 2] == v[n + 2] && u[n + 3] == v[n + 3] && u[n + 4] == v[n
            + 4]);
        assert(a.last() == b.last());
        assert(a =~= a.drop_last().push(a.last()));
        assert(b =~= b.drop_last().push(b.last()));
    } else {
        assert(a =~= b);
    }
}

/// Lists of the same lengths, one after the other, are the same if what they
/// make is.
proof fn lemma_joined_distinct(a: Seq<Seq<u64>>, b: Seq<Seq<u64>>)
    requires
        a.len() == b.len(),
        forall|i: int| #![trigger a[i]] 0 <= i < a.len() ==> a[i].len() == b[i].len(),
        joined(a) == joined(b),
    ensures
        a == b,
    decreases a.len(),
{
    if a.len() > 0 {
        let (x, y) = (joined(a), joined(b));
        assert(a[a.len() - 1].len() == b[b.len() - 1].len());
        let n = joined(a.drop_last()).len() as int;
        let l = a.last().len() as int;
        assert(x.len() == n + l);
        assert(y.len() == joined(b.drop_last()).len() + b.last().len());
        assert(x.subrange(0, n) =~= joined(a.drop_last()));
        assert(y.subrange(0, n) =~= joined(b.drop_last()));
        assert(x.subrange(n, n + l) =~= a.last());
        assert(y.subrange(n, n + l) =~= b.last());
        assert forall|i: int| #![trigger a.drop_last()[i]] 0 <= i < a.len() - 1 implies a.drop_last()[i].len()
            == b.drop_last()[i].len() by {
            assert(a[i].len() == b[i].len());
        }
        lemma_joined_distinct(a.drop_last(), b.drop_last());
        assert(a =~= a.drop_last().push(a.last()));
        assert(b =~= b.drop_last().push(b.last()));
    } else {
        assert(a =~= b);
    }
}

proof fn lemma_char_words_distinct(a: Seq<char>, b: Seq<char>)
    requires
        char_words(a) == char_words(b),
    ensures
        a == b,
{
    assert(char_words(a).len() == a.len() && char_words(b).len() == b.len());
    assert forall|i: int| 0 <= i < a.len() implies #[trigger] a[i] == b[i] by {
        assert(char_words(a)[i] == a[i] as u64);
        assert(char_words(b)[i] == b[i] as u64);
        lemma_char_word(a[i], b[i]);
    }
    assert(a =~= b);
}

proof fn lemma_split(h: Seq<u64>, p: Seq<u64>, k: Seq<u64>, q: Seq<u64>)
    requires
        h.len() == k.len(),
        h + p == k + q,
    ensures
        h == k,
        p == q,
{
    let n = h.len() as int;
    assert((h + p).subrange(0, n) =~= h);
    assert((k + q).subrange(0, n) =~= k);
    assert((h + p).subrange(n, (h + p).len() as int) =~= p);
    assert((k + q).subrange(n, (k + q).len() as int) =~= q);
}

/// Profiles with one header agree on what it holds.
proof fn lemma_same_header(a: Renderer, b: Renderer)
    requires
        a.header() == b.header(),
    ensures
        a.device == b.device,
        a.has_local == b.has_local,
        a.has_shared == b.has_shared,
        a.has_threads == b.has_threads,
        a.shared_max == b.shared_max,
        a.local_max == b.local_max,
        a.global_prod_max == b.global_prod_max,
        a.upcast_max == b.upcast_max,
        a.buffer_max == b.buffer_max,
        a.supports_float4 == b.supports_float4,
        a.global_max is Some == b.global_max is Some,
        a.renderer_ops is Some == b.renderer_ops is Some,
        a.target is Some == b.target is Some,
{
    let (h, k) = (a.header(), b.header());
    assert(h[0] == k[0] && h[1] == k[1] && h[2] == k[2] && h[3] == k[3] && h[4] == k[4]);
    assert(h[5] == k[5] && h[6] == k[6] && h[7] == k[7] && h[8] == k[8] && h[9] == k[9]);
    assert(h[10] == k[10] && h[11] == k[11] && h[12] == k[12] && h[13] == k[13]);
    assert(h[17] == k[17] && h[21] == k[21]);
}

/// Profiles with one header have lists of the same lengths.
proof fn lemma_same_lengths(a: Renderer, b: Renderer)
    requires
        a.header() == b.header(),
        text_or_empty(a.target).len() <= u64::MAX,
        text_or_empty(b.target).len() <= u64::MAX,
        a.decomposition_profile@.len() <= u64::MAX,
        b.decomposition_profile@.len() <= u64::MAX,
        a.extra_profile@.len() <= u64::MAX,
        b.extra_profile@.len() <= u64::MAX,
    ensures
        a.tensor_cores@.len() == b.tensor_cores@.len(),
        forall|i: int| #![trigger a.lists()[i]] 0 <= i < a.lists().len() ==> a.lists()[i].len() == b.lists()[i].len(),
{
    let (h, k) = (a.header(), b.header());
    assert(h[14] == k[14] && h[15] == k[15] && h[16] == k[16]);
    assert(h[18] == k[18] && h[19] == k[19] && h[20] == k[20]);
    assert(h[22] == k[22] && h[23] == k[23] && h[24] == k[24]);
    lemma_list_lengths(a);
    lemma_list_lengths(b);
    lemma_core_words_length(a.tensor_cores@);
    lemma_core_words_length(b.tensor_cores@);
}

/// Fingerprints tell profiles apart by everything they say, up to collisions of
/// the hash: profiles with the same words are the same.
pub proof fn law_fingerprints_cover_every_capability(a: Renderer, b: Renderer)
    requires
        a.words() == b.words(),
        text_or_empty(a.target).len() <= u64::MAX,
        text_or_empty(b.target).len() <= u64::MAX,
        a.decomposition_profile@.len() <= u64::MAX,
        b.decomposition_profile@.len() <= u64::MAX,
        a.extra_profile@.len() <= u64::MAX,
        b.extra_profile@.len() <= u64::MAX,
    ensures
        same_profile(a, b),
{
    lemma_joined_lists(a);
    lemma_joined_lists(b);
    let (p, q) = (a.lists(), b.lists());
    lemma_split(a.header(), joined(p), b.header(), joined(q));
    lemma_same_header(a, b);
    lemma_same_lengths(a, b);
    lemma_joined_distinct(p, q);
    assert(p[0] == q[0] && p[1] == q[1] && p[2] == q[2]);
    assert(p[3] == q[3] && p[4] == q[4] && p[5] == q[5]);
    assert(p[6] == q[6] && p[7] == q[7] && p[8] == q[8]);
    lemma_size_words_distinct(sizes_or_empty(a.global_max), sizes_or_empty(b.global_max));
    lemma_core_words_distinct(a.tensor_cores@, b.tensor_cores@);
    lemma_dtype_words_distinct(a.supported_dtypes@, b.supported_dtypes@);
    lemma_char_words_distinct(text_or_empty(a.target), text_or_empty(b.target));
    lemma_char_words_distinct(a.decomposition_profile@, b.decomposition_profile@);
    lemma_char_words_distinct(a.extra_profile@, b.extra_profile@);
}

proof fn lemma_size_words_distinct(a: Seq<usize>, b: Seq<usize>)
    requires
        size_words(a) == size_words(b),
    ensures
        a == b,
{
    assert(size_words(a).len() == a.len() && size_words(b).len() == b.len());
    assert forall|i: int| 0 <= i < a.len() implies #[trigger] a[i] == b[i] by {
        assert(size_words(a)[i] == a[i] as u64);
        assert(size_words(b)[i] == b[i] as u64);
    }
    assert(a =~= b);
}

proof fn lemma_dtype_words_distinct(a: Seq<ScalarDType>, b: Seq<ScalarDType>)
    requires
        dtype_words(a) == dtype_words(b),
    ensures
        a == b,
{
    assert(dtype_words(a).len() == a.len() && dtype_words(b).len() == b.len());
    assert forall|i: int| 0 <= i < a.len() implies #[trigger] a[i] == b[i] by {
        assert(dtype_words(a)[i] == dtype_code(a[i]));
        assert(dtype_words(b)[i] == dtype_code(b[i]));
    }
    assert(a =~= b);
}

/// The lengths of lists are numbers of the machine.
proof fn lemma_list_lengths(a: Renderer)
    ensures
        sizes_or_empty(a.global_max).len() <= u64::MAX,
        a.tensor_cores@.len() <= u64::MAX,
        a.supported_dtypes@.len() <= u64::MAX,
        unary_of(a.renderer_ops).len() <= u64::MAX,
        binary_of(a.renderer_ops).len() <= u64::MAX,
        ternary_of(a.renderer_ops).len() <= u64::MAX,
{
    if let Some(v) = a.global_max {
        assert(v.len() == v@.len());
    }
    assert(a.tensor_cores.len() == a.tensor_cores@.len());
    assert(a.supported_dtypes.len() == a.supported_dtypes@.len());
    if let Some(ops) = a.renderer_ops {
        assert(ops.unary.len() == ops.unary@.len());
        assert(ops.binary.len() == ops.binary@.len());
        assert(ops.ternary.len() == ops.ternary@.len());
    }
}

/// The profile of a device that kernels are compiled for: of its exact target
/// where the code generator reports one of its kind, else of its family. A
/// device of no known family is treated as a CPU.
pub fn get_optimizer_renderer(
    device: &DeviceSpec,
    gpu_arch: Option<GpuArch>,
    target: Option<String>,
    ops: RendererOps,
    reported: &Reported,
) -> (renderer: Renderer)
    ensures
        is_bound(renderer, retargeted(device_profile(*device, gpu_arch, *reported), target), ops),
{
    let renderer = match device {
        DeviceSpec::Cpu => Renderer::cpu(reported),
        DeviceSpec::Cuda { .. } => match gpu_arch {
            Some(GpuArch::Cuda(arch)) => Renderer::for_cuda_arch(arch, reported),
            _ => Renderer::cuda(reported),
        },
        DeviceSpec::Metal { .. } => match gpu_arch {
            Some(GpuArch::Metal(family)) => Renderer::for_metal_family(family, reported),
            _ => Renderer::metal(reported),
        },
        DeviceSpec::Amd { .. } => match gpu_arch {
            Some(GpuArch::Amd(arch)) => Renderer::for_amd_arch(arch, reported),
            _ => Renderer::amd_rdna3(reported),
        },
        _ => Renderer::cpu(reported),
    };
    renderer.with_codegen_renderer(target, ops)
}

/// Two profiles say the same.
pub open spec fn profiles_agree(p: Profile, q: Profile) -> bool {
    &&& p.device == q.device
    &&& p.target == q.target
    &&& p.cores == q.cores
    &&& same_report(p.reported, q.reported)
}

/// Reports that say the same leave the same types.
proof fn lemma_same_storage(device: RendererDevice, a: Reported, b: Reported, k: nat)
    requires
        same_report(a, b),
    ensures
        stored_dtypes(device, a, k) == stored_dtypes(device, b, k),
    decreases k,
{
    if k > 0 {
        lemma_same_storage(device, a, b, (k - 1) as nat);
    }
}

/// One device has one profile, by reports that say the same.
pub proof fn lemma_same_device_profile(device: DeviceSpec, gpu_arch: Option<GpuArch>, a: Reported, b: Reported)
    requires
        same_report(a, b),
    ensures
        profiles_agree(device_profile(device, gpu_arch, a), device_profile(device, gpu_arch, b)),
{
}

/// Renderers bound for profiles that say the same, with code generators that
/// render the same, say the same, and so have one fingerprint, however they were
/// made.
pub proof fn law_one_profile_one_fingerprint(
    a: Renderer,
    b: Renderer,
    profile: Profile,
    other: Profile,
    ops: RendererOps,
    other_ops: RendererOps,
)
    requires
        is_bound(a, profile, ops),
        is_bound(b, other, other_ops),
        profiles_agree(profile, other),
        same_ops(ops, other_ops),
    ensures
        a.words() == b.words(),
        hash_words(a.words()) == hash_words(b.words()),
{
    lemma_same_storage(profile.device, profile.reported, other.reported, all_dtypes().len());
    assert(a.header() =~= b.header());
}

/// Where single-precision products may be computed at a lower precision, the
/// NVIDIA GPUs from compute capability 8.0 on have a matrix unit for it, by
/// whatever name they are asked for; where they may not, none takes
/// single-precision operands.
pub proof fn law_lower_precision_is_opted_into(reported: Reported, arch: CudaArch, i: int)
    requires
        arch.major >= 8,
    ensures
        reported.allow_tf32 ==> family_profile(RendererDevice::CudaSm80, reported).cores.contains(tf32_core())
            && cuda_profile(arch, reported).cores.contains(tf32_core()),
        !reported.allow_tf32 && 0 <= i < cuda_profile(arch, reported).cores.len() ==> cuda_profile(
            arch,
            reported,
        ).cores[i].dtype_in != ScalarDType::Float32,
        cuda_profile(arch, reported).cores == family_profile(RendererDevice::CudaSm80, reported).cores,
{
    let cores = family_cores(RendererDevice::CudaSm80, reported);
    let settled = settled_cores(RendererDevice::CudaSm80);
    if reported.allow_tf32 {
        assert(cores[settled.len() as int] == tf32_core());
    }
}

} // verus!
