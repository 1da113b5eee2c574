//! What profiles say of targets: which element types and matrix units a target has, how
//! a device is profiled, and what fingerprints are taken of.

use std::collections::hash_map::DefaultHasher;

use vstd::bytes::{lemma_auto_spec_u64_to_from_le_bytes, spec_u64_from_le_bytes, spec_u64_to_le_bytes};
use vstd::prelude::*;
use vstd::std_specs::hash::DefaultHasherAdditionalSpecFns;
use vstd::string::*;

use crate::config::{config_of, storage_family, DeviceResolver, Environment};
use crate::device::{AmdArch, CudaArch, DeviceSpec, GpuArch, MetalFamily, ScalarDType};
use crate::opt::word_bytes;
use crate::renderer::{
    amd_profile, binds, cuda_profile, decomposition_of, device_profile, extra_of, family_profile,
    family_stores, hash_words, lemma_stored, metal_profile, retargeted, says, settled_storage, Profile, Renderer,
    RendererDevice, RendererOps, Reported,
};

verus! {

// ---------------------------------------------------------------------------
// Families
// ---------------------------------------------------------------------------

/// An NVIDIA target.
pub open spec fn is_nvidia(device: RendererDevice) -> bool {
    device is CudaSm75 || device is CudaSm80 || device is CudaSm89
}

/// An AMD target.
pub open spec fn is_amd(device: RendererDevice) -> bool {
    device is AmdRdna3 || device is AmdRdna4 || device is AmdCdna3 || device is AmdCdna4
}

/// GPUs run work groups, which share memory: 48 KiB on NVIDIA's, 32 under Metal, 16
/// under WebGPU and 64 on the others. CPUs run none; they split kernels over threads.
pub proof fn law_groups_share_memory_on_gpus(renderer: Renderer, profile: Profile)
    requires
        says(renderer, profile),
    ensures
        renderer.device == profile.device,
        renderer.has_local <==> !(profile.device is Cpu),
        renderer.has_shared <==> renderer.has_local,
        renderer.has_threads <==> !renderer.has_local,
        !renderer.has_shared ==> renderer.shared_max == 0 && renderer.local_max is None,
        renderer.has_local ==> renderer.local_max == profile.reported.local_max,
        is_nvidia(profile.device) ==> renderer.shared_max == 48 * 1024,
        profile.device is Metal ==> renderer.shared_max == 32 * 1024,
        profile.device is WebGpu ==> renderer.shared_max == 16 * 1024,
        is_amd(profile.device) || profile.device is IntelXe ==> renderer.shared_max == 64 * 1024,
{
}

/// What is known of a target's storage decides, whatever is reported: doubles are held
/// by CPUs and by NVIDIA's and AMD's GPUs and not under Metal and WebGPU; bytes by
/// NVIDIA's GPUs, and bfloat16 by those of compute capability 8 and on; 8-bit floats in the
/// standard encodings by AMD's but RDNA3's, and in no other case that is settled. Where
/// nothing is settled, the report decides.
pub proof fn law_targets_hold_what_their_family_does(renderer: Renderer, profile: Profile, dtype: ScalarDType)
    requires
        says(renderer, profile),
    ensures
        ({
            let device = profile.device;
            let holds = renderer.supported_dtypes@.contains(dtype);
            let standard8 = dtype is FP8E4M3 || dtype is FP8E5M2;
            let other8 = dtype is FP8E4M3FNUZ || dtype is FP8E5M2FNUZ;
            let cuda = device is CudaSm75 || device is CudaSm80;
            &&& dtype is Float64 && (device is Cpu || cuda || is_amd(device)) ==> holds
            &&& dtype is Float64 && (device is Metal || device is WebGpu) ==> !holds
            &&& dtype is Int8 && cuda ==> holds
            &&& dtype is BFloat16 && device is CudaSm80 ==> holds
            &&& dtype is BFloat16 && device is CudaSm75 ==> !holds
            &&& (standard8 || other8) && cuda ==> !holds
            &&& standard8 && is_amd(device) ==> (holds <==> !(device is AmdRdna3))
            &&& other8 && is_amd(device) ==> !holds
            &&& !(dtype is Float64) && !standard8 && !other8 && !(cuda && (dtype is Int8 || dtype is BFloat16)) ==> (holds
                <==> profile.reported.storage@.contains(dtype))
            &&& (device is CudaSm89 || device is IntelXe) ==> (holds <==> profile.reported.storage@.contains(dtype))
        }),
{
    lemma_stored(profile.device, profile.reported, dtype);
}

/// A matrix unit takes and gives elements of a type that its target can hold: none is
/// known to be out of its reach.
pub proof fn law_matrix_units_work_on_what_is_held(device: RendererDevice, reported: Reported, i: int)
    requires
        !(device is CudaSm89) && !(device is IntelXe) && !(device is WebGpu),
        0 <= i < family_profile(device, reported).cores.len(),
    ensures
        ({
            let core = family_profile(device, reported).cores[i];
            &&& settled_storage(device, core.dtype_in) != Some(false)
            &&& settled_storage(device, core.dtype_out) != Some(false)
            &&& core.dtype_in.width() <= core.dtype_out.width()
            &&& core.dims.0 > 0 && core.dims.1 > 0 && core.dims.2 > 0
            &&& core.dtype_in is Int8 <==> core.dtype_out is Int32
            &&& !(device is Cpu)
        }),
{
}

/// NVIDIA GPUs have matrix units from compute capability 7.5 on, and those of bfloat16
/// and of bytes from 8.0 on; a later one has no fewer. The target is the capability's.
pub proof fn law_later_nvidia_gpus_do_no_less(a: CudaArch, b: CudaArch, reported: Reported)
    requires
        a.major < b.major || (a.major == b.major && a.minor <= b.minor),
    ensures
        ({
            let (p, q) = (cuda_profile(a, reported), cuda_profile(b, reported));
            &&& p.cores.len() <= q.cores.len()
            &&& p.cores.len() > 0 <==> a.major > 7 || (a.major == 7 && a.minor >= 5)
            &&& p.device is CudaSm80 <==> a.major >= 8
            &&& p.device is CudaSm75 <==> a.major < 8
            &&& p.target == Some(a.target())
            &&& (exists|i: int| #![trigger p.cores[i]] 0 <= i < p.cores.len() && p.cores[i].dtype_in is BFloat16) <==> a.major
                >= 8
            &&& (exists|i: int| #![trigger p.cores[i]] 0 <= i < p.cores.len() && p.cores[i].dtype_in is Int8) <==> a.major
                >= 8
        }),
{
    let p = cuda_profile(a, reported);
    if a.major >= 8 {
        assert(p.cores[1].dtype_in is BFloat16);
        assert(p.cores[5].dtype_in is Int8);
    }
}

/// Apple GPUs have matrix units from the seventh generation on, and no other GPU under
/// Metal has any.
pub proof fn law_later_apple_gpus_do_no_less(a: MetalFamily, reported: Reported)
    ensures
        metal_profile(a, reported).cores.len() > 0 <==> (a matches MetalFamily::Apple(n) && n >= 7),
        metal_profile(a, reported).cores.len() > 0 ==> metal_profile(a, reported).cores == family_profile(
            RendererDevice::Metal,
            reported,
        ).cores,
        metal_profile(a, reported).device is Metal,
        metal_profile(a, reported).target == Some(a.target()),
{
}

/// The family of an AMD GPU follows from its version: 9.4 is CDNA3 and 9.5 CDNA4, 11 is
/// RDNA3 and 12 RDNA4. Only CDNA has matrix units of 8-bit floats, and only RDNA of bytes.
pub proof fn law_amd_families_follow_the_version(arch: AmdArch, reported: Reported)
    ensures
        ({
            let p = amd_profile(arch, reported);
            let version = arch.gfx_target_version() as int;
            let major = version / 10000;
            let minor = version / 100 % 100;
            &&& p.device is AmdCdna3 <==> major == 9 && minor == 4
            &&& p.device is AmdCdna4 <==> major == 9 && minor == 5
            &&& p.device is AmdRdna3 <==> major == 11
            &&& p.device is AmdRdna4 <==> major == 12
            &&& p.target == Some(arch.target())
            &&& (exists|i: int| #![trigger p.cores[i]] 0 <= i < p.cores.len() && p.cores[i].dtype_in is FP8E4M3) <==> major
                == 9
            &&& (exists|i: int| #![trigger p.cores[i]] 0 <= i < p.cores.len() && p.cores[i].dtype_in is Int8) <==> major
                > 9
        }),
{
    let p = amd_profile(arch, reported);
    match arch {
        AmdArch::Gfx942 | AmdArch::Gfx950 => {
            assert(p.cores[1].dtype_in is FP8E4M3);
        },
        AmdArch::Gfx1100 | AmdArch::Gfx1151 => {
            assert(p.cores[3].dtype_in is Int8);
        },
        AmdArch::Gfx1201 => {
            assert(p.cores[4].dtype_in is Int8);
        },
    }
}

// ---------------------------------------------------------------------------
// Devices
// ---------------------------------------------------------------------------

/// A device is profiled by its own kind: an architecture of another kind says nothing of
/// it, and a device that is no GPU of a known vendor is profiled as a CPU.
pub proof fn law_devices_are_profiled_by_their_kind(device: DeviceSpec, arch: Option<GpuArch>, reported: Reported)
    ensures
        ({
            let p = device_profile(device, arch, reported);
            &&& device is Cuda ==> is_nvidia(p.device)
            &&& device is Amd ==> is_amd(p.device)
            &&& device is Metal ==> p.device is Metal
            &&& device is Cpu || device is WebGpu || device is Disk ==> p.device is Cpu && p.target is None
                && p.cores.len() == 0
            &&& p.reported == reported
            &&& p.target is Some <==> (device is Cuda && arch matches Some(GpuArch::Cuda(_))) || (device is Amd && arch
                matches Some(GpuArch::Amd(_))) || (device is Metal && arch matches Some(GpuArch::Metal(_)))
            &&& p.target is None ==> p == device_profile(device, None, reported)
            &&& device is Cuda ==> (arch matches Some(GpuArch::Cuda(own)) ==> p == cuda_profile(own, reported))
            &&& device is Amd ==> (arch matches Some(GpuArch::Amd(own)) ==> p == amd_profile(own, reported))
            &&& device is Metal ==> (arch matches Some(GpuArch::Metal(own)) ==> p == metal_profile(own, reported))
        }),
{
}

/// The target that a code generator reports is the profile's, and nothing else changes;
/// without one the profile keeps its own.
pub proof fn law_code_generators_name_the_target(profile: Profile, target: Option<String>)
    ensures
        ({
            let p = retargeted(profile, target);
            &&& target matches Some(text) ==> p.target == Some(text@)
            &&& target is None ==> p.target == profile.target
            &&& p.device == profile.device && p.cores == profile.cores && p.reported == profile.reported
        }),
{
}

/// Binding a code generator changes the target that it reports, its operations and the
/// rewrites it asks for, and nothing else. Those rewrites are told apart by vendor.
pub proof fn law_bound_rewrites_are_told_apart_by_vendor(
    a: Renderer,
    b: Renderer,
    target: Option<String>,
    ops: RendererOps,
    bound_a: Renderer,
    bound_b: Renderer,
)
    requires
        binds(a, target, ops, bound_a),
        binds(b, target, ops, bound_b),
    ensures
        bound_a.device == a.device,
        bound_a.tensor_cores == a.tensor_cores,
        bound_a.supported_dtypes == a.supported_dtypes,
        bound_a.shared_max == a.shared_max,
        bound_a.renderer_ops == Some(ops),
        target is Some ==> bound_a.target == target,
        target is None ==> bound_a.target == a.target,
        bound_a.decomposition_profile@ == bound_b.decomposition_profile@ <==> (is_nvidia(a.device) <==> is_nvidia(
            b.device,
        )) && (is_amd(a.device) <==> is_amd(b.device)),
        bound_a.extra_profile@ == bound_b.extra_profile@ <==> (is_nvidia(a.device) <==> is_nvidia(b.device)) && (is_amd(
            a.device,
        ) <==> is_amd(b.device)) && (a.device is Cpu <==> b.device is Cpu),
{
    reveal_strlit("nvptx-decomposition-v1");
    reveal_strlit("amd-decomposition-v1");
    reveal_strlit("backend-decomposition-v1");
    reveal_strlit("llvm-cpu-extra-v1");
    reveal_strlit("llvm-nvptx-extra-v1");
    reveal_strlit("llvm-amd-fp8-extra-v1");
    reveal_strlit("backend-extra-v1");
    let (p, q) = (decomposition_of(a.device), decomposition_of(b.device));
    let mark = |device: RendererDevice| if is_nvidia(device) { 'n' } else if is_amd(device) { 'a' } else { 'b' };
    assert(p[0] == mark(a.device) && q[0] == mark(b.device));
    let (r, s) = (extra_of(a.device), extra_of(b.device));
    let first = |device: RendererDevice| if is_nvidia(device) || is_amd(device) || device is Cpu { 'l' } else { 'b' };
    let sixth = |device: RendererDevice| if is_nvidia(device) { 'n' } else if is_amd(device) { 'a' } else { 'c' };
    assert(r[0] == first(a.device) && s[0] == first(b.device));
    assert(r[0] == 'l' ==> r[5] == sixth(a.device));
    assert(s[0] == 'l' ==> s[5] == sixth(b.device));
}

/// The storage of a device is that of its family: a disk holds what a CPU does, an NVIDIA
/// GPU that could not be opened what one of compute capability 8 does, and the opened
/// one what its own capability does.
pub proof fn law_storage_follows_the_device(spec: DeviceSpec, arch: Option<CudaArch>, dtype: ScalarDType, reported: Reported)
    ensures
        ({
            let holds = family_stores(storage_family(spec, arch), dtype, reported);
            &&& spec is Disk ==> storage_family(spec, arch) == storage_family(DeviceSpec::Cpu, None)
            &&& !(spec is Cuda) ==> storage_family(spec, arch) == storage_family(spec, None)
            &&& spec is Cuda && dtype is BFloat16 ==> (holds <==> (arch matches Some(own) ==> own.major >= 8))
            &&& spec is Cpu && dtype is Float64 ==> holds
            &&& (spec is Metal || spec is WebGpu) && dtype is Float64 ==> !holds
            &&& (spec is Cuda || spec is Amd) && dtype is Float64 ==> holds
            &&& (spec is Cuda || spec is Amd) && dtype is FP8E4M3 ==> !holds
            &&& (spec is Cpu || spec is Disk) && !(dtype is Float64) ==> (holds <==> reported.storage@.contains(dtype))
        }),
{
}

/// Settings that come from the environment are the environment's, with the cache on and
/// outputs in the host's reach.
pub proof fn law_settings_come_from_the_environment(environment: Environment, resolver: DeviceResolver)
    ensures
        ({
            let config = config_of(environment, resolver);
            &&& config.optimizer == environment.optimizer
            &&& config.planner_mode == environment.planner_mode
            &&& config.threads == environment.threads
            &&& config.resolver == resolver
            &&& !config.disable_schedule_cache
            &&& !config.device_local_outputs
        }),
{
}

// ---------------------------------------------------------------------------
// Fingerprints
// ---------------------------------------------------------------------------

/// A fingerprint is the hash of bytes that give every word back, and of no others.
pub proof fn law_fingerprints_are_taken_of_every_word(words: Seq<u64>, bytes: Seq<u8>)
    requires
        bytes.len() == 8 * words.len(),
        forall|i: int|
            #![trigger words[i]]
            0 <= i < words.len() ==> spec_u64_from_le_bytes(bytes.subrange(8 * i, 8 * i + 8)) == words[i],
    ensures
        hash_words(words) == DefaultHasher::spec_finish(seq![bytes]),
{
    lemma_auto_spec_u64_to_from_le_bytes();
    let own = word_bytes(words);
    assert forall|k: int| 0 <= k < own.len() implies own[k] == bytes[k] by {
        let i = k / 8;
        let part = bytes.subrange(8 * i, 8 * i + 8);
        assert(spec_u64_from_le_bytes(part) == words[i]);
        assert(part.len() == 8);
        assert(spec_u64_to_le_bytes(words[i]) == part);
        assert(part[k % 8] == bytes[8 * i + k % 8]);
    }
    assert(own =~= bytes);
}

} // verus!
