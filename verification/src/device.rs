//! Devices, GPU architectures and element types.

use vstd::prelude::*;
use vstd::string::*;

use crate::text::{dec, dec_string, digits_value, law_decimals_are_distinct, law_written_numbers_read_back};

verus! {

/// Where a buffer lives or a kernel runs.
#[derive(Debug, PartialEq, Eq)]
pub enum DeviceSpec {
    Cpu,
    Cuda { device_id: usize },
    Amd { device_id: usize },
    Metal { device_id: usize },
    WebGpu,
    /// A file that stands for a device; it holds buffers and runs no kernel.
    Disk { path: String },
}

impl DeviceSpec {
    /// The device's name, unique among devices.
    pub open spec fn name(&self) -> Seq<char> {
        match self {
            DeviceSpec::Cpu => "CPU"@,
            DeviceSpec::Cuda { device_id } => "CUDA:"@ + dec(*device_id as nat),
            DeviceSpec::Amd { device_id } => "AMD:"@ + dec(*device_id as nat),
            DeviceSpec::Metal { device_id } => "METAL:"@ + dec(*device_id as nat),
            DeviceSpec::WebGpu => "WEBGPU"@,
            DeviceSpec::Disk { path } => "DISK:"@ + path@,
        }
    }

    /// The first two letters of the device's name.
    spec fn initial(&self) -> (char, char) {
        match self {
            DeviceSpec::Cpu => ('C', 'P'),
            DeviceSpec::Cuda { .. } => ('C', 'U'),
            DeviceSpec::Amd { .. } => ('A', 'M'),
            DeviceSpec::Metal { .. } => ('M', 'E'),
            DeviceSpec::WebGpu => ('W', 'E'),
            DeviceSpec::Disk { .. } => ('D', 'I'),
        }
    }

    /// Renders the device's name.
    pub fn canonicalize(&self) -> (s: String)
        ensures
            s@ == self.name(),
    {
        match self {
            DeviceSpec::Cpu => "CPU".to_owned(),
            DeviceSpec::Cuda { device_id } => {
                let mut s = "CUDA:".to_owned();
                s.append(dec_string(*device_id as u64).as_str());
                s
            }
            DeviceSpec::Amd { device_id } => {
                let mut s = "AMD:".to_owned();
                s.append(dec_string(*device_id as u64).as_str());
                s
            }
            DeviceSpec::Metal { device_id } => {
                let mut s = "METAL:".to_owned();
                s.append(dec_string(*device_id as u64).as_str());
                s
            }
            DeviceSpec::WebGpu => "WEBGPU".to_owned(),
            DeviceSpec::Disk { path } => {
                let mut s = "DISK:".to_owned();
                s.append(path.as_str());
                s
            }
        }
    }

    /// Whether this is a file and not a device that computes.
    pub fn is_disk(&self) -> (disk: bool)
        ensures
            disk == (*self is Disk),
    {
        match self {
            DeviceSpec::Disk { .. } => true,
            _ => false,
        }
    }

    /// The same device.
    pub fn copy(&self) -> (copy: DeviceSpec)
        ensures
            copy == *self,
    {
        match self {
            DeviceSpec::Cpu => DeviceSpec::Cpu,
            DeviceSpec::Cuda { device_id } => DeviceSpec::Cuda { device_id: *device_id },
            DeviceSpec::Amd { device_id } => DeviceSpec::Amd { device_id: *device_id },
            DeviceSpec::Metal { device_id } => DeviceSpec::Metal { device_id: *device_id },
            DeviceSpec::WebGpu => DeviceSpec::WebGpu,
            DeviceSpec::Disk { path } => DeviceSpec::Disk { path: path.clone() },
        }
    }
}

/// Two devices are one: of one kind, with one number or path.
pub open spec fn same_device(a: DeviceSpec, b: DeviceSpec) -> bool {
    match (a, b) {
        (DeviceSpec::Cpu, DeviceSpec::Cpu) => true,
        (DeviceSpec::Cuda { device_id: x }, DeviceSpec::Cuda { device_id: y }) => x == y,
        (DeviceSpec::Amd { device_id: x }, DeviceSpec::Amd { device_id: y }) => x == y,
        (DeviceSpec::Metal { device_id: x }, DeviceSpec::Metal { device_id: y }) => x == y,
        (DeviceSpec::WebGpu, DeviceSpec::WebGpu) => true,
        (DeviceSpec::Disk { path: x }, DeviceSpec::Disk { path: y }) => x@ == y@,
        _ => false,
    }
}

/// Devices have one name if and only if they are one.
pub proof fn law_device_names_are_distinct(a: DeviceSpec, b: DeviceSpec)
    ensures
        a.name() == b.name() <==> same_device(a, b),
{
    reveal_strlit("CPU");
    reveal_strlit("CUDA:");
    reveal_strlit("AMD:");
    reveal_strlit("METAL:");
    reveal_strlit("WEBGPU");
    reveal_strlit("DISK:");
    let x = a.name();
    let y = b.name();
    assert(x[0] == a.initial().0 && x[1] == a.initial().1);
    assert(y[0] == b.initial().0 && y[1] == b.initial().1);
    if a.name() == b.name() {
        match (a, b) {
            (DeviceSpec::Cuda { device_id: p }, DeviceSpec::Cuda { device_id: q }) => {
                assert(x.subrange(5, x.len() as int) =~= dec(p as nat));
                assert(y.subrange(5, y.len() as int) =~= dec(q as nat));
                law_decimals_are_distinct(p as nat, q as nat);
            },
            (DeviceSpec::Amd { device_id: p }, DeviceSpec::Amd { device_id: q }) => {
                assert(x.subrange(4, x.len() as int) =~= dec(p as nat));
                assert(y.subrange(4, y.len() as int) =~= dec(q as nat));
                law_decimals_are_distinct(p as nat, q as nat);
            },
            (DeviceSpec::Metal { device_id: p }, DeviceSpec::Metal { device_id: q }) => {
                assert(x.subrange(6, x.len() as int) =~= dec(p as nat));
                assert(y.subrange(6, y.len() as int) =~= dec(q as nat));
                law_decimals_are_distinct(p as nat, q as nat);
            },
            (DeviceSpec::Disk { path: p }, DeviceSpec::Disk { path: q }) => {
                assert(x.subrange(5, x.len() as int) =~= p@);
                assert(y.subrange(5, y.len() as int) =~= q@);
            },
            _ => {},
        }
    }
}

/// The same device, where there is one.
pub fn copy_device(device: &Option<DeviceSpec>) -> (copy: Option<DeviceSpec>)
    ensures
        copy == *device,
{
    match device {
        Some(spec) => Some(spec.copy()),
        None => None,
    }
}

/// The element type of a buffer.
#[derive(Clone, Copy, Debug, PartialEq, Eq, Structural)]
pub enum ScalarDType {
    Bool,
    Int8,
    Int16,
    Int32,
    Int64,
    UInt8,
    UInt16,
    UInt32,
    UInt64,
    Float16,
    BFloat16,
    Float32,
    Float64,
    FP8E4M3,
    FP8E5M2,
    FP8E4M3FNUZ,
    FP8E5M2FNUZ,
}

impl ScalarDType {
    /// The width of one element in bytes.
    pub open spec fn width(self) -> nat {
        match self {
            ScalarDType::Bool | ScalarDType::Int8 | ScalarDType::UInt8 | ScalarDType::FP8E4M3
            | ScalarDType::FP8E5M2 | ScalarDType::FP8E4M3FNUZ | ScalarDType::FP8E5M2FNUZ => 1,
            ScalarDType::Int16 | ScalarDType::UInt16 | ScalarDType::Float16 | ScalarDType::BFloat16 => 2,
            ScalarDType::Int32 | ScalarDType::UInt32 | ScalarDType::Float32 => 4,
            ScalarDType::Int64 | ScalarDType::UInt64 | ScalarDType::Float64 => 8,
        }
    }

    /// The width of one element in bytes.
    pub fn bytes(self) -> (bytes: usize)
        ensures
            bytes == self.width(),
            bytes > 0,
    {
        match self {
            ScalarDType::Bool | ScalarDType::Int8 | ScalarDType::UInt8 | ScalarDType::FP8E4M3
            | ScalarDType::FP8E5M2 | ScalarDType::FP8E4M3FNUZ | ScalarDType::FP8E5M2FNUZ => 1,
            ScalarDType::Int16 | ScalarDType::UInt16 | ScalarDType::Float16 | ScalarDType::BFloat16 => 2,
            ScalarDType::Int32 | ScalarDType::UInt32 | ScalarDType::Float32 => 4,
            ScalarDType::Int64 | ScalarDType::UInt64 | ScalarDType::Float64 => 8,
        }
    }
}

/// The compute capability of an NVIDIA GPU.
#[derive(Clone, Copy, Debug, PartialEq, Eq, Structural)]
pub struct CudaArch {
    pub major: u8,
    pub minor: u8,
}

impl CudaArch {
    pub fn from_compute_capability(major: u8, minor: u8) -> (arch: CudaArch)
        ensures
            arch == (CudaArch { major, minor }),
    {
        CudaArch { major, minor }
    }

    /// The name of the target that code for this GPU is compiled for.
    pub open spec fn target(self) -> Seq<char> {
        "sm_"@ + dec(self.major as nat) + dec(self.minor as nat)
    }

    /// Renders the target's name.
    pub fn to_string(&self) -> (s: String)
        ensures
            s@ == self.target(),
    {
        let mut s = "sm_".to_owned();
        s.append(dec_string(self.major as u64).as_str());
        s.append(dec_string(self.minor as u64).as_str());
        s
    }
}

/// The AMD GPUs that kernels can be compiled for.
#[derive(Clone, Copy, Debug, PartialEq, Eq, Structural)]
pub enum AmdArch {
    Gfx942,
    Gfx950,
    Gfx1100,
    Gfx1151,
    Gfx1201,
}

impl AmdArch {
    /// The name of the target that code for this GPU is compiled for.
    pub open spec fn target(self) -> Seq<char> {
        match self {
            AmdArch::Gfx942 => "gfx942"@,
            AmdArch::Gfx950 => "gfx950"@,
            AmdArch::Gfx1100 => "gfx1100"@,
            AmdArch::Gfx1151 => "gfx1151"@,
            AmdArch::Gfx1201 => "gfx1201"@,
        }
    }

    /// The name of the target that code for this GPU is compiled for.
    pub fn mcpu(&self) -> (s: &'static str)
        ensures
            s@ == self.target(),
    {
        match self {
            AmdArch::Gfx942 => "gfx942",
            AmdArch::Gfx950 => "gfx950",
            AmdArch::Gfx1100 => "gfx1100",
            AmdArch::Gfx1151 => "gfx1151",
            AmdArch::Gfx1201 => "gfx1201",
        }
    }

    /// The number under which the driver reports this GPU: major, minor and
    /// stepping in two decimal digits each.
    pub open spec fn gfx_target_version(self) -> u32 {
        match self {
            AmdArch::Gfx942 => 90402,
            AmdArch::Gfx950 => 90500,
            AmdArch::Gfx1100 => 110000,
            AmdArch::Gfx1151 => 110501,
            AmdArch::Gfx1201 => 120001,
        }
    }

    /// The GPU that the driver reports under `version`.
    pub fn from_gfx_target_version(version: u32) -> (arch: Option<AmdArch>)
        ensures
            match arch {
                Some(arch) => arch.gfx_target_version() == version,
                None => forall|arch: AmdArch| #[trigger] arch.gfx_target_version() != version,
            },
    {
        if version == 90402 {
            Some(AmdArch::Gfx942)
        } else if version == 90500 {
            Some(AmdArch::Gfx950)
        } else if version == 110000 {
            Some(AmdArch::Gfx1100)
        } else if version == 110501 {
            Some(AmdArch::Gfx1151)
        } else if version == 120001 {
            Some(AmdArch::Gfx1201)
        } else {
            None
        }
    }
}

/// The families of GPUs under Metal.
#[derive(Clone, Copy, Debug, PartialEq, Eq, Structural)]
pub enum MetalFamily {
    Apple(u8),
    Mac2,
    Unknown,
}

impl MetalFamily {
    /// The name of the target that code for this family is compiled for.
    pub open spec fn target(self) -> Seq<char> {
        match self {
            MetalFamily::Apple(generation) => "apple"@ + dec(generation as nat),
            MetalFamily::Mac2 => "mac2"@,
            MetalFamily::Unknown => "unknown"@,
        }
    }

    /// Renders the target's name.
    pub fn to_string(&self) -> (s: String)
        ensures
            s@ == self.target(),
    {
        match self {
            MetalFamily::Apple(generation) => {
                let mut s = "apple".to_owned();
                s.append(dec_string(*generation as u64).as_str());
                s
            }
            MetalFamily::Mac2 => "mac2".to_owned(),
            MetalFamily::Unknown => "unknown".to_owned(),
        }
    }
}

/// The architecture of a GPU.
#[derive(Clone, Copy, Debug, PartialEq, Eq, Structural)]
pub enum GpuArch {
    Cuda(CudaArch),
    Amd(AmdArch),
    Metal(MetalFamily),
}

impl GpuArch {
    /// The compute capability, of an NVIDIA GPU.
    pub fn cuda(self) -> (arch: Option<CudaArch>)
        ensures
            arch == match self {
                GpuArch::Cuda(arch) => Some(arch),
                _ => None::<CudaArch>,
            },
    {
        match self {
            GpuArch::Cuda(arch) => Some(arch),
            _ => None,
        }
    }

    /// The target, of an AMD GPU.
    pub fn amd(self) -> (arch: Option<AmdArch>)
        ensures
            arch == match self {
                GpuArch::Amd(arch) => Some(arch),
                _ => None::<AmdArch>,
            },
    {
        match self {
            GpuArch::Amd(arch) => Some(arch),
            _ => None,
        }
    }

    /// The family, of a GPU under Metal.
    pub fn metal(self) -> (family: Option<MetalFamily>)
        ensures
            family == match self {
                GpuArch::Metal(family) => Some(family),
                _ => None::<MetalFamily>,
            },
    {
        match self {
            GpuArch::Metal(family) => Some(family),
            _ => None,
        }
    }
}

/// An element has as many bytes as its type has groups of eight bits.
pub proof fn law_elements_have_the_width_of_their_type(dtype: ScalarDType)
    ensures
        dtype is Int8 || dtype is UInt8 || dtype is Bool || dtype is FP8E4M3 || dtype is FP8E5M2 || dtype is FP8E4M3FNUZ
            || dtype is FP8E5M2FNUZ ==> 8 * dtype.width() == 8,
        dtype is Int16 || dtype is UInt16 || dtype is Float16 || dtype is BFloat16 ==> 8 * dtype.width() == 16,
        dtype is Int32 || dtype is UInt32 || dtype is Float32 ==> 8 * dtype.width() == 32,
        dtype is Int64 || dtype is UInt64 || dtype is Float64 ==> 8 * dtype.width() == 64,
{
}

/// The target of an AMD GPU is named after the number that the driver reports: the
/// major and minor version and the stepping, each in two of its decimal places.
pub proof fn law_amd_targets_are_named_after_their_version(arch: AmdArch, other: AmdArch)
    ensures
        ({
            let version = arch.gfx_target_version() as nat;
            arch.target() == "gfx"@ + dec(version / 10000) + dec(version / 100 % 100) + dec(version % 100)
        }),
        arch.gfx_target_version() == other.gfx_target_version() ==> arch == other,
{
    reveal_strlit("gfx");
    reveal_strlit("gfx942");
    reveal_strlit("gfx950");
    reveal_strlit("gfx1100");
    reveal_strlit("gfx1151");
    reveal_strlit("gfx1201");
    reveal_with_fuel(dec, 3);
    let version = arch.gfx_target_version() as nat;
    assert(arch.target() =~= "gfx"@ + dec(version / 10000) + dec(version / 100 % 100) + dec(version % 100));
}

/// NVIDIA GPUs whose minor version is a digit are compiled for one target if and
/// only if their compute capability is the same; the target is named after it.
pub proof fn law_cuda_targets_are_told_apart(a: CudaArch, b: CudaArch)
    requires
        a.minor < 10,
        b.minor < 10,
        a.target() == b.target(),
    ensures
        a == b,
        digits_value(a.target().subrange(3, a.target().len() as int)) == Some((10 * a.major + a.minor) as nat),
{
    reveal_strlit("sm_");
    lemma_cuda_digits(a);
    lemma_cuda_digits(b);
}

proof fn lemma_cuda_digits(a: CudaArch)
    requires
        a.minor < 10,
    ensures
        digits_value(a.target().subrange(3, a.target().len() as int)) == Some((10 * a.major + a.minor) as nat),
{
    reveal_strlit("sm_");
    let digits = a.target().subrange(3, a.target().len() as int);
    assert(digits =~= dec(a.major as nat).push(crate::text::digit(a.minor as int)));
    law_written_numbers_read_back(a.major as nat);
    assert(digits.drop_last() =~= dec(a.major as nat));
    assert(digits.last() == crate::text::digit(a.minor as int));
}

/// Families of GPUs under Metal are compiled for one target if and only if they are
/// one, and a generation of Apple's is named by its number.
pub proof fn law_metal_targets_are_told_apart(a: MetalFamily, b: MetalFamily)
    requires
        a.target() == b.target(),
    ensures
        a == b,
        a matches MetalFamily::Apple(generation) ==> digits_value(a.target().subrange(5, a.target().len() as int))
            == Some(generation as nat),
{
    reveal_strlit("apple");
    reveal_strlit("mac2");
    reveal_strlit("unknown");
    assert(a.target()[0] == b.target()[0]);
    lemma_apple_digits(a);
    lemma_apple_digits(b);
}

proof fn lemma_apple_digits(a: MetalFamily)
    ensures
        a matches MetalFamily::Apple(generation) ==> digits_value(a.target().subrange(5, a.target().len() as int))
            == Some(generation as nat),
{
    reveal_strlit("apple");
    if let MetalFamily::Apple(generation) = a {
        assert(a.target().subrange(5, a.target().len() as int) =~= dec(generation as nat));
        law_written_numbers_read_back(generation as nat);
    }
}

/// A device with a number is named by it, after the name of its kind and a colon.
pub proof fn law_devices_are_named_by_number(device: DeviceSpec)
    ensures
        device matches DeviceSpec::Cuda { device_id } ==> digits_value(device.name().subrange(5, device.name().len() as int))
            == Some(device_id as nat) && device.name().subrange(0, 5) == "CUDA:"@,
        device matches DeviceSpec::Amd { device_id } ==> digits_value(device.name().subrange(4, device.name().len() as int))
            == Some(device_id as nat) && device.name().subrange(0, 4) == "AMD:"@,
        device matches DeviceSpec::Metal { device_id } ==> digits_value(
            device.name().subrange(6, device.name().len() as int),
        ) == Some(device_id as nat) && device.name().subrange(0, 6) == "METAL:"@,
        device matches DeviceSpec::Disk { path } ==> device.name().subrange(5, device.name().len() as int) == path@
            && device.name().subrange(0, 5) == "DISK:"@,
{
    reveal_strlit("CUDA:");
    reveal_strlit("AMD:");
    reveal_strlit("METAL:");
    reveal_strlit("DISK:");
    let name = device.name();
    match device {
        DeviceSpec::Cuda { device_id } => {
            law_written_numbers_read_back(device_id as nat);
            assert(name.subrange(5, name.len() as int) =~= dec(device_id as nat));
            assert(name.subrange(0, 5) =~= "CUDA:"@);
        },
        DeviceSpec::Amd { device_id } => {
            law_written_numbers_read_back(device_id as nat);
            assert(name.subrange(4, name.len() as int) =~= dec(device_id as nat));
            assert(name.subrange(0, 4) =~= "AMD:"@);
        },
        DeviceSpec::Metal { device_id } => {
            law_written_numbers_read_back(device_id as nat);
            assert(name.subrange(6, name.len() as int) =~= dec(device_id as nat));
            assert(name.subrange(0, 6) =~= "METAL:"@);
        },
        DeviceSpec::Disk { path } => {
            assert(name.subrange(5, name.len() as int) =~= path@);
            assert(name.subrange(0, 5) =~= "DISK:"@);
        },
        _ => {},
    }
}

} // verus!
