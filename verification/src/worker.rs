//! What parent and worker processes tell one another.

use vstd::prelude::*;

use crate::device::{DeviceSpec, GpuArch};
use crate::graph::Graph;
use crate::opt::Opt;

verus! {

/// The settings of a beam search.
#[derive(Debug, PartialEq, Eq)]
pub struct BeamConfig {
    pub beam_width: usize,
    pub max_upcast: usize,
    pub max_local: usize,
    /// Candidates with as many operations or more are dropped; 0 for no limit.
    pub max_uops: usize,
    pub min_progress_ns: u64,
    pub enable_nolocals: bool,
    /// The time one candidate may take to compile; 0 for no limit.
    pub compile_timeout_secs: u64,
    pub num_runs: usize,
    /// The number of helper processes; 0 to choose one.
    pub compile_workers: usize,
    /// The number of candidates after which a helper is replaced.
    pub max_tasks_per_child: usize,
    pub disable_cache: bool,
}

impl BeamConfig {
    pub fn copy(&self) -> (settings: BeamConfig)
        ensures
            settings == *self,
    {
        self.with_workers(self.compile_workers)
    }

    /// The settings of a search with this many helpers.
    pub fn with_workers(&self, workers: usize) -> (settings: BeamConfig)
        ensures
            settings == (BeamConfig { compile_workers: workers, ..*self }),
    {
        BeamConfig {
            beam_width: self.beam_width,
            max_upcast: self.max_upcast,
            max_local: self.max_local,
            max_uops: self.max_uops,
            min_progress_ns: self.min_progress_ns,
            enable_nolocals: self.enable_nolocals,
            compile_timeout_secs: self.compile_timeout_secs,
            num_runs: self.num_runs,
            compile_workers: workers,
            max_tasks_per_child: self.max_tasks_per_child,
            disable_cache: self.disable_cache,
        }
    }
}

/// The layout of one kernel argument.
#[derive(Clone, Copy, Debug, PartialEq, Eq, Structural)]
pub struct AbiParamDescriptor {
    pub slot: usize,
    pub bytes: usize,
}

/// The identity of a compiled binary and of the source it was made from.
#[derive(Clone, Copy, Debug, PartialEq, Eq, Structural)]
pub struct BinaryStageIdentity {
    pub source: u64,
    pub binary: u64,
}

/// The version of the protocol that parent and worker speak.
pub const BEAM_WORKER_PROTOCOL_VERSION: u32 = 1;

/// What a worker is told first: the kernel whose candidates it compiles, the
/// target, and the identities that its own compiler and optimizer must have.
#[derive(Debug, PartialEq, Eq)]
pub struct WorkerInit {
    pub protocol_version: u32,
    pub graph: Graph,
    pub device: DeviceSpec,
    pub gpu_arch: Option<GpuArch>,
    pub compiler_key: String,
    pub renderer_fingerprint: u64,
    /// The number of optimizations that the kernel starts with.
    pub base_opt_count: usize,
    pub beam: BeamConfig,
    pub transcendental: i32,
    pub disable_fast_idiv: bool,
    /// Whether dropped candidates are reported.
    pub log_surpass: bool,
}

/// A candidate to compile.
#[derive(Debug, PartialEq, Eq)]
pub struct WorkerJob {
    pub index: usize,
    pub opts: Vec<Opt>,
}

/// A compiled candidate.
#[derive(Debug, PartialEq, Eq)]
pub struct WorkerArtifact {
    pub source: String,
    pub bytes: Vec<u8>,
    pub identity: BinaryStageIdentity,
    pub name: String,
    pub abi: Vec<AbiParamDescriptor>,
    pub global_size: [usize; 3],
    pub local_size: Option<[usize; 3]>,
    pub vals: Vec<i64>,
    pub compute_ops: u64,
    pub preparation_ns: u64,
    pub compilation_ns: u64,
}

/// The answer to a job: an artifact, an error, or neither for a candidate
/// that is not worth timing.
#[derive(Debug, PartialEq, Eq)]
pub struct WorkerResponse {
    pub index: usize,
    pub result: Option<WorkerArtifact>,
    pub error: Option<String>,
}

/// A worker's first answer: whether it could be set up.
#[derive(Debug, PartialEq, Eq)]
pub struct WorkerReady {
    pub error: Option<String>,
}

} // verus!
