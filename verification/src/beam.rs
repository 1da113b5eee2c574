//! Beam search: its settings, and what its candidates are told apart and timed
//! by.

use std::collections::hash_map::DefaultHasher;
use std::hash::Hasher;

use vstd::prelude::*;
use vstd::std_specs::hash::DefaultHasherAdditionalSpecFns;
use vstd::string::*;
use vstd::utf8::{encode_utf8, encode_utf8_decode_utf8};

use crate::device::DeviceSpec;
use crate::error::{BeamWorker, Error};
use crate::graph::Graph;
use crate::kernels::{OptimizerConfig, ResolvedDevice};
use crate::opt::{copy_opts, Opt};
use crate::renderer::{flag, flag_word, hash_words, Renderer};
use crate::text::{parse_usize, parsed};
use crate::worker::{BeamConfig, WorkerArtifact, WorkerInit, WorkerResponse, BEAM_WORKER_PROTOCOL_VERSION};

verus! {

// ---------------------------------------------------------------------------
// Settings
// ---------------------------------------------------------------------------

/// The number of helper processes: what a setting asks for; else what the
/// configuration asks for; else the thread budget on GPUs that compile out of
/// process, and none elsewhere.
pub open spec fn worker_count(
    configured: usize,
    device: DeviceSpec,
    threads: usize,
    setting: Option<Seq<char>>,
) -> usize {
    let usual = if configured > 0 {
        configured
    } else {
        match device {
            DeviceSpec::Cuda { .. } | DeviceSpec::Amd { .. } | DeviceSpec::Metal { .. } => threads,
            _ => 0,
        }
    };
    match setting {
        Some(text) => match parsed(text) {
            Some(n) => n,
            None => usual,
        },
        None => usual,
    }
}

/// The number of helper processes of a search.
pub fn resolve_compile_workers(
    configured: usize,
    device: &DeviceSpec,
    threads: usize,
    setting: Option<&str>,
) -> (workers: usize)
    ensures
        workers == worker_count(
            configured,
            *device,
            threads,
            match setting {
                Some(text) => Some(text@),
                None => None,
            },
        ),
{
    let usual: usize = if configured > 0 {
        configured
    } else {
        match device {
            DeviceSpec::Cuda { .. } | DeviceSpec::Amd { .. } | DeviceSpec::Metal { .. } => threads,
            _ => 0,
        }
    };
    match setting {
        Some(text) => match parse_usize(text) {
            Some(n) => n,
            None => usual,
        },
        None => usual,
    }
}

/// A number in two's complement, the low byte first.
pub open spec fn int_bytes(n: i32) -> Seq<u8> {
    let bits = if n >= 0 {
        n as int
    } else {
        n + 0x1_0000_0000
    };
    seq![
        (bits % 256) as u8,
        (bits / 256 % 256) as u8,
        (bits / 0x1_0000 % 256) as u8,
        (bits / 0x100_0000 % 256) as u8,
    ]
}

/// What of the settings after the search changes the code of a kernel, as the
/// bytes that are hashed.
pub open spec fn behavior_bytes(transcendental: i32, disable_fast_idiv: bool) -> Seq<Seq<u8>> {
    seq![
        int_bytes(transcendental),
        seq![
            if disable_fast_idiv {
                1u8
            } else {
                0u8
            },
        ],
    ]
}

/// The identity, in cache keys, of the settings that change the code of a
/// kernel after the search: their hash, the same in every process.
pub fn post_optimizer_behavior_fingerprint(transcendental: i32, disable_fast_idiv: bool) -> (fingerprint: u64)
    ensures
        fingerprint == DefaultHasher::spec_finish(behavior_bytes(transcendental, disable_fast_idiv)),
{
    let bits: u32 = if transcendental >= 0 {
        transcendental as u32
    } else {
        (transcendental as i64 + 0x1_0000_0000) as u32
    };
    let number: [u8; 4] = [
        (bits % 256) as u8,
        (bits / 256 % 256) as u8,
        (bits / 0x1_0000 % 256) as u8,
        (bits / 0x100_0000 % 256) as u8,
    ];
    let flag: [u8; 1] = [if disable_fast_idiv { 1 } else { 0 }];
    let mut hasher = DefaultHasher::new();
    hasher.write(number.as_slice());
    hasher.write(flag.as_slice());
    proof {
        assert(number@ =~= int_bytes(transcendental));
        assert(flag@ =~= behavior_bytes(transcendental, disable_fast_idiv)[1]);
        assert(hasher@ =~= behavior_bytes(transcendental, disable_fast_idiv));
    }
    hasher.finish()
}

/// Four bytes make their number.
proof fn lemma_bytes_make_the_number(bits: int)
    requires
        0 <= bits < 0x1_0000_0000,
    ensures
        bits == bits % 256 + 256 * (bits / 256 % 256) + 0x1_0000 * (bits / 0x1_0000 % 256) + 0x100_0000 * (bits
            / 0x100_0000 % 256),
{
    assert(bits / 0x1_0000 == bits / 256 / 256);
    assert(bits / 0x100_0000 == bits / 256 / 256 / 256);
}

/// A number's two's complement, without its sign.
spec fn bits_of(n: i32) -> int {
    if n >= 0 {
        n as int
    } else {
        n + 0x1_0000_0000
    }
}

/// Settings with the same bytes are the same.
pub proof fn law_behavior_bytes_are_distinct(a: i32, b: bool, c: i32, d: bool)
    requires
        behavior_bytes(a, b) == behavior_bytes(c, d),
    ensures
        a == c,
        b == d,
{
    let x = behavior_bytes(a, b);
    let y = behavior_bytes(c, d);
    assert(x[1][0] == y[1][0]);
    let (p, q) = (x[0], y[0]);
    assert(p == int_bytes(a) && q == int_bytes(c));
    let (m, n) = (bits_of(a), bits_of(c));
    lemma_bytes_make_the_number(m);
    lemma_bytes_make_the_number(n);
    assert(p[0] == m % 256 && p[1] == m / 256 % 256 && p[2] == m / 0x1_0000 % 256 && p[3] == m / 0x100_0000 % 256);
    assert(q[0] == n % 256 && q[1] == n / 256 % 256 && q[2] == n / 0x1_0000 % 256 && q[3] == n / 0x100_0000 % 256);
    assert(m == n);
}

/// What the helpers of a search are told first.
pub fn worker_init(
    graph: Graph,
    resolved: &ResolvedDevice,
    renderer: &Renderer,
    base_opt_count: usize,
    config: &OptimizerConfig,
    workers: usize,
    log_surpass: bool,
) -> (init: WorkerInit)
    ensures
        init.protocol_version == BEAM_WORKER_PROTOCOL_VERSION,
        init.graph == graph,
        init.device == resolved.device,
        init.gpu_arch == resolved.gpu_arch,
        init.compiler_key@ == resolved.compiler_key@,
        init.renderer_fingerprint == hash_words(renderer.words()),
        init.base_opt_count == base_opt_count,
        init.beam == (BeamConfig { compile_workers: workers, ..config.beam }),
        init.transcendental == config.transcendental,
        init.disable_fast_idiv == config.disable_fast_idiv,
        init.log_surpass == log_surpass,
{
    WorkerInit {
        protocol_version: BEAM_WORKER_PROTOCOL_VERSION,
        graph,
        device: resolved.device.copy(),
        gpu_arch: resolved.gpu_arch,
        compiler_key: resolved.compiler_key.clone(),
        renderer_fingerprint: renderer.cache_fingerprint(),
        base_opt_count,
        beam: config.beam.with_workers(workers),
        transcendental: config.transcendental,
        disable_fast_idiv: config.disable_fast_idiv,
        log_surpass,
    }
}

// ---------------------------------------------------------------------------
// Search keys
// ---------------------------------------------------------------------------

impl BeamConfig {
    /// What of a search's settings decides which plan it finds, as words. How
    /// many helpers compile, when they are replaced and whether results are
    /// kept does not.
    pub open spec fn behavior(&self) -> Seq<u64> {
        seq![
            self.beam_width as u64,
            self.max_upcast as u64,
            self.max_local as u64,
            self.max_uops as u64,
            self.min_progress_ns,
            flag(self.enable_nolocals),
            self.compile_timeout_secs,
            self.num_runs as u64,
        ]
    }

    /// What of a search's settings decides which plan it finds.
    pub fn behavior_words(&self) -> (words: Vec<u64>)
        ensures
            words@ == self.behavior(),
    {
        let mut words: Vec<u64> = Vec::new();
        words.push(self.beam_width as u64);
        words.push(self.max_upcast as u64);
        words.push(self.max_local as u64);
        words.push(self.max_uops as u64);
        words.push(self.min_progress_ns);
        words.push(flag_word(self.enable_nolocals));
        words.push(self.compile_timeout_secs);
        words.push(self.num_runs as u64);
        assert(words@ =~= self.behavior());
        words
    }
}

/// The key of a search tells its settings apart by behavior, and by nothing
/// else: two keys are one if and only if the behavior is, whatever the helpers.
pub proof fn law_search_keys_follow_behavior(a: BeamConfig, b: BeamConfig)
    ensures
        a.behavior() == b.behavior() <==> {
            &&& a.beam_width == b.beam_width
            &&& a.max_upcast == b.max_upcast
            &&& a.max_local == b.max_local
            &&& a.max_uops == b.max_uops
            &&& a.min_progress_ns == b.min_progress_ns
            &&& a.enable_nolocals == b.enable_nolocals
            &&& a.compile_timeout_secs == b.compile_timeout_secs
            &&& a.num_runs == b.num_runs
        },
{
    let x = a.behavior();
    let y = b.behavior();
    if x == y {
        assert(x[0] == y[0] && x[1] == y[1] && x[2] == y[2] && x[3] == y[3] && x[4] == y[4] && x[5] == y[5] && x[6]
            == y[6] && x[7] == y[7]);
    }
}

// ---------------------------------------------------------------------------
// Candidates
// ---------------------------------------------------------------------------

/// A compiled candidate with its number, where a worker's answer holds one.
pub fn accepted(response: WorkerResponse) -> (candidate: Option<(usize, WorkerArtifact)>)
    ensures
        candidate == match response.result {
            Some(artifact) => Some((response.index, artifact)),
            None => None::<(usize, WorkerArtifact)>,
        },
{
    let index = response.index;
    match response.result {
        Some(artifact) => Some((index, artifact)),
        None => None,
    }
}

/// What compiled candidates are told apart by: their machine code, or their
/// source where there is none, and which of the two it is.
pub open spec fn identity_of(bytes: Seq<u8>, source: Seq<char>) -> Seq<u8> {
    if bytes.len() == 0 {
        seq![0x53u8] + encode_utf8(source)
    } else {
        seq![0x42u8] + bytes
    }
}

/// What a compiled candidate is told apart from others by.
pub fn binary_key(bytes: &Vec<u8>, source: &str) -> (key: Vec<u8>)
    ensures
        key@ == identity_of(bytes@, source@),
{
    let mut key: Vec<u8> = Vec::new();
    if bytes.len() == 0 {
        key.push(0x53);
        let text = source.as_bytes();
        let mut i: usize = 0;
        while i < text.len()
            invariant
                i <= text@.len(),
                text@ == source.spec_bytes(),
                key@ == seq![0x53u8] + text@.subrange(0, i as int),
            decreases text@.len() - i,
        {
            key.push(text[i]);
            i = i + 1;
        }
        assert(text@.subrange(0, i as int) =~= text@);
    } else {
        key.push(0x42);
        let mut i: usize = 0;
        while i < bytes.len()
            invariant
                i <= bytes@.len(),
                key@ == seq![0x42u8] + bytes@.subrange(0, i as int),
            decreases bytes@.len() - i,
        {
            key.push(bytes[i]);
            i = i + 1;
        }
        assert(bytes@.subrange(0, i as int) =~= bytes@);
    }
    key
}

/// Candidates are told apart by their machine code, where there is any, and
/// else by their source.
pub proof fn law_binaries_are_told_apart(a: Seq<u8>, b: Seq<u8>, source_a: Seq<char>, source_b: Seq<char>)
    requires
        identity_of(a, source_a) == identity_of(b, source_b),
    ensures
        a == b,
        a.len() == 0 ==> source_a == source_b,
{
    let x = identity_of(a, source_a);
    let y = identity_of(b, source_b);
    assert(x[0] == if a.len() == 0 { 0x53u8 } else { 0x42u8 });
    assert(y[0] == if b.len() == 0 { 0x53u8 } else { 0x42u8 });
    if a.len() == 0 {
        assert(a =~= b);
        assert(x.subrange(1, x.len() as int) =~= encode_utf8(source_a));
        assert(y.subrange(1, y.len() as int) =~= encode_utf8(source_b));
        encode_utf8_decode_utf8(source_a);
        encode_utf8_decode_utf8(source_b);
    } else {
        assert(x.subrange(1, x.len() as int) =~= a);
        assert(y.subrange(1, y.len() as int) =~= b);
    }
}

/// A candidate that was compiled, with what it is told apart and timed by.
#[derive(Debug, PartialEq, Eq)]
pub struct CompiledCandidate {
    /// The program, by its number in the caller's store.
    pub program: u64,
    pub opts: Vec<Opt>,
    pub vals: Vec<i64>,
    pub global_size: [usize; 3],
    pub local_size: Option<[usize; 3]>,
    pub binary_key: Vec<u8>,
    pub compute_ops: u64,
    pub preparation_ns: u64,
    pub compilation_ns: u64,
}

/// Candidate `index` of a wave, of which a worker made `artifact` and the device
/// `program`.
pub fn compiled_candidate(
    candidates: &Vec<Vec<Opt>>,
    index: usize,
    artifact: WorkerArtifact,
    program: u64,
) -> (candidate: CompiledCandidate)
    requires
        index < candidates@.len(),
    ensures
        candidate.program == program,
        candidate.opts@ == candidates@[index as int]@,
        candidate.vals == artifact.vals,
        candidate.global_size == artifact.global_size,
        candidate.local_size == artifact.local_size,
        candidate.binary_key@ == identity_of(artifact.bytes@, artifact.source@),
        candidate.compute_ops == artifact.compute_ops,
        candidate.preparation_ns == artifact.preparation_ns,
        candidate.compilation_ns == artifact.compilation_ns,
{
    let binary_key = binary_key(&artifact.bytes, artifact.source.as_str());
    CompiledCandidate {
        program,
        opts: copy_opts(&candidates[index]),
        vals: artifact.vals,
        global_size: artifact.global_size,
        local_size: artifact.local_size,
        binary_key,
        compute_ops: artifact.compute_ops,
        preparation_ns: artifact.preparation_ns,
        compilation_ns: artifact.compilation_ns,
    }
}

// ---------------------------------------------------------------------------
// Timing
// ---------------------------------------------------------------------------

/// The launches of a timed kernel are no more than this.
pub const MAX_TEST_GLOBAL_SIZE: usize = 65536;

/// The number of launches.
pub open spec fn volume(a: int, b: int, c: int) -> int {
    a * b * c
}

/// A launch made smaller for timing: while it is too large, the last axis that
/// is longer than 16 is halved.
pub open spec fn shrunk(a: nat, b: nat, c: nat) -> (nat, nat, nat)
    decreases a + b + c,
{
    if volume(a as int, b as int, c as int) > MAX_TEST_GLOBAL_SIZE {
        if c > 16 {
            shrunk(a, b, c / 2)
        } else if b > 16 {
            shrunk(a, b / 2, c)
        } else if a > 16 {
            shrunk(a / 2, b, c)
        } else {
            (a, b, c)
        }
    } else {
        (a, b, c)
    }
}

proof fn lemma_volume_shrinks(a: int, b: int, c: int, x: int, y: int, z: int)
    requires
        0 <= x <= a,
        0 <= y <= b,
        0 <= z <= c,
    ensures
        0 <= volume(x, y, z) <= volume(a, b, c),
        0 <= x * y <= a * b,
{
    assert(0 <= x * y <= a * b) by (nonlinear_arith)
        requires
            0 <= x <= a,
            0 <= y <= b,
    ;
    assert(0 <= (x * y) * z <= (a * b) * c) by (nonlinear_arith)
        requires
            0 <= x * y <= a * b,
            0 <= z <= c,
    ;
}

proof fn lemma_partial_product(a: int, b: int, c: int)
    requires
        0 <= a,
        0 <= b,
        1 <= c,
    ensures
        a * b <= volume(a, b, c),
{
    assert(a * b <= (a * b) * c) by (nonlinear_arith)
        requires
            0 <= a,
            0 <= b,
            1 <= c,
    ;
}

/// The number of launches along three axes.
fn product(size: [usize; 3]) -> (total: usize)
    requires
        volume(size[0] as int, size[1] as int, size[2] as int) <= usize::MAX,
    ensures
        total == volume(size[0] as int, size[1] as int, size[2] as int),
{
    let (a, b, c): (usize, usize, usize) = (size[0], size[1], size[2]);
    if c == 0 {
        assert(volume(a as int, b as int, 0) == 0) by (nonlinear_arith);
        return 0;
    }
    proof {
        lemma_partial_product(a as int, b as int, c as int);
        assert(0 <= a * b) by (nonlinear_arith);
    }
    let ab = a * b;
    assert(0 <= ab * c) by (nonlinear_arith);
    ab * c
}

/// A launch made smaller for timing.
pub fn shrink_global_size(global_size: [usize; 3]) -> (size: [usize; 3])
    requires
        volume(global_size[0] as int, global_size[1] as int, global_size[2] as int) <= usize::MAX,
    ensures
        (size[0] as nat, size[1] as nat, size[2] as nat) == shrunk(
            global_size[0] as nat,
            global_size[1] as nat,
            global_size[2] as nat,
        ),
{
    let mut size = global_size;
    let ghost target = shrunk(global_size[0] as nat, global_size[1] as nat, global_size[2] as nat);
    while product(size) > MAX_TEST_GLOBAL_SIZE
        invariant_except_break
            volume(size[0] as int, size[1] as int, size[2] as int) <= usize::MAX,
            shrunk(size[0] as nat, size[1] as nat, size[2] as nat) == target,
        ensures
            (size[0] as nat, size[1] as nat, size[2] as nat) == target,
        decreases size[0] + size[1] + size[2],
    {
        let (a, b, c): (usize, usize, usize) = (size[0], size[1], size[2]);
        if c > 16 {
            proof {
                lemma_volume_shrinks(a as int, b as int, c as int, a as int, b as int, (c / 2) as int);
            }
            size = [a, b, c / 2];
        } else if b > 16 {
            proof {
                lemma_volume_shrinks(a as int, b as int, c as int, a as int, (b / 2) as int, c as int);
            }
            size = [a, b / 2, c];
        } else if a > 16 {
            proof {
                lemma_volume_shrinks(a as int, b as int, c as int, (a / 2) as int, b as int, c as int);
            }
            size = [a / 2, b, c];
        } else {
            break;
        }
    }
    size
}

/// A launch that is timed is never too large, no axis of it is longer than it
/// was, and no axis is cut below 8.
pub proof fn law_timed_launches_are_bounded(a: nat, b: nat, c: nat)
    ensures
        ({
            let (x, y, z) = shrunk(a, b, c);
            &&& volume(x as int, y as int, z as int) <= MAX_TEST_GLOBAL_SIZE
            &&& x <= a && y <= b && z <= c
            &&& (x == a || x >= 8) && (y == b || y >= 8) && (z == c || z >= 8)
        }),
    decreases a + b + c,
{
    if volume(a as int, b as int, c as int) > MAX_TEST_GLOBAL_SIZE {
        if c > 16 {
            law_timed_launches_are_bounded(a, b, c / 2);
        } else if b > 16 {
            law_timed_launches_are_bounded(a, b / 2, c);
        } else if a > 16 {
            law_timed_launches_are_bounded(a / 2, b, c);
        } else {
            lemma_volume_shrinks(16, 16, 16, a as int, b as int, c as int);
            assert(volume(16, 16, 16) == 4096) by (nonlinear_arith);
        }
    }
}

/// A launch that is small enough is timed as it is.
pub proof fn law_small_launches_are_kept(a: nat, b: nat, c: nat)
    requires
        volume(a as int, b as int, c as int) <= MAX_TEST_GLOBAL_SIZE,
    ensures
        shrunk(a, b, c) == (a, b, c),
{
}

// ---------------------------------------------------------------------------
// The search
// ---------------------------------------------------------------------------

/// A kernel to search the optimizations of.
#[derive(Debug, PartialEq, Eq)]
pub struct SearchJob {
    pub resolved: ResolvedDevice,
    pub renderer: Renderer,
    /// The number of buffers that candidates are timed on.
    pub buffers: usize,
    pub config: OptimizerConfig,
    /// The number of helper processes that was settled on.
    pub workers: usize,
    /// Whether dropped candidates are reported.
    pub log_surpass: bool,
}

/// What a search waits for.
#[derive(Debug, PartialEq, Eq)]
pub enum SearchState {
    /// The kernel in the form that helpers read.
    Encoding,
    /// The kernel in the form that the search works on.
    Preparing { graph: Graph },
    /// The memory of buffer `next`.
    Allocating { graph: Graph, base_opt_count: usize, next: usize },
    /// The helpers.
    Starting,
    /// The best plan.
    Searching,
    /// The kernel under that plan.
    Finishing,
}

/// What came of the last action of a search.
#[derive(Debug, PartialEq, Eq)]
pub enum SearchEvent {
    Encoded(Result<Graph, String>),
    /// A kernel to which this many optimizations were applied.
    Prepared(Result<usize, String>),
    Allocated(Result<(), String>),
    Started(Result<(), BeamWorker>),
    Found(Result<(), String>),
    /// The optimized kernel, by its number in the caller's store.
    Finished(Result<u64, String>),
}

/// What a search does next.
#[derive(Debug, PartialEq, Eq)]
pub enum SearchAction {
    /// Bring the kernel into the form that the search works on.
    Prepare,
    /// Allocate the memory of the buffer at `index`.
    Allocate { index: usize },
    /// Start this many helpers and tell them this.
    Start { init: WorkerInit, workers: usize },
    /// Search, with plans kept under this fingerprint.
    Search { behavior_fingerprint: u64 },
    /// Apply the plan that was found.
    Finish,
    /// The search is over.
    Done(Result<u64, Error>),
}

/// Whether an event can happen to a search.
pub open spec fn awaits(state: SearchState, event: SearchEvent) -> bool {
    match event {
        SearchEvent::Encoded(_) => state is Encoding,
        SearchEvent::Prepared(_) => state is Preparing,
        SearchEvent::Allocated(_) => state is Allocating,
        SearchEvent::Started(_) => state is Starting,
        SearchEvent::Found(_) => state is Searching,
        SearchEvent::Finished(_) => state is Finishing,
    }
}

/// What helpers of a job are told.
pub open spec fn tells(job: &SearchJob, graph: Graph, base_opt_count: usize, init: WorkerInit) -> bool {
    &&& init.protocol_version == BEAM_WORKER_PROTOCOL_VERSION
    &&& init.graph == graph
    &&& init.device == job.resolved.device
    &&& init.gpu_arch == job.resolved.gpu_arch
    &&& init.compiler_key@ == job.resolved.compiler_key@
    &&& init.renderer_fingerprint == hash_words(job.renderer.words())
    &&& init.base_opt_count == base_opt_count
    &&& init.beam == (BeamConfig { compile_workers: job.workers, ..job.config.beam })
    &&& init.transcendental == job.config.transcendental
    &&& init.disable_fast_idiv == job.config.disable_fast_idiv
    &&& init.log_surpass == job.log_surpass
}

/// What follows once the first `next` buffers are allocated: the next one, or
/// the helpers, at least one.
pub open spec fn allocates_or_starts(
    job: &SearchJob,
    graph: Graph,
    base_opt_count: usize,
    next: usize,
    step: (Option<SearchState>, SearchAction),
) -> bool {
    if next < job.buffers {
        step == (
            Some(SearchState::Allocating { graph, base_opt_count, next }),
            SearchAction::Allocate { index: next },
        )
    } else {
        &&& step.0 == Some(SearchState::Starting)
        &&& step.1 matches SearchAction::Start { init, workers } && tells(job, graph, base_opt_count, init) && workers
            == if job.workers == 0 {
            1
        } else {
            job.workers
        }
    }
}

/// The search ends with an error of a stage.
pub open spec fn search_failed(
    step: (Option<SearchState>, SearchAction),
    at: Seq<char>,
    why: Seq<char>,
) -> bool {
    step.0 is None && (step.1 matches SearchAction::Done(Err(Error::Stage { stage, message })) && stage@ == at
        && message@ == why)
}

/// What follows an event of a search.
pub open spec fn search_steps(
    job: &SearchJob,
    state: SearchState,
    event: SearchEvent,
    step: (Option<SearchState>, SearchAction),
) -> bool {
    match (state, event) {
        (SearchState::Encoding, SearchEvent::Encoded(encoded)) => match encoded {
            Ok(graph) => step == (Some(SearchState::Preparing { graph }), SearchAction::Prepare),
            Err(why) => search_failed(step, "graph"@, why@),
        },
        (SearchState::Preparing { graph }, SearchEvent::Prepared(prepared)) => match prepared {
            Ok(applied) => allocates_or_starts(job, graph, applied, 0, step),
            Err(why) => search_failed(step, "optimize"@, why@),
        },
        (SearchState::Allocating { graph, base_opt_count, next }, SearchEvent::Allocated(allocated)) => match allocated {
            Ok(_) => allocates_or_starts(job, graph, base_opt_count, (next + 1) as usize, step),
            Err(why) => search_failed(step, "device"@, why@),
        },
        (SearchState::Starting, SearchEvent::Started(started)) => match started {
            Ok(_) => step == (
                Some(SearchState::Searching),
                SearchAction::Search {
                    behavior_fingerprint: DefaultHasher::spec_finish(
                        behavior_bytes(job.config.transcendental, job.config.disable_fast_idiv),
                    ),
                },
            ),
            Err(error) => search_failed(step, "device"@, error.message()),
        },
        (SearchState::Searching, SearchEvent::Found(found)) => match found {
            Ok(_) => step == (Some(SearchState::Finishing), SearchAction::Finish),
            Err(why) => search_failed(step, "optimize"@, why@),
        },
        (SearchState::Finishing, SearchEvent::Finished(finished)) => match finished {
            Ok(kernel) => step == (None::<SearchState>, SearchAction::Done(Ok(kernel))),
            Err(why) => search_failed(step, "optimize"@, why@),
        },
        _ => true,
    }
}

fn stage_failed(stage: &str, message: String) -> (step: (Option<SearchState>, SearchAction))
    ensures
        search_failed(step, stage@, message@),
{
    (None, SearchAction::Done(Err(Error::Stage { stage: stage.to_owned(), message })))
}

fn allocate_or_start(
    job: &SearchJob,
    graph: Graph,
    base_opt_count: usize,
    next: usize,
) -> (step: (Option<SearchState>, SearchAction))
    ensures
        allocates_or_starts(job, graph, base_opt_count, next, step),
{
    if next < job.buffers {
        return (
            Some(SearchState::Allocating { graph, base_opt_count, next }),
            SearchAction::Allocate { index: next },
        );
    }
    let init = worker_init(
        graph,
        &job.resolved,
        &job.renderer,
        base_opt_count,
        &job.config,
        job.workers,
        job.log_surpass,
    );
    let workers = if job.workers == 0 { 1 } else { job.workers };
    (Some(SearchState::Starting), SearchAction::Start { init, workers })
}

/// Takes what came of the last action of a kernel's search and gives the next.
///
/// The kernel is brought into the forms that helpers and the search work on, the
/// buffers that candidates are timed on are allocated in order, the helpers are
/// started, the search is run, and its plan is applied to the kernel. The first
/// of these that fails ends the search.
pub fn beam_search_optimize(
    job: &SearchJob,
    state: SearchState,
    event: SearchEvent,
) -> (step: (Option<SearchState>, SearchAction))
    requires
        awaits(state, event),
        state matches SearchState::Allocating { next, .. } ==> next < job.buffers,
    ensures
        search_steps(job, state, event, step),
        step.0 matches Some(SearchState::Allocating { next, .. }) ==> next < job.buffers,
{
    match event {
        SearchEvent::Encoded(Ok(graph)) => (Some(SearchState::Preparing { graph }), SearchAction::Prepare),
        SearchEvent::Encoded(Err(why)) => stage_failed("graph", why),
        SearchEvent::Prepared(Ok(applied)) => match state {
            SearchState::Preparing { graph } => allocate_or_start(job, graph, applied, 0),
            _ => stage_failed("optimize", String::new()),
        },
        SearchEvent::Prepared(Err(why)) => stage_failed("optimize", why),
        SearchEvent::Allocated(Ok(())) => match state {
            SearchState::Allocating { graph, base_opt_count, next } => allocate_or_start(
                job,
                graph,
                base_opt_count,
                next + 1,
            ),
            _ => stage_failed("device", String::new()),
        },
        SearchEvent::Allocated(Err(why)) => stage_failed("device", why),
        SearchEvent::Started(Ok(())) => {
            let behavior_fingerprint = post_optimizer_behavior_fingerprint(
                job.config.transcendental,
                job.config.disable_fast_idiv,
            );
            (Some(SearchState::Searching), SearchAction::Search { behavior_fingerprint })
        }
        SearchEvent::Started(Err(error)) => stage_failed("device", error.to_string()),
        SearchEvent::Found(Ok(())) => (Some(SearchState::Finishing), SearchAction::Finish),
        SearchEvent::Found(Err(why)) => stage_failed("optimize", why),
        SearchEvent::Finished(Ok(kernel)) => (None, SearchAction::Done(Ok(kernel))),
        SearchEvent::Finished(Err(why)) => stage_failed("optimize", why),
    }
}

/// Helpers are started only once every buffer is allocated, and what they are
/// told lets them serve: they speak the same protocol, and have to compile with
/// the compiler and optimize for the profile of the search.
pub proof fn law_helpers_are_told_what_the_search_uses(
    job: &SearchJob,
    state: SearchState,
    event: SearchEvent,
    step: (Option<SearchState>, SearchAction),
)
    requires
        awaits(state, event),
        state matches SearchState::Allocating { next, .. } ==> next < job.buffers,
        search_steps(job, state, event, step),
    ensures
        step.1 matches SearchAction::Start { init, workers } ==> {
            &&& workers >= 1
            &&& init.protocol_version == BEAM_WORKER_PROTOCOL_VERSION
            &&& init.compiler_key@ == job.resolved.compiler_key@
            &&& init.renderer_fingerprint == hash_words(job.renderer.words())
            &&& job.buffers == 0 || (state matches SearchState::Allocating { next, .. } && next + 1 == job.buffers
                && event matches SearchEvent::Allocated(Ok(_)))
        },
{
}

} // verus!
