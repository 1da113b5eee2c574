//! The life of a worker process: it is told what to compile for, checks that it
//! is what the parent takes it for, and then answers jobs until its input ends.

use vstd::prelude::*;
use vstd::string::*;

use crate::device::{AmdArch, CudaArch, DeviceSpec, GpuArch};
use crate::error::BeamWorker;
use crate::helper::unavailable;
use crate::renderer::{
    device_profile, get_optimizer_renderer, hash_words, is_bound, law_one_profile_one_fingerprint,
    lemma_same_device_profile, retargeted, same_ops, same_report, Profile, Renderer, RendererOps, Reported,
};
use crate::text::{dec, dec_string};
use crate::worker::{
    WorkerArtifact, WorkerInit, WorkerReady, WorkerResponse, BEAM_WORKER_PROTOCOL_VERSION,
};

verus! {

// ---------------------------------------------------------------------------
// Code generators
// ---------------------------------------------------------------------------

/// The code generators that a worker can make.
#[derive(Clone, Copy, Debug, PartialEq, Eq, Structural)]
pub enum CodegenFactory {
    CpuClang,
    CpuLlvm,
    Amd { device_id: usize, arch: AmdArch },
    Metal { device_id: usize },
    Cuda { device_id: usize, arch: CudaArch },
}

/// What to do for a code generator.
#[derive(Debug, PartialEq, Eq)]
pub enum CodegenStep {
    /// Make this one and say what its compiler is.
    Create(CodegenFactory),
    /// Use the one made at `chosen`, and optimize for this target.
    Ready { chosen: usize, renderer: Renderer },
}

/// `std::fmt::Debug` of a string: the text in quotes, as programs write it.
pub uninterp spec fn debug_text(s: Seq<char>) -> Seq<char>;

/// `format!` with `{:?}` on a string. How characters are escaped depends on the
/// string alone and is left unsaid.
#[verifier::external_body]
fn debug_string(s: &str) -> (shown: String)
    ensures
        shown@ == debug_text(s@),
{
    format!("{:?}", s)
}

/// A device as it is shown in errors.
pub open spec fn shown_device(device: DeviceSpec) -> Seq<char> {
    match device {
        DeviceSpec::Cpu => "Cpu"@,
        DeviceSpec::Cuda { device_id } => "Cuda { device_id: "@ + dec(device_id as nat) + " }"@,
        DeviceSpec::Amd { device_id } => "Amd { device_id: "@ + dec(device_id as nat) + " }"@,
        DeviceSpec::Metal { device_id } => "Metal { device_id: "@ + dec(device_id as nat) + " }"@,
        DeviceSpec::WebGpu => "WebGpu"@,
        DeviceSpec::Disk { path } => "Disk { path: "@ + debug_text(path@) + " }"@,
    }
}

fn show_device(device: &DeviceSpec) -> (shown: String)
    ensures
        shown@ == shown_device(*device),
{
    match device {
        DeviceSpec::Cpu => "Cpu".to_owned(),
        DeviceSpec::Cuda { device_id } => {
            let mut shown = "Cuda { device_id: ".to_owned();
            shown.append(dec_string(*device_id as u64).as_str());
            shown.append(" }");
            shown
        }
        DeviceSpec::Amd { device_id } => {
            let mut shown = "Amd { device_id: ".to_owned();
            shown.append(dec_string(*device_id as u64).as_str());
            shown.append(" }");
            shown
        }
        DeviceSpec::Metal { device_id } => {
            let mut shown = "Metal { device_id: ".to_owned();
            shown.append(dec_string(*device_id as u64).as_str());
            shown.append(" }");
            shown
        }
        DeviceSpec::WebGpu => "WebGpu".to_owned(),
        DeviceSpec::Disk { path } => {
            let mut shown = "Disk { path: ".to_owned();
            shown.append(debug_string(path.as_str()).as_str());
            shown.append(" }");
            shown
        }
    }
}

/// A code generator that was made: the identity of its compiler, the target that
/// it reports and the operations that it renders, and what the worker's
/// optimizer reports of its device.
#[derive(Debug, PartialEq, Eq)]
pub struct CreatedCodegen {
    pub compiler_key: String,
    pub target: Option<String>,
    pub ops: RendererOps,
    pub reported: Reported,
}

/// The first of the code generators made so far whose compiler is `key`.
pub open spec fn first_match(created: Seq<CreatedCodegen>, k: nat, key: Seq<char>) -> Option<usize>
    decreases k,
{
    if k == 0 {
        None
    } else {
        match first_match(created, (k - 1) as nat, key) {
            Some(i) => Some(i),
            None => if created[k - 1].compiler_key@ == key {
                Some((k - 1) as usize)
            } else {
                None
            },
        }
    }
}

/// What a worker optimizes for with a code generator that was made.
pub open spec fn made_profile(init: &WorkerInit, made: CreatedCodegen) -> Profile {
    retargeted(device_profile(init.device, init.gpu_arch, made.reported), made.target)
}

/// What to do for the one code generator that a device has: make it, and then
/// use it if it is the parent's.
pub open spec fn only_choice(
    init: &WorkerInit,
    created: Seq<CreatedCodegen>,
    factory: CodegenFactory,
    step: Result<CodegenStep, BeamWorker>,
) -> bool {
    if created.len() == 0 {
        step == Ok::<CodegenStep, BeamWorker>(CodegenStep::Create(factory))
    } else if created[0].compiler_key@ != init.compiler_key@ {
        step matches Err(error) && unavailable(
            error,
            "compiler identity mismatch: parent="@ + init.compiler_key@ + ", worker="@ + created[0].compiler_key@,
        )
    } else {
        step matches Ok(CodegenStep::Ready { chosen, renderer }) && chosen == 0 && is_bound(
            renderer,
            made_profile(init, created[0]),
            created[0].ops,
        )
    }
}

/// What a worker does for a code generator, given the identities of those it
/// made.
pub open spec fn codegen_steps(
    init: &WorkerInit,
    created: Seq<CreatedCodegen>,
    step: Result<CodegenStep, BeamWorker>,
) -> bool {
    match init.device {
        DeviceSpec::Cpu => match first_match(created, created.len(), init.compiler_key@) {
            Some(i) => step matches Ok(CodegenStep::Ready { chosen, renderer }) && chosen == i && is_bound(
                renderer,
                made_profile(init, created[i as int]),
                created[i as int].ops,
            ),
            None => if created.len() == 0 {
                step == Ok::<CodegenStep, BeamWorker>(CodegenStep::Create(CodegenFactory::CpuClang))
            } else if created.len() == 1 {
                step == Ok::<CodegenStep, BeamWorker>(CodegenStep::Create(CodegenFactory::CpuLlvm))
            } else {
                step matches Err(error) && unavailable(
                    error,
                    "no CPU backend matches compiler identity "@ + init.compiler_key@,
                )
            },
        },
        DeviceSpec::Amd { device_id } => match init.gpu_arch {
            Some(GpuArch::Amd(arch)) => only_choice(
                init,
                created,
                CodegenFactory::Amd { device_id, arch },
                step,
            ),
            _ => step matches Err(error) && unavailable(
                error,
                "AMD BEAM worker initialization has no target architecture"@,
            ),
        },
        DeviceSpec::Metal { device_id } => only_choice(
            init,
            created,
            CodegenFactory::Metal { device_id },
            step,
        ),
        DeviceSpec::Cuda { device_id } => match init.gpu_arch {
            Some(GpuArch::Cuda(arch)) => only_choice(
                init,
                created,
                CodegenFactory::Cuda { device_id, arch },
                step,
            ),
            _ => step matches Err(error) && unavailable(
                error,
                "CUDA BEAM worker initialization has no target architecture"@,
            ),
        },
        _ => step matches Err(error) && unavailable(
            error,
            shown_device(init.device) + " has no device-disabled BEAM codegen factory"@,
        ),
    }
}

fn find_match(created: &Vec<CreatedCodegen>, key: &String) -> (found: Option<usize>)
    ensures
        found == first_match(created@, created@.len(), key@),
{
    let mut i: usize = 0;
    while i < created.len()
        invariant
            i <= created@.len(),
            first_match(created@, i as nat, key@) is None,
        decreases created@.len() - i,
    {
        if created[i].compiler_key == *key {
            proof {
                assert(first_match(created@, (i + 1) as nat, key@) == Some(i));
                lemma_match_found(created@, (i + 1) as nat, created@.len(), key@);
            }
            return Some(i);
        }
        i = i + 1;
    }
    None
}

proof fn lemma_match_found(created: Seq<CreatedCodegen>, k: nat, n: nat, key: Seq<char>)
    requires
        k <= n,
        first_match(created, k, key) is Some,
    ensures
        first_match(created, n, key) == first_match(created, k, key),
    decreases n - k,
{
    if k < n {
        lemma_match_found(created, k, (n - 1) as nat, key);
    }
}

/// The profile of the worker's device, with a code generator that was made.
fn renderer_with(init: &WorkerInit, made: &CreatedCodegen) -> (renderer: Renderer)
    ensures
        is_bound(renderer, made_profile(init, *made), made.ops),
{
    let target = match &made.target {
        Some(target) => Some(target.clone()),
        None => None,
    };
    get_optimizer_renderer(&init.device, init.gpu_arch, target, made.ops.copy(), &made.reported)
}

/// Checks the one code generator of a device.
fn choose_only(
    init: &WorkerInit,
    created: &Vec<CreatedCodegen>,
    factory: CodegenFactory,
) -> (step: Result<CodegenStep, BeamWorker>)
    ensures
        only_choice(init, created@, factory, step),
{
    if created.len() == 0 {
        return Ok(CodegenStep::Create(factory));
    }
    if created[0].compiler_key != init.compiler_key {
        let mut reason = "compiler identity mismatch: parent=".to_owned();
        reason.append(init.compiler_key.as_str());
        reason.append(", worker=");
        reason.append(created[0].compiler_key.as_str());
        return Err(BeamWorker::HelperUnavailable { reason });
    }
    Ok(CodegenStep::Ready { chosen: 0, renderer: renderer_with(init, &created[0]) })
}

/// What a worker does for a code generator whose compiler is the parent's:
/// which one to make next, given the identities of those it made, or which to
/// use and what to optimize for. A CPU has two, tried in order; a GPU has one,
/// which needs to know the architecture; other devices have none.
pub fn worker_codegen(init: &WorkerInit, created: &Vec<CreatedCodegen>) -> (step: Result<CodegenStep, BeamWorker>)
    ensures
        codegen_steps(init, created@, step),
{
    match &init.device {
        DeviceSpec::Cpu => {
            match find_match(created, &init.compiler_key) {
                Some(chosen) => {
                    proof {
                        assert(created.len() == created@.len());
                        lemma_first_match(created@, created@.len(), init.compiler_key@);
                    }
                    Ok(CodegenStep::Ready { chosen, renderer: renderer_with(init, &created[chosen]) })
                }
                None => {
                    if created.len() == 0 {
                        Ok(CodegenStep::Create(CodegenFactory::CpuClang))
                    } else if created.len() == 1 {
                        Ok(CodegenStep::Create(CodegenFactory::CpuLlvm))
                    } else {
                        let mut reason = "no CPU backend matches compiler identity ".to_owned();
                        reason.append(init.compiler_key.as_str());
                        Err(BeamWorker::HelperUnavailable { reason })
                    }
                }
            }
        }
        DeviceSpec::Amd { device_id } => match init.gpu_arch {
            Some(GpuArch::Amd(arch)) => choose_only(
                init,
                created,
                CodegenFactory::Amd { device_id: *device_id, arch },
            ),
            _ => Err(
                BeamWorker::HelperUnavailable {
                    reason: "AMD BEAM worker initialization has no target architecture".to_owned(),
                },
            ),
        },
        DeviceSpec::Metal { device_id } => choose_only(
            init,
            created,
            CodegenFactory::Metal { device_id: *device_id },
        ),
        DeviceSpec::Cuda { device_id } => match init.gpu_arch {
            Some(GpuArch::Cuda(arch)) => choose_only(
                init,
                created,
                CodegenFactory::Cuda { device_id: *device_id, arch },
            ),
            _ => Err(
                BeamWorker::HelperUnavailable {
                    reason: "CUDA BEAM worker initialization has no target architecture".to_owned(),
                },
            ),
        },
        _ => Err(no_factory(show_device(&init.device).as_str())),
    }
}

/// The error of a device that is shown like this: it has no code generator that
/// works without the device.
pub fn no_factory(shown: &str) -> (error: BeamWorker)
    ensures
        unavailable(error, shown@ + " has no device-disabled BEAM codegen factory"@),
{
    let mut reason = shown.to_owned();
    reason.append(" has no device-disabled BEAM codegen factory");
    BeamWorker::HelperUnavailable { reason }
}

/// A worker uses a compiler only if it is the parent's.
pub proof fn law_a_worker_uses_the_parents_compiler(
    init: &WorkerInit,
    created: Seq<CreatedCodegen>,
    step: Result<CodegenStep, BeamWorker>,
)
    requires
        codegen_steps(init, created, step),
        created.len() <= usize::MAX,
    ensures
        step matches Ok(CodegenStep::Ready { chosen, renderer }) ==> chosen < created.len() && created[
            chosen as int
        ].compiler_key@ == init.compiler_key@,
{
    lemma_first_match(created, created.len(), init.compiler_key@);
}

proof fn lemma_first_match(created: Seq<CreatedCodegen>, k: nat, key: Seq<char>)
    requires
        k <= created.len(),
        created.len() <= usize::MAX,
    ensures
        first_match(created, k, key) matches Some(i) ==> i < k && created[i as int].compiler_key@ == key,
    decreases k,
{
    if k > 0 {
        lemma_first_match(created, (k - 1) as nat, key);
    }
}

/// A worker that has the parent's device and architecture, whose code generator
/// reports what the parent's does and whose optimizer reports the same,
/// optimizes for what the parent optimizes for: its profile has the fingerprint
/// of the parent's.
pub proof fn law_a_worker_has_the_parents_profile(
    init: &WorkerInit,
    created: Seq<CreatedCodegen>,
    chosen: usize,
    renderer: Renderer,
    parent: Renderer,
    parent_target: Option<String>,
    parent_ops: RendererOps,
    parent_reported: Reported,
)
    requires
        codegen_steps(init, created, Ok(CodegenStep::Ready { chosen, renderer })),
        created.len() <= usize::MAX,
        is_bound(
            parent,
            retargeted(device_profile(init.device, init.gpu_arch, parent_reported), parent_target),
            parent_ops,
        ),
        match (created[chosen as int].target, parent_target) {
            (Some(own), Some(other)) => own@ == other@,
            (None, None) => true,
            _ => false,
        },
        same_ops(created[chosen as int].ops, parent_ops),
        same_report(created[chosen as int].reported, parent_reported),
    ensures
        hash_words(renderer.words()) == hash_words(parent.words()),
{
    lemma_first_match(created, created.len(), init.compiler_key@);
    let made = created[chosen as int];
    lemma_same_device_profile(init.device, init.gpu_arch, made.reported, parent_reported);
    law_one_profile_one_fingerprint(
        renderer,
        parent,
        made_profile(init, made),
        retargeted(device_profile(init.device, init.gpu_arch, parent_reported), parent_target),
        made.ops,
        parent_ops,
    );
}

// ---------------------------------------------------------------------------
// Setup
// ---------------------------------------------------------------------------

/// Whether parent and worker speak one protocol.
pub fn check_protocol(init: &WorkerInit) -> (checked: Result<(), BeamWorker>)
    ensures
        checked == if init.protocol_version == BEAM_WORKER_PROTOCOL_VERSION {
            Ok::<(), BeamWorker>(())
        } else {
            Err(
                BeamWorker::ProtocolMismatch {
                    expected: init.protocol_version,
                    actual: BEAM_WORKER_PROTOCOL_VERSION,
                },
            )
        },
{
    if init.protocol_version != BEAM_WORKER_PROTOCOL_VERSION {
        return Err(
            BeamWorker::ProtocolMismatch {
                expected: init.protocol_version,
                actual: BEAM_WORKER_PROTOCOL_VERSION,
            },
        );
    }
    Ok(())
}

/// Whether the worker optimizes for what the parent optimizes for.
pub fn check_renderer(init: &WorkerInit, renderer: &Renderer) -> (checked: Result<(), BeamWorker>)
    ensures
        ({
            let fingerprint = hash_words(renderer.words());
            if fingerprint == init.renderer_fingerprint {
                checked is Ok
            } else {
                checked matches Err(error) && renderer_mismatch(init, *renderer, error)
            }
        }),
{
    let fingerprint = renderer.cache_fingerprint();
    if fingerprint != init.renderer_fingerprint {
        let mut reason = "renderer identity mismatch: parent=".to_owned();
        reason.append(dec_string(init.renderer_fingerprint).as_str());
        reason.append(", worker=");
        reason.append(dec_string(fingerprint).as_str());
        return Err(BeamWorker::HelperUnavailable { reason });
    }
    Ok(())
}

/// What making a code generator is called where it fails.
pub open spec fn factory_stage(factory: CodegenFactory) -> Seq<char> {
    match factory {
        CodegenFactory::CpuClang | CodegenFactory::CpuLlvm => "CPU codegen"@,
        CodegenFactory::Amd { .. } => "AMD codegen"@,
        CodegenFactory::Metal { .. } => "Metal codegen"@,
        CodegenFactory::Cuda { .. } => "CUDA codegen"@,
    }
}

fn factory_label(factory: CodegenFactory) -> (label: &'static str)
    ensures
        label@ == factory_stage(factory),
{
    match factory {
        CodegenFactory::CpuClang | CodegenFactory::CpuLlvm => "CPU codegen",
        CodegenFactory::Amd { .. } => "AMD codegen",
        CodegenFactory::Metal { .. } => "Metal codegen",
        CodegenFactory::Cuda { .. } => "CUDA codegen",
    }
}

/// What a worker has found out while it sets itself up.
#[derive(Debug, PartialEq, Eq)]
pub struct SetupFacts {
    /// Whether the kernel's graph could be decoded, once that was tried.
    pub decoded: Option<Result<(), String>>,
    /// The code generators made so far.
    pub created: Vec<CreatedCodegen>,
    /// The code generator that could not be made, and why.
    pub failed: Option<(CodegenFactory, String)>,
}

/// What a worker does next to set itself up.
#[derive(Debug, PartialEq, Eq)]
pub enum SetupStep {
    /// Decode the kernel's graph.
    Decode,
    /// Make this code generator.
    Create(CodegenFactory),
    /// Serve with the code generator made at `chosen`, or not at all.
    Done(Result<(usize, Renderer), BeamWorker>),
}

/// A setup that failed at a stage.
pub open spec fn setup_failed(step: SetupStep, at: Seq<char>, why: String) -> bool {
    step matches SetupStep::Done(Err(BeamWorker::CompileStage { stage, reason })) && stage@ == at && reason == why
}

/// A worker's profile is not the parent's.
pub open spec fn renderer_mismatch(init: &WorkerInit, renderer: Renderer, error: BeamWorker) -> bool {
    unavailable(
        error,
        "renderer identity mismatch: parent="@ + dec(init.renderer_fingerprint as nat) + ", worker="@ + dec(
            hash_words(renderer.words()) as nat,
        ),
    )
}

/// What a worker does to set itself up: it checks the protocol, decodes the
/// graph, finds the code generator whose compiler is the parent's and checks
/// that it optimizes for what the parent optimizes for. The first of these that
/// fails ends the setup.
pub open spec fn setup_steps(init: &WorkerInit, facts: &SetupFacts, step: SetupStep) -> bool {
    if init.protocol_version != BEAM_WORKER_PROTOCOL_VERSION {
        step == SetupStep::Done(
            Err(
                BeamWorker::ProtocolMismatch {
                    expected: init.protocol_version,
                    actual: BEAM_WORKER_PROTOCOL_VERSION,
                },
            ),
        )
    } else {
        match facts.decoded {
            None => step is Decode,
            Some(Err(reason)) => setup_failed(step, "decode graph"@, reason),
            Some(Ok(_)) => match facts.failed {
                Some((factory, reason)) => setup_failed(step, factory_stage(factory), reason),
                None => match step {
                    SetupStep::Decode => false,
                    SetupStep::Create(factory) => codegen_steps(
                        init,
                        facts.created@,
                        Ok(CodegenStep::Create(factory)),
                    ),
                    SetupStep::Done(Ok((chosen, renderer))) => {
                        &&& codegen_steps(init, facts.created@, Ok(CodegenStep::Ready { chosen, renderer }))
                        &&& hash_words(renderer.words()) == init.renderer_fingerprint
                    },
                    SetupStep::Done(Err(error)) => {
                        ||| codegen_steps(init, facts.created@, Err(error))
                        ||| exists|chosen: usize, renderer: Renderer|
                            {
                                &&& #[trigger] codegen_steps(
                                    init,
                                    facts.created@,
                                    Ok(CodegenStep::Ready { chosen, renderer }),
                                )
                                &&& hash_words(renderer.words()) != init.renderer_fingerprint
                                &&& renderer_mismatch(init, renderer, error)
                            }
                    },
                },
            },
        }
    }
}

/// What a worker does next to set itself up, given what it has found out.
pub fn set_up(init: &WorkerInit, facts: SetupFacts) -> (step: SetupStep)
    ensures
        setup_steps(init, &facts, step),
{
    if let Err(error) = check_protocol(init) {
        return SetupStep::Done(Err(error));
    }
    match facts.decoded {
        None => return SetupStep::Decode,
        Some(Err(reason)) => return SetupStep::Done(Err(BeamWorker::at("decode graph", reason))),
        Some(Ok(())) => {}
    }
    if let Some((factory, reason)) = facts.failed {
        return SetupStep::Done(Err(BeamWorker::at(factory_label(factory), reason)));
    }
    match worker_codegen(init, &facts.created) {
        Err(error) => SetupStep::Done(Err(error)),
        Ok(CodegenStep::Create(factory)) => SetupStep::Create(factory),
        Ok(CodegenStep::Ready { chosen, renderer }) => {
            if let Err(error) = check_renderer(init, &renderer) {
                assert(codegen_steps(init, facts.created@, Ok(CodegenStep::Ready { chosen, renderer })));
                return SetupStep::Done(Err(error));
            }
            SetupStep::Done(Ok((chosen, renderer)))
        }
    }
}

/// A worker that is set up speaks the parent's protocol, compiles with the
/// parent's compiler and optimizes for what the parent optimizes for.
pub proof fn law_a_worker_that_serves_is_the_parents(
    init: &WorkerInit,
    facts: &SetupFacts,
    chosen: usize,
    renderer: Renderer,
)
    requires
        setup_steps(init, facts, SetupStep::Done(Ok((chosen, renderer)))),
    ensures
        init.protocol_version == BEAM_WORKER_PROTOCOL_VERSION,
        chosen < facts.created@.len(),
        facts.created@[chosen as int].compiler_key@ == init.compiler_key@,
        hash_words(renderer.words()) == init.renderer_fingerprint,
{
    assert(facts.created.len() == facts.created@.len());
    law_a_worker_uses_the_parents_compiler(
        init,
        facts.created@,
        Ok(CodegenStep::Ready { chosen, renderer }),
    );
}

// ---------------------------------------------------------------------------
// Serving
// ---------------------------------------------------------------------------

/// What came of compiling a candidate.
#[derive(Debug, PartialEq, Eq)]
pub enum CompileOutcome {
    Finished(Option<WorkerArtifact>),
    Failed(BeamWorker),
    Panicked,
}

/// An answer to the job at `index`.
pub open spec fn answers(index: usize, outcome: CompileOutcome, response: WorkerResponse) -> bool {
    &&& response.index == index
    &&& match outcome {
        CompileOutcome::Finished(result) => response.result == result && response.error is None,
        CompileOutcome::Failed(error) => response.result is None && (response.error matches Some(text) && text@
            == error.message()),
        CompileOutcome::Panicked => response.result is None && (response.error matches Some(text) && text@
            == "candidate panicked"@),
    }
}

/// The answer to the job at `index`.
pub fn response_for(index: usize, outcome: CompileOutcome) -> (response: WorkerResponse)
    ensures
        answers(index, outcome, response),
{
    match outcome {
        CompileOutcome::Finished(result) => WorkerResponse { index, result, error: None },
        CompileOutcome::Failed(error) => WorkerResponse { index, result: None, error: Some(error.to_string()) },
        CompileOutcome::Panicked => WorkerResponse {
            index,
            result: None,
            error: Some("candidate panicked".to_owned()),
        },
    }
}

/// What a worker waits for.
#[derive(Debug, PartialEq, Eq)]
pub enum WorkerState {
    /// The first frame.
    Initializing,
    /// Its compiler and optimizer.
    SettingUp { timeout_secs: u64 },
    /// Its first answer, of a worker that is set up.
    Announcing { timeout_secs: u64 },
    /// Its first answer, of one that is not.
    Refusing { error: BeamWorker },
    /// A job.
    Idle { timeout_secs: u64 },
    /// The end of a compilation.
    Compiling { timeout_secs: u64, index: usize },
    /// The writing of an answer.
    Answering { timeout_secs: u64 },
    Ended,
}

/// What happened to a worker.
#[derive(Debug, PartialEq, Eq)]
pub enum WorkerEvent {
    /// The first frame was read, or the input ended before it; the time limit
    /// of a compilation.
    Init(Result<Option<u64>, String>),
    Setup(Result<(), BeamWorker>),
    /// A frame was written.
    Written(Result<(), String>),
    /// A job was read, or the input ended.
    Job(Result<Option<usize>, String>),
    Compiled(CompileOutcome),
}

/// What a worker does next.
#[derive(Debug, PartialEq, Eq)]
pub enum WorkerAction {
    /// Make the compiler and the optimizer.
    SetUp,
    WriteReady(WorkerReady),
    ReadJob,
    /// Compile the job that was read, under a time limit if there is one.
    Compile { watchdog_secs: Option<u64> },
    WriteResponse(WorkerResponse),
    Exit(Result<(), BeamWorker>),
}

/// Whether an event can happen to a worker in this state.
pub open spec fn can_happen(state: WorkerState, event: WorkerEvent) -> bool {
    match event {
        WorkerEvent::Init(_) => state is Initializing,
        WorkerEvent::Setup(_) => state is SettingUp,
        WorkerEvent::Written(_) => state is Announcing || state is Refusing || state is Answering,
        WorkerEvent::Job(_) => state is Idle,
        WorkerEvent::Compiled(_) => state is Compiling,
    }
}

/// A frame that could not be read or written.
pub open spec fn frame_failed(action: WorkerAction, step: Seq<char>, why: String) -> bool {
    action matches WorkerAction::Exit(Err(BeamWorker::Frame { what, source })) && what@ == step && source == why
}

/// What a worker does after an event.
pub open spec fn worker_steps(
    state: WorkerState,
    event: WorkerEvent,
    next: WorkerState,
    action: WorkerAction,
) -> bool {
    match (state, event) {
        (WorkerState::Initializing, WorkerEvent::Init(frame)) => match frame {
            Ok(Some(timeout_secs)) => next == (WorkerState::SettingUp { timeout_secs }) && action is SetUp,
            Ok(None) => next is Ended && (action matches WorkerAction::Exit(Err(error)) && unavailable(
                error,
                "worker stdin closed before initialization"@,
            )),
            Err(why) => next is Ended && frame_failed(action, "read worker initialization"@, why),
        },
        (WorkerState::SettingUp { timeout_secs }, WorkerEvent::Setup(result)) => match result {
            Ok(()) => next == (WorkerState::Announcing { timeout_secs }) && (action matches WorkerAction::WriteReady(
                ready,
            ) && ready.error is None),
            Err(error) => next == (WorkerState::Refusing { error }) && (action matches WorkerAction::WriteReady(ready)
                && ready.error matches Some(text) && text@ == error.message()),
        },
        (WorkerState::Announcing { timeout_secs }, WorkerEvent::Written(result)) => match result {
            Ok(()) => next == (WorkerState::Idle { timeout_secs }) && action is ReadJob,
            Err(why) => next is Ended && frame_failed(action, "write worker readiness"@, why),
        },
        (WorkerState::Refusing { error }, WorkerEvent::Written(_)) => next is Ended && action == WorkerAction::Exit(
            Err(error),
        ),
        (WorkerState::Idle { timeout_secs }, WorkerEvent::Job(frame)) => match frame {
            Ok(Some(index)) => next == (WorkerState::Compiling { timeout_secs, index }) && action
                == (WorkerAction::Compile {
                watchdog_secs: if timeout_secs > 0 {
                    Some(timeout_secs)
                } else {
                    None
                },
            }),
            Ok(None) => next is Ended && action == WorkerAction::Exit(Ok(())),
            Err(why) => next is Ended && frame_failed(action, "read worker job"@, why),
        },
        (WorkerState::Compiling { timeout_secs, index }, WorkerEvent::Compiled(outcome)) => next
            == (WorkerState::Answering { timeout_secs }) && (action matches WorkerAction::WriteResponse(response)
            && answers(index, outcome, response)),
        (WorkerState::Answering { timeout_secs }, WorkerEvent::Written(result)) => match result {
            Ok(()) => next == (WorkerState::Idle { timeout_secs }) && action is ReadJob,
            Err(why) => next is Ended && frame_failed(action, "write worker response"@, why),
        },
        _ => true,
    }
}

/// Takes what happened to a worker and gives what it does next.
///
/// It reads what to compile for, makes its compiler and optimizer and says
/// whether it could; then it answers each job with an artifact, an error or
/// nothing, until its input ends. Whatever cannot be read or written ends it.
pub fn worker_main(state: WorkerState, event: WorkerEvent) -> (step: (WorkerState, WorkerAction))
    requires
        can_happen(state, event),
    ensures
        worker_steps(state, event, step.0, step.1),
{
    match event {
        WorkerEvent::Init(frame) => match frame {
            Ok(Some(timeout_secs)) => (WorkerState::SettingUp { timeout_secs }, WorkerAction::SetUp),
            Ok(None) => (
                WorkerState::Ended,
                WorkerAction::Exit(
                    Err(
                        BeamWorker::HelperUnavailable {
                            reason: "worker stdin closed before initialization".to_owned(),
                        },
                    ),
                ),
            ),
            Err(source) => (
                WorkerState::Ended,
                WorkerAction::Exit(Err(BeamWorker::Frame { what: "read worker initialization", source })),
            ),
        },
        WorkerEvent::Setup(result) => {
            let timeout_secs = match state {
                WorkerState::SettingUp { timeout_secs } => timeout_secs,
                _ => 0,
            };
            match result {
                Ok(()) => (
                    WorkerState::Announcing { timeout_secs },
                    WorkerAction::WriteReady(WorkerReady { error: None }),
                ),
                Err(error) => {
                    let text = error.to_string();
                    (
                        WorkerState::Refusing { error },
                        WorkerAction::WriteReady(WorkerReady { error: Some(text) }),
                    )
                }
            }
        }
        WorkerEvent::Written(result) => match state {
            WorkerState::Refusing { error } => (WorkerState::Ended, WorkerAction::Exit(Err(error))),
            WorkerState::Announcing { timeout_secs } => match result {
                Ok(()) => (WorkerState::Idle { timeout_secs }, WorkerAction::ReadJob),
                Err(source) => (
                    WorkerState::Ended,
                    WorkerAction::Exit(Err(BeamWorker::Frame { what: "write worker readiness", source })),
                ),
            },
            WorkerState::Answering { timeout_secs } => match result {
                Ok(()) => (WorkerState::Idle { timeout_secs }, WorkerAction::ReadJob),
                Err(source) => (
                    WorkerState::Ended,
                    WorkerAction::Exit(Err(BeamWorker::Frame { what: "write worker response", source })),
                ),
            },
            _ => (WorkerState::Ended, WorkerAction::Exit(Ok(()))),
        },
        WorkerEvent::Job(frame) => {
            let timeout_secs = match state {
                WorkerState::Idle { timeout_secs } => timeout_secs,
                _ => 0,
            };
            match frame {
                Ok(Some(index)) => {
                    let watchdog_secs = if timeout_secs > 0 { Some(timeout_secs) } else { None };
                    (
                        WorkerState::Compiling { timeout_secs, index },
                        WorkerAction::Compile { watchdog_secs },
                    )
                }
                Ok(None) => (WorkerState::Ended, WorkerAction::Exit(Ok(()))),
                Err(source) => (
                    WorkerState::Ended,
                    WorkerAction::Exit(Err(BeamWorker::Frame { what: "read worker job", source })),
                ),
            }
        }
        WorkerEvent::Compiled(outcome) => {
            let (timeout_secs, index): (u64, usize) = match state {
                WorkerState::Compiling { timeout_secs, index } => (timeout_secs, index),
                _ => (0, 0),
            };
            (
                WorkerState::Answering { timeout_secs },
                WorkerAction::WriteResponse(response_for(index, outcome)),
            )
        }
    }
}

/// A worker compiles no job before it has said that it is set up, and one that
/// could not be set up never does: it ends with the reason.
pub proof fn law_only_ready_workers_compile(
    state: WorkerState,
    event: WorkerEvent,
    next: WorkerState,
    action: WorkerAction,
)
    requires
        can_happen(state, event),
        worker_steps(state, event, next, action),
    ensures
        action is Compile ==> state is Idle,
        next is Idle ==> (state is Announcing || state is Answering) && event matches WorkerEvent::Written(Ok(_)),
        state matches WorkerState::Refusing { error } ==> next is Ended && action == WorkerAction::Exit(Err(error)),
{
}

/// Every job is answered once, under its own number, before the next is read.
pub proof fn law_every_job_is_answered(
    index: usize,
    timeout_secs: u64,
    outcome: CompileOutcome,
    next: WorkerState,
    action: WorkerAction,
)
    requires
        worker_steps(
            WorkerState::Compiling { timeout_secs, index },
            WorkerEvent::Compiled(outcome),
            next,
            action,
        ),
    ensures
        next is Answering,
        action matches WorkerAction::WriteResponse(response) && response.index == index && (response.result is Some
            ==> response.error is None),
{
}

} // verus!
