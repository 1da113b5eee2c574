//! What a helper promises its parent: whose compiler it uses, how it sets itself up, and
//! what becomes of each job.

use vstd::prelude::*;

use crate::device::{DeviceSpec, GpuArch};
use crate::error::BeamWorker;
use crate::serve::{
    answers, can_happen, codegen_steps, first_match, setup_steps, worker_steps, CodegenFactory, CodegenStep,
    CompileOutcome, CreatedCodegen, SetupFacts, SetupStep, WorkerAction, WorkerEvent, WorkerState,
};
use crate::worker::{WorkerInit, WorkerResponse};

verus! {

// ---------------------------------------------------------------------------
// Code generators
// ---------------------------------------------------------------------------

proof fn lemma_first(created: Seq<CreatedCodegen>, k: nat, key: Seq<char>, i: int)
    requires
        k <= created.len() <= usize::MAX,
    ensures
        first_match(created, k, key) is None <==> forall|j: int|
            #![trigger created[j]]
            0 <= j < k ==> created[j].compiler_key@ != key,
        0 <= i < k && created[i].compiler_key@ == key && (forall|j: int|
            #![trigger created[j]]
            0 <= j < i ==> created[j].compiler_key@ != key) ==> first_match(created, k, key) == Some(i as usize),
    decreases k,
{
    if k > 0 {
        lemma_first(created, (k - 1) as nat, key, i);
    }
}

/// Only code generators for the parent's own device are made: for its number and its
/// architecture on a GPU, and on a CPU one compiler after the other.
pub proof fn law_helpers_make_code_generators_for_their_device(
    init: &WorkerInit,
    created: Seq<CreatedCodegen>,
    factory: CodegenFactory,
)
    requires
        codegen_steps(init, created, Ok(CodegenStep::Create(factory))),
    ensures
        match factory {
            CodegenFactory::CpuClang => init.device is Cpu && created.len() == 0,
            CodegenFactory::CpuLlvm => init.device is Cpu && created.len() == 1,
            CodegenFactory::Amd { device_id, arch } => init.device == (DeviceSpec::Amd { device_id }) && init.gpu_arch
                == Some(GpuArch::Amd(arch)) && created.len() == 0,
            CodegenFactory::Metal { device_id } => init.device == (DeviceSpec::Metal { device_id }) && created.len() == 0,
            CodegenFactory::Cuda { device_id, arch } => init.device == (DeviceSpec::Cuda { device_id }) && init.gpu_arch
                == Some(GpuArch::Cuda(arch)) && created.len() == 0,
        },
{
}

/// The first code generator with the parent's compiler is used as soon as it is made. On
/// a CPU a second one is tried before the helper gives up, and on a GPU none; a device
/// without code generators, or a GPU of which the architecture is not told, has no helper.
pub proof fn law_helpers_use_the_first_that_matches(
    init: &WorkerInit,
    created: Seq<CreatedCodegen>,
    step: Result<CodegenStep, BeamWorker>,
    i: int,
)
    requires
        codegen_steps(init, created, step),
        created.len() <= usize::MAX,
    ensures
        init.device is Cpu && 0 <= i < created.len() && created[i].compiler_key@ == init.compiler_key@ && (forall|j: int|
            #![trigger created[j]]
            0 <= j < i ==> created[j].compiler_key@ != init.compiler_key@) ==> (step matches Ok(
            CodegenStep::Ready { chosen, .. },
        ) && chosen == i),
        init.device is Cpu && (forall|j: int|
            #![trigger created[j]]
            0 <= j < created.len() ==> created[j].compiler_key@ != init.compiler_key@) ==> (step is Err <==> created.len()
            >= 2) && (step is Ok ==> step->Ok_0 is Create),
        init.device is Metal && created.len() > 0 ==> (step is Ok <==> created[0].compiler_key@ == init.compiler_key@),
        init.device is Amd && !(init.gpu_arch matches Some(GpuArch::Amd(_))) ==> step is Err,
        init.device is Cuda && !(init.gpu_arch matches Some(GpuArch::Cuda(_))) ==> step is Err,
        init.device is WebGpu || init.device is Disk ==> step is Err,
        step matches Ok(CodegenStep::Ready { chosen, .. }) ==> !(init.device is Cpu) ==> chosen == 0,
        step matches Err(error) ==> error is HelperUnavailable,
{
    lemma_first(created, created.len(), init.compiler_key@, i);
}

// ---------------------------------------------------------------------------
// Setup
// ---------------------------------------------------------------------------

/// A helper goes on setting itself up only as long as nothing went wrong: a parent of
/// another protocol is refused before anything is done, the kernel is decoded before a
/// code generator is made, and what failed is what it says.
pub proof fn law_setups_stop_at_what_failed(init: &WorkerInit, facts: &SetupFacts, step: SetupStep)
    requires
        setup_steps(init, facts, step),
    ensures
        init.protocol_version != crate::worker::BEAM_WORKER_PROTOCOL_VERSION ==> (step matches SetupStep::Done(
            Err(BeamWorker::ProtocolMismatch { expected, actual }),
        ) && expected == init.protocol_version && actual == crate::worker::BEAM_WORKER_PROTOCOL_VERSION),
        step is Decode ==> facts.decoded is None,
        step is Create ==> facts.decoded is Some && facts.decoded->0 is Ok && facts.failed is None,
        step matches SetupStep::Done(Ok(_)) ==> facts.decoded is Some && facts.decoded->0 is Ok && facts.failed is None,
        init.protocol_version == crate::worker::BEAM_WORKER_PROTOCOL_VERSION ==> {
            &&& facts.decoded is None ==> step is Decode
            &&& facts.decoded matches Some(Err(why)) ==> (step matches SetupStep::Done(
                Err(BeamWorker::CompileStage { reason, .. }),
            ) && reason == why)
            &&& facts.decoded is Some && facts.decoded->0 is Ok ==> (facts.failed matches Some((factory, why)) ==> (
            step matches SetupStep::Done(Err(BeamWorker::CompileStage { reason, .. })) && reason == why))
        },
{
}

// ---------------------------------------------------------------------------
// Serving
// ---------------------------------------------------------------------------

/// An answer is under the job's number and holds what compiling came to: the artifact, or
/// nothing, without an error; or an error, which says what failed, without an artifact.
pub proof fn law_answers_hold_what_compiling_came_to(index: usize, outcome: CompileOutcome, response: WorkerResponse)
    requires
        answers(index, outcome, response),
    ensures
        response.index == index,
        outcome matches CompileOutcome::Finished(result) ==> response.result == result,
        response.error is None <==> outcome is Finished,
        !(outcome is Finished) ==> response.result is None,
        outcome matches CompileOutcome::Failed(error) ==> (response.error matches Some(text) && text@
            == error.message()),
{
}

/// The time limit that a helper has been told, where it has.
pub open spec fn limit_of(state: WorkerState) -> Option<u64> {
    match state {
        WorkerState::SettingUp { timeout_secs } => Some(timeout_secs),
        WorkerState::Announcing { timeout_secs } => Some(timeout_secs),
        WorkerState::Idle { timeout_secs } => Some(timeout_secs),
        WorkerState::Compiling { timeout_secs, .. } => Some(timeout_secs),
        WorkerState::Answering { timeout_secs } => Some(timeout_secs),
        _ => None,
    }
}

/// A helper keeps the time limit that it was told first, and compiles every job under it;
/// a limit of 0 is none.
pub proof fn law_time_limits_hold_for_every_job(
    state: WorkerState,
    event: WorkerEvent,
    next: WorkerState,
    action: WorkerAction,
)
    requires
        can_happen(state, event),
        worker_steps(state, event, next, action),
    ensures
        event matches WorkerEvent::Init(Ok(Some(limit))) ==> limit_of(next) == Some(limit),
        limit_of(state) is Some && limit_of(next) is Some ==> limit_of(next) == limit_of(state),
        action matches WorkerAction::Compile { watchdog_secs } ==> (limit_of(state) matches Some(limit) && (watchdog_secs
            is Some <==> limit > 0) && (watchdog_secs matches Some(secs) ==> secs == limit)),
        next matches WorkerState::Compiling { index, .. } ==> event == WorkerEvent::Job(Ok(Some(index))) && action is Compile,
{
}

/// A helper ends well if and only if its input ends between two jobs. It ends with an
/// error where a frame could not be read or written, with that reason, and where it could
/// not be set up; otherwise it goes on.
pub proof fn law_helpers_end_when_their_input_does(
    state: WorkerState,
    event: WorkerEvent,
    next: WorkerState,
    action: WorkerAction,
)
    requires
        can_happen(state, event),
        worker_steps(state, event, next, action),
    ensures
        next is Ended <==> action is Exit,
        action == WorkerAction::Exit(Ok(())) <==> (event matches WorkerEvent::Job(Ok(None))),
        event matches WorkerEvent::Job(Err(why)) ==> (action matches WorkerAction::Exit(
            Err(BeamWorker::Frame { source, .. }),
        ) && source == why),
        event matches WorkerEvent::Init(Err(why)) ==> (action matches WorkerAction::Exit(
            Err(BeamWorker::Frame { source, .. }),
        ) && source == why),
        event matches WorkerEvent::Init(Ok(None)) ==> (action matches WorkerAction::Exit(Err(error)) && error
            is HelperUnavailable),
        !(state is Refusing) ==> (event matches WorkerEvent::Written(Err(why)) ==> (action matches WorkerAction::Exit(
            Err(BeamWorker::Frame { source, .. }),
        ) && source == why)),
        state is Refusing ==> action is Exit,
        event matches WorkerEvent::Setup(Ok(_)) ==> (action matches WorkerAction::WriteReady(ready) && ready.error is None),
        event matches WorkerEvent::Setup(Err(error)) ==> next == (WorkerState::Refusing { error }) && (action matches
            WorkerAction::WriteReady(ready) && (ready.error matches Some(text) && text@ == error.message())),
        !(state is Refusing) ==> (event matches WorkerEvent::Written(Ok(_)) ==> action is ReadJob && next is Idle),
        event matches WorkerEvent::Init(Ok(Some(_))) ==> action is SetUp && next is SettingUp,
{
}

} // verus!
