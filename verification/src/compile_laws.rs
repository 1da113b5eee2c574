//! What compiling a candidate promises: which candidates are dropped, what a launch
//! is timed with, and what an artifact holds of the stages before it.

use vstd::prelude::*;
use vstd::string::*;

use crate::compile::{
    comes_of, middle_values, stage_name, steps, CompileState, CompileStep, CompiledProgram, LaunchDims, ProgramSpec,
    ProgramVar, StageResult,
};
use crate::error::BeamWorker;
use crate::worker::{WorkerArtifact, WorkerInit};

verus! {

/// Of two rendered candidates the larger one is dropped if the smaller one is. With
/// a limit, only a candidate below it goes on, and each of those does; without one,
/// every candidate does.
pub proof fn law_large_candidates_are_dropped(
    init: &WorkerInit,
    compute_ops: u64,
    fewer: usize,
    more: usize,
    shown: String,
    shown_more: String,
    step: CompileStep,
    step_more: CompileStep,
)
    requires
        fewer <= more,
        steps(
            init,
            CompileState::Render { compute_ops },
            StageResult::Rendered { linear_uops: Some(fewer), shown },
            step,
        ),
        steps(
            init,
            CompileState::Render { compute_ops },
            StageResult::Rendered { linear_uops: Some(more), shown: shown_more },
            step_more,
        ),
    ensures
        step == CompileStep::Done(Ok(None)) || step == CompileStep::Next(CompileState::Specify { compute_ops }),
        step is Done ==> step_more is Done,
        init.beam.max_uops > 0 && step is Next ==> fewer < init.beam.max_uops,
        init.beam.max_uops > 0 && step is Done ==> fewer >= init.beam.max_uops,
        init.beam.max_uops == 0 ==> step is Next,
{
}

/// A limit that drops a candidate drops it too where it is lowered.
pub proof fn law_lower_limits_drop_more(
    init: &WorkerInit,
    lower: &WorkerInit,
    compute_ops: u64,
    result: StageResult,
    step: CompileStep,
    step_lower: CompileStep,
)
    requires
        0 < lower.beam.max_uops <= init.beam.max_uops,
        result is Rendered,
        steps(init, CompileState::Render { compute_ops }, result, step),
        steps(lower, CompileState::Render { compute_ops }, result, step_lower),
    ensures
        step == CompileStep::Done(Ok(None)) ==> step_lower == step,
{
}

/// What comes of no program is no candidate: it is an error that shows it.
pub proof fn law_only_programs_go_on(init: &WorkerInit, compute_ops: u64, shown: String, step: CompileStep)
    requires
        steps(
            init,
            CompileState::Render { compute_ops },
            StageResult::Rendered { linear_uops: None, shown },
            step,
        ),
    ensures
        step matches CompileStep::Done(Err(BeamWorker::CompileStage { reason, .. })) && reason@ == shown@,
{
}

/// A stage that fails ends the candidate, with its own reason, under the name of
/// the stage: no two stages have one name.
pub proof fn law_failures_are_told_apart(
    init: &WorkerInit,
    state: CompileState,
    other: CompileState,
    reason: String,
    step: CompileStep,
    step_other: CompileStep,
)
    requires
        steps(init, state, StageResult::Failed { reason }, step),
        steps(init, other, StageResult::Failed { reason }, step_other),
    ensures
        step matches CompileStep::Done(Err(BeamWorker::CompileStage { stage, reason: why })) && why@ == reason@ && (
        step_other matches CompileStep::Done(Err(BeamWorker::CompileStage { stage: other_stage, .. })) && (stage@
            == other_stage@ <==> rank(state) == rank(other))),
{
    reveal_strlit("prepare scheduler");
    reveal_strlit("apply candidate");
    reveal_strlit("post optimization");
    reveal_strlit("construct PROGRAM");
    reveal_strlit("linearize/render");
    reveal_strlit("PROGRAM specification");
    reveal_strlit("launch dimensions");
    reveal_strlit("compile");
    let (x, y) = (stage_name(state), stage_name(other));
    assert(x[0] == y[0] && x[1] == y[1] && x.len() == y.len() ==> rank(state) == rank(other));
}

/// The place of a stage among the others.
pub open spec fn rank(state: CompileState) -> int {
    match state {
        CompileState::Prepare => 0,
        CompileState::Apply => 1,
        CompileState::Optimize => 2,
        CompileState::Construct { .. } => 3,
        CompileState::Render { .. } => 4,
        CompileState::Specify { .. } => 5,
        CompileState::Launch { .. } => 6,
        CompileState::Compile { .. } => 7,
    }
}

/// Stages follow one another in order and none is left out; an artifact comes of
/// the last one alone.
pub proof fn law_stages_come_in_order(init: &WorkerInit, state: CompileState, result: StageResult, step: CompileStep)
    requires
        comes_of(state, result),
        steps(init, state, result, step),
    ensures
        step matches CompileStep::Next(next) ==> rank(next) == rank(state) + 1 && !(result is Failed),
        step matches CompileStep::Done(Ok(Some(_))) ==> rank(state) == 7,
        step matches CompileStep::Done(Ok(None)) ==> rank(state) == 1 || rank(state) == 4,
{
}

/// A kernel that the helper prepares with as many optimizations as the parent has is
/// gone on with, and no other; a plan that does not apply is dropped, and no other.
pub proof fn law_helpers_start_from_the_parents_kernel(
    init: &WorkerInit,
    applied_opts: usize,
    accepted: bool,
    prepared: CompileStep,
    applied: CompileStep,
)
    requires
        steps(init, CompileState::Prepare, StageResult::Prepared { applied_opts }, prepared),
        steps(init, CompileState::Apply, StageResult::Applied { accepted }, applied),
    ensures
        prepared is Next <==> applied_opts == init.base_opt_count,
        prepared is Done ==> prepared->Done_0 is Err,
        applied is Next <==> accepted,
        applied is Done ==> applied == CompileStep::Done(Ok(None)),
{
}

/// A variable that is the last of its name is timed with the middle of its bounds:
/// as far from the one as from the other, up to a half, which goes towards zero. The
/// core number is not set.
pub proof fn law_variables_are_timed_in_the_middle(vars: Seq<ProgramVar>, k: nat, i: int)
    requires
        k <= vars.len(),
        0 <= i < k,
        forall|j: int| #![trigger vars[j]] i < j < k ==> vars[j].name@ != vars[i].name@,
        i64::MIN <= vars[i].min + vars[i].max <= i64::MAX,
    ensures
        vars[i].name@ == "core_id"@ ==> !middle_values(vars, k).dom().contains(vars[i].name@),
        vars[i].name@ != "core_id"@ ==> middle_values(vars, k).dom().contains(vars[i].name@) && ({
            let value = middle_values(vars, k)[vars[i].name@] as int;
            let sum = vars[i].min + vars[i].max;
            &&& 0 <= sum ==> 0 <= value && (sum == value + value || sum == value + value + 1)
            &&& sum < 0 ==> value <= 0 && (sum == value + value || sum == value + value - 1)
            &&& vars[i].min <= vars[i].max ==> vars[i].min <= value <= vars[i].max
        }),
    decreases k,
{
    if i < k - 1 {
        law_variables_are_timed_in_the_middle(vars, (k - 1) as nat, i);
        assert(vars[k - 1].name@ != vars[i].name@);
    } else if vars[i].name@ == "core_id"@ {
        lemma_core_is_unset(vars, (k - 1) as nat);
    }
}

proof fn lemma_core_is_unset(vars: Seq<ProgramVar>, k: nat)
    ensures
        !middle_values(vars, k).dom().contains("core_id"@),
    decreases k,
{
    if k > 0 {
        lemma_core_is_unset(vars, (k - 1) as nat);
    }
}

/// Nothing is timed but variables of the program.
pub proof fn law_only_variables_are_timed(vars: Seq<ProgramVar>, k: nat, name: Seq<char>)
    requires
        k <= vars.len(),
        middle_values(vars, k).dom().contains(name),
    ensures
        exists|i: int| #![trigger vars[i]] 0 <= i < k && vars[i].name@ == name,
    decreases k,
{
    if k > 0 && vars[k - 1].name@ != name {
        law_only_variables_are_timed(vars, (k - 1) as nat, name);
    }
}

/// An artifact is made of what the stages came to: source, name and layout as the
/// program says, the launch that was found for it, a value for each variable that a
/// launch passes, the operations that were counted after optimizing, and the bytes
/// and the identity of the binary. A value is the middle of its variable's bounds,
/// and 0 for the core number and for a name that is no variable.
pub proof fn law_artifacts_hold_what_the_stages_found(
    init: &WorkerInit,
    spec: ProgramSpec,
    compute_ops: u64,
    dims: LaunchDims,
    prepared_ns: u128,
    program: CompiledProgram,
    compiled_ns: u128,
    constructing: CompileState,
    rendering: CompileState,
    launching: CompileState,
    compiling: CompileState,
    artifact: WorkerArtifact,
    p: int,
)
    requires
        spec.in_bounds(),
        steps(
            init,
            CompileState::Optimize,
            StageResult::Optimized { compute_ops },
            CompileStep::Next(constructing),
        ),
        steps(init, constructing, StageResult::Constructed, CompileStep::Next(rendering)),
        rendering is Render,
        steps(
            init,
            CompileState::Specify { compute_ops: rendering->Render_compute_ops },
            StageResult::Specified { spec },
            CompileStep::Next(launching),
        ),
        steps(
            init,
            launching,
            StageResult::Launched { dims, elapsed_ns: prepared_ns },
            CompileStep::Next(compiling),
        ),
        steps(
            init,
            compiling,
            StageResult::Compiled { program, elapsed_ns: compiled_ns },
            CompileStep::Done(Ok(Some(artifact))),
        ),
        0 <= p < spec.var_names@.len(),
    ensures
        artifact.source@ == spec.src@,
        artifact.name@ == spec.name@,
        artifact.abi@ == spec.abi@,
        artifact.bytes@ == program.bytes@,
        program.binary_identity == Some(artifact.identity),
        artifact.global_size == dims.global_size,
        artifact.local_size == dims.local_size,
        artifact.compute_ops == compute_ops,
        prepared_ns <= u64::MAX ==> artifact.preparation_ns == prepared_ns,
        prepared_ns > u64::MAX ==> artifact.preparation_ns == u64::MAX,
        compiled_ns <= u64::MAX ==> artifact.compilation_ns == compiled_ns,
        compiled_ns > u64::MAX ==> artifact.compilation_ns == u64::MAX,
        artifact.vals@.len() == spec.var_names@.len(),
        spec.var_names@[p]@ == "core_id"@ ==> artifact.vals@[p] == 0,
        (forall|i: int| #![trigger spec.vars@[i]] 0 <= i < spec.vars@.len() ==> spec.vars@[i].name@ != spec.var_names@[p]@)
            ==> artifact.vals@[p] == 0,
        forall|i: int|
            #![trigger spec.vars@[i]]
            0 <= i < spec.vars@.len() && spec.vars@[i].name@ == spec.var_names@[p]@ && spec.vars@[i].name@ != "core_id"@
                && (forall|j: int| #![trigger spec.vars@[j]] i < j < spec.vars@.len() ==> spec.vars@[j].name@
                != spec.vars@[i].name@) ==> ({
                let sum = spec.vars@[i].min + spec.vars@[i].max;
                let value = artifact.vals@[p] as int;
                sum == value + value || (0 < sum && sum == value + value + 1) || (sum < 0 && sum == value + value - 1)
            }),
{
    let vars = spec.vars@;
    let name = spec.var_names@[p]@;
    let values = middle_values(vars, vars.len());
    lemma_core_is_unset(vars, vars.len());
    if values.dom().contains(name) {
        law_only_variables_are_timed(vars, vars.len(), name);
    }
    assert forall|i: int|
        #![trigger spec.vars@[i]]
        0 <= i < vars.len() && vars[i].name@ == name && vars[i].name@ != "core_id"@ && (forall|j: int|
            #![trigger spec.vars@[j]]
            i < j < vars.len() ==> vars[j].name@ != vars[i].name@) implies ({
        let sum = vars[i].min + vars[i].max;
        let value = artifact.vals@[p] as int;
        sum == value + value || (0 < sum && sum == value + value + 1) || (sum < 0 && sum == value + value - 1)
    }) by {
        law_variables_are_timed_in_the_middle(vars, vars.len(), i);
    }
}

} // verus!
