//! Compiling one candidate: what each stage's result means for the next.

use vstd::prelude::*;
use vstd::string::*;

use crate::error::{BeamWorker, Error};
use crate::kernels::OptimizerConfig;
use crate::text::{dec, dec_string};
use crate::vars::{lookup, str_eq, VarVals};
use crate::worker::{AbiParamDescriptor, BinaryStageIdentity, WorkerArtifact, WorkerInit};

verus! {

/// A variable of a program and its bounds.
#[derive(Debug, PartialEq, Eq)]
pub struct ProgramVar {
    pub name: String,
    pub min: i64,
    pub max: i64,
}

/// What a rendered program says of itself.
#[derive(Debug, PartialEq, Eq)]
pub struct ProgramSpec {
    pub src: String,
    pub name: String,
    pub abi: Vec<AbiParamDescriptor>,
    pub vars: Vec<ProgramVar>,
    /// The variables in the order in which a launch passes them.
    pub var_names: Vec<String>,
}

impl ProgramSpec {
    /// No variable's bounds add up to more than a number can be.
    pub open spec fn in_bounds(&self) -> bool {
        forall|i: int|
            #![trigger self.vars@[i]]
            0 <= i < self.vars@.len() ==> i64::MIN <= self.vars@[i].min + self.vars@[i].max <= i64::MAX
    }
}

/// The size of a launch.
#[derive(Clone, Copy, Debug, PartialEq, Eq)]
pub struct LaunchDims {
    pub global_size: [usize; 3],
    pub local_size: Option<[usize; 3]>,
}

/// A compiled program.
#[derive(Debug, PartialEq, Eq)]
pub struct CompiledProgram {
    pub bytes: Vec<u8>,
    /// The identity of the source, where the program has a source with one.
    pub source_identity: Option<u64>,
    /// The identity of the binary, where the program has a binary with one.
    pub binary_identity: Option<BinaryStageIdentity>,
    /// The program as it is shown in errors.
    pub shown: String,
}

/// The stages of compiling a candidate, with what earlier ones left.
#[derive(Debug, PartialEq, Eq)]
pub enum CompileState {
    Prepare,
    Apply,
    Optimize,
    Construct { compute_ops: u64 },
    Render { compute_ops: u64 },
    Specify { compute_ops: u64 },
    Launch { compute_ops: u64, spec: ProgramSpec, values: VarVals },
    Compile { compute_ops: u64, spec: ProgramSpec, vals: Vec<i64>, launch: LaunchDims, preparation_ns: u64 },
}

/// What came of a stage.
#[derive(Debug, PartialEq, Eq)]
pub enum StageResult {
    Failed { reason: String },
    /// A scheduler with this many optimizations.
    Prepared { applied_opts: usize },
    /// Whether the candidate's optimizations could be applied.
    Applied { accepted: bool },
    Optimized { compute_ops: u64 },
    Constructed,
    /// A program of this many operations; none where it is no program, which
    /// is then shown.
    Rendered { linear_uops: Option<usize>, shown: String },
    Specified { spec: ProgramSpec },
    /// The size of the launch, and the time since the candidate came.
    Launched { dims: LaunchDims, elapsed_ns: u128 },
    Compiled { program: CompiledProgram, elapsed_ns: u128 },
}

/// What to do after a stage.
#[derive(Debug, PartialEq, Eq)]
pub enum CompileStep {
    Next(CompileState),
    Done(Result<Option<WorkerArtifact>, BeamWorker>),
}

/// What a stage's failure is reported under.
pub open spec fn stage_name(state: CompileState) -> Seq<char> {
    match state {
        CompileState::Prepare => "prepare scheduler"@,
        CompileState::Apply => "apply candidate"@,
        CompileState::Optimize => "post optimization"@,
        CompileState::Construct { .. } => "construct PROGRAM"@,
        CompileState::Render { .. } => "linearize/render"@,
        CompileState::Specify { .. } => "PROGRAM specification"@,
        CompileState::Launch { .. } => "launch dimensions"@,
        CompileState::Compile { .. } => "compile"@,
    }
}

fn stage_label(state: &CompileState) -> (name: &'static str)
    ensures
        name@ == stage_name(*state),
{
    match state {
        CompileState::Prepare => "prepare scheduler",
        CompileState::Apply => "apply candidate",
        CompileState::Optimize => "post optimization",
        CompileState::Construct { .. } => "construct PROGRAM",
        CompileState::Render { .. } => "linearize/render",
        CompileState::Specify { .. } => "PROGRAM specification",
        CompileState::Launch { .. } => "launch dimensions",
        CompileState::Compile { .. } => "compile",
    }
}

/// Whether a result can come of a stage.
pub open spec fn comes_of(state: CompileState, result: StageResult) -> bool {
    match result {
        StageResult::Failed { .. } => !(state is Apply),
        StageResult::Prepared { .. } => state is Prepare,
        StageResult::Applied { .. } => state is Apply,
        StageResult::Optimized { .. } => state is Optimize,
        StageResult::Constructed => state is Construct,
        StageResult::Rendered { .. } => state is Render,
        StageResult::Specified { spec } => state is Specify && spec.in_bounds(),
        StageResult::Launched { .. } => state is Launch,
        StageResult::Compiled { .. } => state is Compile,
    }
}

/// The failure of a stage.
pub open spec fn failed_at(step: CompileStep, stage: Seq<char>, why: Seq<char>) -> bool {
    step matches CompileStep::Done(Err(BeamWorker::CompileStage { stage: name, reason })) && name@ == stage && reason@
        == why
}

/// Half of `n`, towards zero.
pub open spec fn half(n: int) -> int {
    if n >= 0 {
        n / 2
    } else {
        -((-n) / 2)
    }
}

/// The values that the first `k` variables are timed with: the middle of their
/// bounds, but for the core number.
pub open spec fn middle_values(vars: Seq<ProgramVar>, k: nat) -> Map<Seq<char>, i64>
    decreases k,
{
    if k == 0 {
        Map::empty()
    } else {
        let earlier = middle_values(vars, (k - 1) as nat);
        if vars[k - 1].name@ == "core_id"@ {
            earlier
        } else {
            earlier.insert(vars[k - 1].name@, half(vars[k - 1].min + vars[k - 1].max) as i64)
        }
    }
}

/// A variable's value, or 0.
pub open spec fn value_or_zero(values: Map<Seq<char>, i64>, name: Seq<char>) -> i64 {
    match lookup(values, name) {
        Some(value) => value,
        None => 0,
    }
}

/// The middle of two bounds, towards zero.
fn middle(min: i64, max: i64) -> (value: i64)
    requires
        i64::MIN <= min + max <= i64::MAX,
    ensures
        value == half(min + max),
{
    let sum = min + max;
    if sum >= 0 {
        sum / 2
    } else {
        let magnitude: u64 = (-(sum + 1)) as u64 + 1;
        -((magnitude / 2) as i64)
    }
}

/// The values that a program's variables are timed with.
pub fn launch_values(spec: &ProgramSpec) -> (values: VarVals)
    requires
        spec.in_bounds(),
    ensures
        values.wf(),
        values@ == middle_values(spec.vars@, spec.vars@.len()),
{
    let mut values = VarVals::new();
    let mut i: usize = 0;
    while i < spec.vars.len()
        invariant
            spec.in_bounds(),
            i <= spec.vars@.len(),
            values.wf(),
            values@ == middle_values(spec.vars@, i as nat),
        decreases spec.vars@.len() - i,
    {
        let variable = &spec.vars[i];
        assert(spec.vars@[i as int] == *variable);
        if !str_eq(variable.name.as_str(), "core_id") {
            values.set(variable.name.as_str(), middle(variable.min, variable.max));
        }
        i = i + 1;
    }
    values
}

/// The values that a launch passes, in order: a variable without one gets 0.
pub fn launch_vals(var_names: &Vec<String>, values: &VarVals) -> (vals: Vec<i64>)
    requires
        values.wf(),
    ensures
        vals@.len() == var_names@.len(),
        forall|i: int|
            #![trigger vals@[i]]
            0 <= i < vals@.len() ==> vals@[i] == value_or_zero(values@, var_names@[i]@),
{
    let mut vals: Vec<i64> = Vec::new();
    let mut i: usize = 0;
    while i < var_names.len()
        invariant
            values.wf(),
            i <= var_names@.len(),
            vals@.len() == i,
            forall|k: int|
                #![trigger vals@[k]]
                0 <= k < i ==> vals@[k] == value_or_zero(values@, var_names@[k]@),
        decreases var_names@.len() - i,
    {
        vals.push(
            match values.get(var_names[i].as_str()) {
                Some(value) => value,
                None => 0,
            },
        );
        i = i + 1;
    }
    vals
}

/// A time in nanoseconds, or the greatest that fits.
pub open spec fn clamped(ns: u128) -> u64 {
    if ns <= u64::MAX {
        ns as u64
    } else {
        u64::MAX
    }
}

fn clamp_ns(ns: u128) -> (clamped_ns: u64)
    ensures
        clamped_ns == clamped(ns),
{
    if ns <= u64::MAX as u128 { ns as u64 } else { u64::MAX }
}

/// A candidate whose program has as many operations as the limit, or more, is
/// dropped; a limit of 0 is none.
pub open spec fn too_large(max_uops: usize, linear_uops: usize) -> bool {
    max_uops > 0 && linear_uops >= max_uops
}

/// The artifact that a compiled candidate ends in.
pub open spec fn is_artifact(
    artifact: WorkerArtifact,
    compute_ops: u64,
    spec: ProgramSpec,
    vals: Vec<i64>,
    launch: LaunchDims,
    preparation_ns: u64,
    program: CompiledProgram,
    elapsed_ns: u128,
) -> bool {
    &&& artifact.source == spec.src
    &&& artifact.bytes == program.bytes
    &&& program.binary_identity == Some(artifact.identity)
    &&& artifact.name == spec.name
    &&& artifact.abi == spec.abi
    &&& artifact.global_size == launch.global_size
    &&& artifact.local_size == launch.local_size
    &&& artifact.vals == vals
    &&& artifact.compute_ops == compute_ops
    &&& artifact.preparation_ns == preparation_ns
    &&& artifact.compilation_ns == clamped(elapsed_ns)
}

/// The binary of a program was made from its source.
pub open spec fn identities_match(program: CompiledProgram) -> bool {
    match (program.source_identity, program.binary_identity) {
        (Some(source), Some(binary)) => binary.source == source,
        _ => false,
    }
}

/// The text of a scheduler that starts with another number of optimizations
/// than the parent's.
pub open spec fn base_mismatch(expected: usize, found: usize) -> Seq<char> {
    "base opt count mismatch: parent="@ + dec(expected as nat) + ", worker="@ + dec(found as nat)
}

/// What follows a stage's result.
pub open spec fn steps(init: &WorkerInit, state: CompileState, result: StageResult, step: CompileStep) -> bool {
    match (state, result) {
        (_, StageResult::Failed { reason }) => failed_at(step, stage_name(state), reason@),
        (CompileState::Prepare, StageResult::Prepared { applied_opts }) => if applied_opts != init.base_opt_count {
            failed_at(step, "prepare scheduler"@, base_mismatch(init.base_opt_count, applied_opts))
        } else {
            step == CompileStep::Next(CompileState::Apply)
        },
        (CompileState::Apply, StageResult::Applied { accepted }) => if accepted {
            step == CompileStep::Next(CompileState::Optimize)
        } else {
            step == CompileStep::Done(Ok(None))
        },
        (CompileState::Optimize, StageResult::Optimized { compute_ops }) => step == CompileStep::Next(
            CompileState::Construct { compute_ops },
        ),
        (CompileState::Construct { compute_ops }, StageResult::Constructed) => step == CompileStep::Next(
            CompileState::Render { compute_ops },
        ),
        (CompileState::Render { compute_ops }, StageResult::Rendered { linear_uops, shown }) => match linear_uops {
            None => failed_at(step, "linearize/render"@, shown@),
            Some(count) => if too_large(init.beam.max_uops, count) {
                step == CompileStep::Done(Ok(None))
            } else {
                step == CompileStep::Next(CompileState::Specify { compute_ops })
            },
        },
        (CompileState::Specify { compute_ops }, StageResult::Specified { spec }) => {
            step matches CompileStep::Next(CompileState::Launch { compute_ops: ops, spec: kept, values }) && ops
                == compute_ops && kept == spec && values.wf() && values@ == middle_values(spec.vars@, spec.vars@.len())
        },
        (CompileState::Launch { compute_ops, spec, values }, StageResult::Launched { dims, elapsed_ns }) => {
            step matches CompileStep::Next(
                CompileState::Compile { compute_ops: ops, spec: kept, vals, launch, preparation_ns },
            ) && ops == compute_ops && kept == spec && launch == dims && preparation_ns == clamped(elapsed_ns) && vals@.len()
                == spec.var_names@.len() && forall|i: int|
                #![trigger vals@[i]]
                0 <= i < vals@.len() ==> vals@[i] == value_or_zero(values@, spec.var_names@[i]@)
        },
        (
            CompileState::Compile { compute_ops, spec, vals, launch, preparation_ns },
            StageResult::Compiled { program, elapsed_ns },
        ) => if identities_match(program) {
            step matches CompileStep::Done(Ok(Some(artifact))) && is_artifact(
                artifact,
                compute_ops,
                spec,
                vals,
                launch,
                preparation_ns,
                program,
                elapsed_ns,
            )
        } else {
            failed_at(step, "compile"@, program.shown@)
        },
        _ => true,
    }
}

/// The settings under which a helper optimizes a candidate once its plan is
/// applied: the search's own, and for the rest those that the optimizer has where
/// nothing is asked for.
pub fn post_config(init: &WorkerInit, defaults: OptimizerConfig) -> (config: OptimizerConfig)
    ensures
        config.beam == init.beam,
        config.transcendental == init.transcendental,
        config.disable_fast_idiv == init.disable_fast_idiv,
        config.strategy == defaults.strategy,
        config.opts_to_apply == defaults.opts_to_apply,
        config.heuristics == defaults.heuristics,
{
    OptimizerConfig {
        strategy: defaults.strategy,
        opts_to_apply: defaults.opts_to_apply,
        heuristics: defaults.heuristics,
        beam: init.beam.copy(),
        transcendental: init.transcendental,
        disable_fast_idiv: init.disable_fast_idiv,
    }
}

/// Whether a helper reports that it drops a candidate with this many operations.
pub fn reports_drop(init: &WorkerInit, linear_uops: usize) -> (yes: bool)
    ensures
        yes == (init.log_surpass && too_large(init.beam.max_uops, linear_uops)),
{
    init.log_surpass && init.beam.max_uops > 0 && linear_uops >= init.beam.max_uops
}

/// Every state holds variables that are bound once.
pub open spec fn state_ok(state: CompileState) -> bool {
    state matches CompileState::Launch { values, .. } ==> values.wf()
}

/// Takes what came of a stage of compiling a candidate and gives the next
/// stage, or the candidate's end: an artifact, an error, or neither for a
/// candidate that cannot be built on the kernel or is too large.
pub fn try_compile(init: &WorkerInit, state: CompileState, result: StageResult) -> (step: CompileStep)
    requires
        comes_of(state, result),
        state_ok(state),
    ensures
        steps(init, state, result, step),
        step matches CompileStep::Next(next) ==> state_ok(next),
{
    let label = stage_label(&state);
    match result {
        StageResult::Failed { reason } => {
            return CompileStep::Done(Err(BeamWorker::at(label, reason)));
        }
        StageResult::Prepared { applied_opts } => {
            if applied_opts != init.base_opt_count {
                let mut reason = "base opt count mismatch: parent=".to_owned();
                reason.append(dec_string(init.base_opt_count as u64).as_str());
                reason.append(", worker=");
                reason.append(dec_string(applied_opts as u64).as_str());
                return CompileStep::Done(Err(BeamWorker::CompileStage { stage: "prepare scheduler", reason }));
            }
            return CompileStep::Next(CompileState::Apply);
        }
        StageResult::Applied { accepted } => {
            return if accepted {
                CompileStep::Next(CompileState::Optimize)
            } else {
                CompileStep::Done(Ok(None))
            };
        }
        StageResult::Optimized { compute_ops } => {
            return CompileStep::Next(CompileState::Construct { compute_ops });
        }
        StageResult::Constructed => {
            if let CompileState::Construct { compute_ops } = state {
                return CompileStep::Next(CompileState::Render { compute_ops });
            }
        }
        StageResult::Rendered { linear_uops, shown } => {
            if let CompileState::Render { compute_ops } = state {
                return match linear_uops {
                    None => CompileStep::Done(
                        Err(BeamWorker::CompileStage { stage: "linearize/render", reason: shown }),
                    ),
                    Some(count) => if init.beam.max_uops > 0 && count >= init.beam.max_uops {
                        CompileStep::Done(Ok(None))
                    } else {
                        CompileStep::Next(CompileState::Specify { compute_ops })
                    },
                };
            }
        }
        StageResult::Specified { spec } => {
            if let CompileState::Specify { compute_ops } = state {
                let values = launch_values(&spec);
                return CompileStep::Next(CompileState::Launch { compute_ops, spec, values });
            }
        }
        StageResult::Launched { dims, elapsed_ns } => {
            if let CompileState::Launch { compute_ops, spec, values } = state {
                let vals = launch_vals(&spec.var_names, &values);
                return CompileStep::Next(
                    CompileState::Compile {
                        compute_ops,
                        spec,
                        vals,
                        launch: dims,
                        preparation_ns: clamp_ns(elapsed_ns),
                    },
                );
            }
        }
        StageResult::Compiled { program, elapsed_ns } => {
            if let CompileState::Compile { compute_ops, spec, vals, launch, preparation_ns } = state {
                if let (Some(source), Some(binary)) = (program.source_identity, program.binary_identity) {
                    if binary.source == source {
                        return CompileStep::Done(
                            Ok(
                                Some(
                                    WorkerArtifact {
                                        source: spec.src,
                                        bytes: program.bytes,
                                        identity: binary,
                                        name: spec.name,
                                        abi: spec.abi,
                                        global_size: launch.global_size,
                                        local_size: launch.local_size,
                                        vals,
                                        compute_ops,
                                        preparation_ns,
                                        compilation_ns: clamp_ns(elapsed_ns),
                                    },
                                ),
                            ),
                        );
                    }
                }
                return CompileStep::Done(
                    Err(BeamWorker::CompileStage { stage: "compile", reason: program.shown }),
                );
            }
        }
    }
    assert(false);
    CompileStep::Done(Ok(None))
}

/// Only programs can be rendered and compiled; anything else is an error that
/// shows it.
pub fn expect_program(is_program: bool, shown: &str) -> (checked: Result<(), Error>)
    ensures
        if is_program {
            checked is Ok
        } else {
            checked matches Err(Error::IrConstruction { details }) && details@
                == "compile_with_program_pipeline_components expects PROGRAM input, got "@ + shown@
        },
{
    if !is_program {
        let mut details = "compile_with_program_pipeline_components expects PROGRAM input, got ".to_owned();
        details.append(shown);
        return Err(Error::IrConstruction { details });
    }
    Ok(())
}

/// An artifact's binary was made from the source that goes with it, whatever
/// the stages before came to.
pub proof fn law_artifacts_are_made_from_their_source(
    init: &WorkerInit,
    state: CompileState,
    result: StageResult,
    step: CompileStep,
)
    requires
        comes_of(state, result),
        steps(init, state, result, step),
    ensures
        step matches CompileStep::Done(Ok(Some(artifact))) ==> result matches StageResult::Compiled { program, .. }
            && program.source_identity == Some(artifact.identity.source) && artifact.bytes == program.bytes,
{
}

/// The middle of bounds lies within them.
pub proof fn law_timed_values_are_in_bounds(min: i64, max: i64)
    requires
        min <= max,
    ensures
        min <= half(min + max) <= max,
{
}

} // verus!
