use svod_tensor::compile::{
    expect_program, launch_vals, launch_values, post_config, reports_drop, try_compile, CompileState, CompileStep,
    CompiledProgram, LaunchDims, ProgramSpec, ProgramVar, StageResult,
};
use svod_tensor::device::DeviceSpec;
use svod_tensor::error::{BeamWorker, Error};
use svod_tensor::graph::{Graph, Node, Op};
use svod_tensor::kernels::{OptStrategy, OptimizerConfig};
use svod_tensor::opt::Opt;
use svod_tensor::vars::VarVals;
use svod_tensor::worker::{AbiParamDescriptor, BeamConfig, BinaryStageIdentity, WorkerInit};

fn init(max_uops: usize) -> WorkerInit {
    WorkerInit {
        protocol_version: 1,
        graph: Graph { nodes: vec![Node { op: Op::Sink { explicit_opts: false }, srcs: vec![] }] },
        device: DeviceSpec::Cpu,
        gpu_arch: None,
        compiler_key: String::new(),
        renderer_fingerprint: 0,
        base_opt_count: 2,
        beam: BeamConfig {
            beam_width: 1,
            max_upcast: 1,
            max_local: 1,
            max_uops,
            min_progress_ns: 0,
            enable_nolocals: false,
            compile_timeout_secs: 0,
            num_runs: 1,
            compile_workers: 1,
            max_tasks_per_child: 1,
            disable_cache: false,
        },
        transcendental: 0,
        disable_fast_idiv: false,
        log_surpass: false,
    }
}

fn spec() -> ProgramSpec {
    let var = |name: &str, min, max| ProgramVar { name: name.to_string(), min, max };
    ProgramSpec {
        src: "void k() {}".to_string(),
        name: "k".to_string(),
        abi: vec![AbiParamDescriptor { slot: 0, bytes: 8 }],
        vars: vec![var("N", 1, 32), var("core_id", 0, 7), var("off", -5, 0)],
        var_names: ["off", "core_id", "N", "other"].iter().map(|name| name.to_string()).collect(),
    }
}

fn program(source: Option<u64>, binary: Option<(u64, u64)>) -> CompiledProgram {
    CompiledProgram {
        bytes: vec![1, 2, 3],
        source_identity: source,
        binary_identity: binary.map(|(source, binary)| BinaryStageIdentity { source, binary }),
        shown: "ProgramBinary".to_string(),
    }
}

fn dims() -> LaunchDims {
    LaunchDims { global_size: [4, 2, 1], local_size: Some([8, 1, 1]) }
}

fn next(init: &WorkerInit, state: CompileState, result: StageResult) -> CompileState {
    match try_compile(init, state, result) {
        CompileStep::Next(state) => state,
        other => panic!("{other:?}"),
    }
}

#[test]
fn candidates_go_through_every_stage() {
    let init = init(100);
    let state = next(&init, CompileState::Prepare, StageResult::Prepared { applied_opts: 2 });
    let state = next(&init, state, StageResult::Applied { accepted: true });
    let state = next(&init, state, StageResult::Optimized { compute_ops: 640 });
    let state = next(&init, state, StageResult::Constructed);
    let state = next(&init, state, StageResult::Rendered { linear_uops: Some(99), shown: String::new() });
    let state = next(&init, state, StageResult::Specified { spec: spec() });
    let state = next(&init, state, StageResult::Launched { dims: dims(), elapsed_ns: 70 });
    let compiled = StageResult::Compiled { program: program(Some(5), Some((5, 6))), elapsed_ns: u128::MAX };
    let CompileStep::Done(Ok(Some(artifact))) = try_compile(&init, state, compiled) else {
        panic!("the binary was made from the source")
    };
    assert_eq!((artifact.source.as_str(), artifact.name.as_str()), ("void k() {}", "k"));
    assert_eq!(artifact.bytes, vec![1, 2, 3]);
    assert_eq!(artifact.identity, BinaryStageIdentity { source: 5, binary: 6 });
    assert_eq!(artifact.abi, spec().abi);
    assert_eq!((artifact.global_size, artifact.local_size), ([4, 2, 1], Some([8, 1, 1])));
    assert_eq!(artifact.vals, vec![-2, 0, 16, 0]);
    assert_eq!((artifact.compute_ops, artifact.preparation_ns, artifact.compilation_ns), (640, 70, u64::MAX));
}

#[test]
fn variables_are_timed_in_the_middle_of_their_bounds() {
    let values = launch_values(&spec());
    assert_eq!((values.get("N"), values.get("off"), values.get("core_id")), (Some(16), Some(-2), None));
    let names = vec!["core_id".to_string(), "N".to_string()];
    assert_eq!(launch_vals(&names, &values), vec![0, 16]);
    assert_eq!(launch_vals(&names, &VarVals::new()), vec![0, 0]);
}

#[test]
fn candidates_that_do_not_apply_or_are_too_large_are_dropped() {
    let dropped = CompileStep::Done(Ok(None));
    assert_eq!(try_compile(&init(0), CompileState::Apply, StageResult::Applied { accepted: false }), dropped);
    let render = |max_uops, count| {
        try_compile(
            &init(max_uops),
            CompileState::Render { compute_ops: 1 },
            StageResult::Rendered { linear_uops: Some(count), shown: String::new() },
        )
    };
    assert_eq!(render(10, 10), dropped);
    assert_eq!(render(10, 9), CompileStep::Next(CompileState::Specify { compute_ops: 1 }));
    assert_eq!(render(0, 1_000_000), CompileStep::Next(CompileState::Specify { compute_ops: 1 }));
}

fn failed(stage: &'static str, reason: &str) -> CompileStep {
    CompileStep::Done(Err(BeamWorker::CompileStage { stage, reason: reason.to_string() }))
}

#[test]
fn failures_name_their_stage() {
    let launch = || CompileState::Launch { compute_ops: 0, spec: spec(), values: VarVals::new() };
    let compile = || CompileState::Compile {
        compute_ops: 0,
        spec: spec(),
        vals: vec![],
        launch: dims(),
        preparation_ns: 0,
    };
    for (state, stage) in [
        (CompileState::Prepare, "prepare scheduler"),
        (CompileState::Optimize, "post optimization"),
        (CompileState::Construct { compute_ops: 0 }, "construct PROGRAM"),
        (CompileState::Render { compute_ops: 0 }, "linearize/render"),
        (CompileState::Specify { compute_ops: 0 }, "PROGRAM specification"),
        (launch(), "launch dimensions"),
        (compile(), "compile"),
    ] {
        let result = StageResult::Failed { reason: "no".to_string() };
        assert_eq!(try_compile(&init(0), state, result), failed(stage, "no"));
    }
    assert_eq!(
        try_compile(&init(0), CompileState::Prepare, StageResult::Prepared { applied_opts: 3 }),
        failed("prepare scheduler", "base opt count mismatch: parent=2, worker=3")
    );
    assert_eq!(
        try_compile(
            &init(0),
            CompileState::Render { compute_ops: 0 },
            StageResult::Rendered { linear_uops: None, shown: "Noop".to_string() }
        ),
        failed("linearize/render", "Noop")
    );
    for program in [program(None, None), program(Some(1), None), program(None, Some((1, 2))), program(Some(1), Some((2, 1)))]
    {
        let result = StageResult::Compiled { program, elapsed_ns: 1 };
        assert_eq!(try_compile(&init(0), compile(), result), failed("compile", "ProgramBinary"));
    }
}

#[test]
fn only_programs_are_compiled() {
    assert_eq!(expect_program(true, "Program"), Ok(()));
    assert_eq!(
        expect_program(false, "Sink"),
        Err(Error::IrConstruction {
            details: "compile_with_program_pipeline_components expects PROGRAM input, got Sink".to_string()
        })
    );
}

#[test]
fn candidates_are_optimized_under_the_searchs_settings() {
    let defaults = || OptimizerConfig {
        strategy: OptStrategy::Heuristic,
        opts_to_apply: Some(vec![Opt::nolocals()]),
        heuristics: 12,
        beam: BeamConfig { beam_width: 9, max_uops: 8, ..init(0).beam },
        transcendental: 5,
        disable_fast_idiv: false,
    };
    let told = WorkerInit { transcendental: 2, disable_fast_idiv: true, ..init(77) };
    let config = post_config(&told, defaults());
    assert_eq!(config.beam, init(77).beam);
    assert_eq!((config.transcendental, config.disable_fast_idiv), (2, true));
    assert_eq!(
        (config.strategy, &config.opts_to_apply, config.heuristics),
        (OptStrategy::Heuristic, &defaults().opts_to_apply, 12),
        "the rest is the optimizer's own"
    );
}

#[test]
fn large_candidates_are_reported_where_asked() {
    let asked = |max_uops| WorkerInit { log_surpass: true, ..init(max_uops) };
    assert!(reports_drop(&asked(10), 10));
    assert!(!reports_drop(&asked(10), 9));
    assert!(!reports_drop(&asked(0), 10), "there is no limit");
    assert!(!reports_drop(&init(10), 10));
}
