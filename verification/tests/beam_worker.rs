use svod_tensor::beam::worker_init;
use svod_tensor::device::{AmdArch, CudaArch, DeviceSpec, GpuArch, MetalFamily};
use svod_tensor::error::BeamWorker;
use svod_tensor::graph::{Graph, Node, Op};
use svod_tensor::helper::{
    built_helper, cached_helper_path, check_ready, last_executable, last_of, reader_message, resolve_helper_path,
    spawn_worker, split_lines, HelperFacts, HelperStep, PathFact, SpawnEvent, SpawnStep,
};
use svod_tensor::kernels::{OptStrategy, OptimizerConfig, ResolvedDevice};
use svod_tensor::pool::{poll_slot, BusyTask, Received, SlotOutcome};
use svod_tensor::renderer::{get_optimizer_renderer, Renderer, RendererOps, Reported};
use svod_tensor::serve::{
    check_protocol, check_renderer, no_factory, response_for, set_up, worker_codegen, worker_main, CodegenFactory,
    CodegenStep, CompileOutcome, CreatedCodegen, SetupFacts, SetupStep, WorkerAction, WorkerEvent, WorkerState,
};
use svod_tensor::worker::{
    BeamConfig, BinaryStageIdentity, WorkerArtifact, WorkerInit, WorkerReady, WorkerResponse,
    BEAM_WORKER_PROTOCOL_VERSION,
};

fn response(index: usize) -> WorkerResponse {
    WorkerResponse { index, result: None, error: None }
}

const MILLISECOND: u128 = 1_000_000;

fn overdue(timeout_ns: u128) -> BusyTask {
    BusyTask { index: 0, elapsed_ns: timeout_ns }
}

/// A response written exactly on the deadline is already in the channel,
/// so it must be delivered instead of dropping the candidate and killing a
/// healthy helper.
#[test]
fn a_response_on_the_deadline_is_delivered_not_timed_out() {
    let timeout = 50 * MILLISECOND;
    let outcome = poll_slot(Received::Response(response(7)), Some(overdue(timeout)), timeout);
    assert!(matches!(outcome, SlotOutcome::Response(response) if response.index == 7), "on-deadline response dropped");
}

#[test]
fn an_empty_channel_past_the_deadline_times_out() {
    let timeout = 50 * MILLISECOND;
    assert!(matches!(poll_slot(Received::Empty, Some(overdue(timeout)), timeout), SlotOutcome::TimedOut));
    assert!(matches!(poll_slot(Received::Empty, Some(overdue(timeout)), 0), SlotOutcome::Idle));
    assert!(matches!(poll_slot(Received::Empty, None, timeout), SlotOutcome::Idle), "an idle worker never times out");
}

#[test]
fn a_closed_helper_fails_the_slot_regardless_of_the_deadline() {
    let timeout = 50 * MILLISECOND;
    let failed = Received::Error("stdout closed".to_string());
    assert!(matches!(poll_slot(failed, Some(overdue(timeout)), timeout), SlotOutcome::Failed(Some(_))));
    assert!(matches!(
        poll_slot(Received::Disconnected, Some(overdue(timeout)), timeout),
        SlotOutcome::Failed(None)
    ));
}

#[test]
fn a_busy_worker_before_its_deadline_is_idle() {
    let task = BusyTask { index: 3, elapsed_ns: 50 * MILLISECOND - 1 };
    assert!(matches!(poll_slot(Received::Empty, Some(task), 50 * MILLISECOND), SlotOutcome::Idle));
}

/// A resolution failure must not be latched: the next attempt has to run
/// the resolver again, and only a success is remembered.
#[test]
fn helper_resolution_failures_are_not_cached() {
    let mut cache = None;
    let attempts = std::cell::Cell::new(0usize);
    let resolve = || {
        attempts.set(attempts.get() + 1);
        match attempts.get() {
            1 => Err(BeamWorker::HelperUnavailable { reason: "not built yet".into() }),
            _ => Ok("/helper/svod-beam-worker".to_string()),
        }
    };

    assert!(cached_helper_path(&mut cache, resolve).is_err(), "first resolution must fail");
    let resolved = cached_helper_path(&mut cache, resolve).expect("a failure must not be latched");
    assert_eq!(resolved, "/helper/svod-beam-worker");
    assert_eq!(cached_helper_path(&mut cache, resolve).unwrap(), resolved);
    assert_eq!(attempts.get(), 2, "a cached success must not re-resolve");
}

/// A `SVOD_BEAM_WORKER` that is not a file is reported, not silently ignored.
#[test]
fn a_non_file_helper_override_is_rejected() {
    let facts = HelperFacts {
        configured: Some(PathFact { path: "/tmp/helper.absent".to_string(), is_file: false }),
        bundled: Some(PathFact { path: "/usr/bin/helper".to_string(), is_file: true }),
        workspace_manifest: Some(true),
    };
    let failure = resolve_helper_path(&facts).expect_err("a missing helper must not resolve");
    assert!(
        matches!(&failure, BeamWorker::HelperUnavailable { reason } if reason.contains("is not a file")),
        "{}",
        failure.to_string()
    );
    assert!(failure.to_string().contains("SVOD_BEAM_WORKER=/tmp/helper.absent is not a file"));
}

#[test]
fn helpers_are_taken_in_order() {
    let fact = |path: &str, is_file| Some(PathFact { path: path.to_string(), is_file });
    let facts = |configured, bundled, workspace_manifest| HelperFacts { configured, bundled, workspace_manifest };

    let set = resolve_helper_path(&facts(fact("/set", true), fact("/bundled", true), None));
    assert_eq!(set, Ok(HelperStep::Use("/set".to_string())));
    let bundled = resolve_helper_path(&facts(None, fact("/bundled", true), Some(true)));
    assert_eq!(bundled, Ok(HelperStep::Use("/bundled".to_string())));
    assert_eq!(resolve_helper_path(&facts(None, fact("/bundled", false), Some(true))), Ok(HelperStep::Build));
    assert_eq!(resolve_helper_path(&facts(None, None, Some(true))), Ok(HelperStep::Build));
    let nowhere = resolve_helper_path(&facts(None, None, None)).unwrap_err();
    assert!(nowhere.to_string().contains("cannot locate workspace"));
    let bare = resolve_helper_path(&facts(None, None, Some(false))).unwrap_err();
    assert!(bare.to_string().contains("svod workspace is unavailable"));
}

/// The helper path comes from cargo's own artifact report, not a guessed
/// `target/<profile>/` layout.
#[test]
fn last_executable_takes_cargos_final_artifact() {
    let messages = [
        r#"{"reason":"compiler-artifact","target":{"name":"svod-tensor"},"executable":null}"#,
        "\n",
        r#"{"reason":"compiler-artifact","executable":"/custom/target/dir/debug/svod-beam-worker"}"#,
        "\n",
        r#"{"reason":"build-finished","success":true}"#,
        "\n",
    ]
    .concat();
    assert_eq!(
        last_executable(messages.as_bytes()),
        Some("/custom/target/dir/debug/svod-beam-worker".to_string())
    );
    assert_eq!(last_executable(b"not json\n"), None);
}

#[test]
fn the_last_named_executable_wins() {
    let messages = "{\"executable\":\"/a\"}\r\n{\"executable\":\"\\u002fb \\u00e9\"}\n\n{\"executable\":7}";
    assert_eq!(last_executable(messages.as_bytes()), Some("/b \u{e9}".to_string()));
    assert_eq!(last_executable(b"{\"executable\":\"/a\"}\n\xff\n"), None, "not a text");
    assert_eq!(last_executable(b""), None);
    assert_eq!(last_executable(b"[\"executable\"]\n\"executable\"\n"), None);
    assert_eq!(last_of(&vec![None, Some("x".to_string()), Some("y".to_string()), None]), Some("y".to_string()));
    assert_eq!(last_of(&vec![None]), None);
}

#[test]
fn lines_end_as_in_text_files() {
    for text in ["", "\n", "a", "a\n", "a\nb", "a\r\nb\r\n", "\n\na\r", "a\r\r\nb", "\r\n"] {
        let expected: Vec<String> = text.lines().map(|line| line.to_string()).collect();
        assert_eq!(split_lines(text), expected, "{text:?}");
    }
}

#[test]
fn a_build_is_used_only_if_it_names_its_product() {
    let messages = b"{\"executable\":\"/t/svod-beam-worker\"}\n";
    assert_eq!(built_helper(true, "exit status: 0", messages), Ok("/t/svod-beam-worker".to_string()));
    let failed = built_helper(false, "exit status: 101", messages).unwrap_err();
    assert!(failed.to_string().contains("cargo failed to build svod-beam-worker: exit status: 101"));
    let silent = built_helper(true, "exit status: 0", b"").unwrap_err();
    assert!(silent.to_string().contains("reported no executable artifact"));
}

#[test]
fn helpers_that_cannot_start_are_unavailable() {
    assert_eq!(check_ready(Some(WorkerReady { error: None })), Ok(()));
    let exited = check_ready(None).unwrap_err();
    assert_eq!(
        exited,
        BeamWorker::HelperUnavailable { reason: "BEAM helper exited during initialization".to_string() }
    );
    let refused = check_ready(Some(WorkerReady { error: Some("no clang".to_string()) })).unwrap_err();
    assert_eq!(refused, BeamWorker::HelperUnavailable { reason: "initialization failed: no clang".to_string() });
}

#[test]
fn readers_stop_at_the_end_of_the_output() {
    assert_eq!(reader_message(Ok(Some(response(2)))), (Received::Response(response(2)), true));
    assert_eq!(reader_message(Ok(None)), (Received::Error("BEAM helper stdout closed".to_string()), false));
    assert_eq!(reader_message(Err("short".to_string())), (Received::Error("short".to_string()), false));
}

/// Pool failures are typed, so a caller can tell an out-of-order helper
/// from an unavailable one instead of matching on a rendered string.
#[test]
fn worker_misorder_is_a_distinguishable_variant() {
    let misorder = BeamWorker::WorkerMisorder { got: 3, expected: Some(1) };
    assert!(matches!(misorder, BeamWorker::WorkerMisorder { got: 3, expected: Some(1) }));
    assert!(misorder.to_string().contains("expected Some(1)"), "{}", misorder.to_string());
}

fn beam_config() -> BeamConfig {
    BeamConfig {
        beam_width: 4,
        max_upcast: 256,
        max_local: 1024,
        max_uops: 3000,
        min_progress_ns: 10,
        enable_nolocals: false,
        compile_timeout_secs: 10,
        num_runs: 3,
        compile_workers: 0,
        max_tasks_per_child: 16,
        disable_cache: false,
    }
}

fn empty_sink() -> Graph {
    Graph { nodes: vec![Node { op: Op::Sink { explicit_opts: false }, srcs: vec![] }] }
}

fn any_worker_init(device: DeviceSpec, gpu_arch: Option<GpuArch>, compiler_key: &str) -> WorkerInit {
    WorkerInit {
        protocol_version: BEAM_WORKER_PROTOCOL_VERSION,
        graph: empty_sink(),
        device,
        gpu_arch,
        compiler_key: compiler_key.to_string(),
        renderer_fingerprint: 0,
        base_opt_count: 0,
        beam: beam_config(),
        transcendental: 0,
        disable_fast_idiv: false,
        log_surpass: false,
    }
}

fn cuda_worker_init(gpu_arch: Option<GpuArch>, compiler_key: &str) -> WorkerInit {
    any_worker_init(DeviceSpec::Cuda { device_id: 0 }, gpu_arch, compiler_key)
}

/// The CUDA arm needs the compute capability on the wire: without it the
/// helper reports itself unavailable instead of guessing an arch.
#[test]
fn cuda_worker_without_an_arch_is_unavailable() {
    let Err(error) = worker_codegen(&cuda_worker_init(None, "nvptx-clang:none"), &vec![]) else {
        panic!("no arch on the wire")
    };
    assert!(
        matches!(&error, BeamWorker::HelperUnavailable { reason } if reason.contains("target architecture")),
        "{}",
        error.to_string()
    );
}

fn made(keys: &[&str]) -> Vec<CreatedCodegen> {
    keys.iter().map(|key| created_for(key, None)).collect()
}

fn created_for(key: &str, target: Option<&str>) -> CreatedCodegen {
    CreatedCodegen {
        compiler_key: key.to_string(),
        target: target.map(|text| text.to_string()),
        ops: ops(),
        reported: reported(),
    }
}

fn ops() -> RendererOps {
    RendererOps { unary: vec![0], binary: vec![0, 1], ternary: vec![] }
}

fn reported() -> Reported {
    Reported {
        allow_tf32: false,
        global_max: None,
        global_prod_max: None,
        local_max: Some(512),
        upcast_max: 16,
        buffer_max: None,
        supports_float4: true,
        storage: vec![],
        tensor_cores: vec![],
    }
}

#[test]
fn amd_workers_need_an_arch_of_their_kind() {
    let device = DeviceSpec::Amd { device_id: 2 };
    let cuda = GpuArch::Cuda(CudaArch::from_compute_capability(8, 0));
    for arch in [None, Some(cuda)] {
        let init = any_worker_init(device.copy(), arch, "amd");
        let error = worker_codegen(&init, &vec![]).unwrap_err();
        assert!(error.to_string().contains("AMD BEAM worker initialization has no target architecture"));
    }
    let init = any_worker_init(device, Some(GpuArch::Amd(AmdArch::Gfx950)), "amd:gfx950");
    assert_eq!(
        worker_codegen(&init, &vec![]),
        Ok(CodegenStep::Create(CodegenFactory::Amd { device_id: 2, arch: AmdArch::Gfx950 }))
    );
    assert_eq!(
        worker_codegen(&init, &made(&["amd:gfx950"])),
        Ok(CodegenStep::Ready {
            chosen: 0,
            renderer: Renderer::for_amd_arch(AmdArch::Gfx950, &reported()).with_codegen_renderer(None, ops())
        })
    );
    let other = worker_codegen(&init, &made(&["amd:gfx942"])).unwrap_err();
    assert!(other.to_string().contains("compiler identity mismatch: parent=amd:gfx950, worker=amd:gfx942"));
}

#[test]
fn cpu_workers_try_both_compilers() {
    let init = any_worker_init(DeviceSpec::Cpu, None, "llvm");
    let cpu = || Renderer::cpu(&reported()).with_codegen_renderer(None, ops());
    assert_eq!(worker_codegen(&init, &made(&[])), Ok(CodegenStep::Create(CodegenFactory::CpuClang)));
    assert_eq!(worker_codegen(&init, &made(&["clang"])), Ok(CodegenStep::Create(CodegenFactory::CpuLlvm)));
    assert_eq!(
        worker_codegen(&init, &made(&["clang", "llvm"])),
        Ok(CodegenStep::Ready { chosen: 1, renderer: cpu() })
    );
    assert_eq!(worker_codegen(&init, &made(&["llvm"])), Ok(CodegenStep::Ready { chosen: 0, renderer: cpu() }));
    let neither = worker_codegen(&init, &made(&["clang", "cranelift"])).unwrap_err();
    assert!(neither.to_string().contains("no CPU backend matches compiler identity llvm"));
}

#[test]
fn devices_without_a_compiler_are_named() {
    let disk = any_worker_init(DeviceSpec::Disk { path: "we\"ights\n".to_string() }, None, "x");
    let error = worker_codegen(&disk, &vec![]).unwrap_err();
    let expected = format!("Disk {{ path: {:?} }} has no device-disabled BEAM codegen factory", "we\"ights\n");
    assert_eq!(error, BeamWorker::HelperUnavailable { reason: expected });
    assert_eq!(
        worker_codegen(&any_worker_init(DeviceSpec::WebGpu, None, "x"), &vec![]).unwrap_err(),
        no_factory("WebGpu")
    );
}

fn optimizer_config() -> OptimizerConfig {
    OptimizerConfig {
        strategy: OptStrategy::Beam { width: 4 },
        opts_to_apply: None,
        heuristics: 0,
        beam: beam_config(),
        transcendental: 1,
        disable_fast_idiv: true,
    }
}

#[test]
fn a_worker_rebuilds_the_parents_profile() {
    let metal = GpuArch::Metal(MetalFamily::Apple(9));
    for (device, gpu_arch, target) in [
        (DeviceSpec::Cpu, None, Some("x86_64")),
        (
            DeviceSpec::Cuda { device_id: 0 },
            Some(GpuArch::Cuda(CudaArch::from_compute_capability(7, 0))),
            Some("sm_70"),
        ),
        (DeviceSpec::Amd { device_id: 1 }, Some(GpuArch::Amd(AmdArch::Gfx1201)), None),
        (DeviceSpec::Metal { device_id: 0 }, Some(metal), None),
        (DeviceSpec::Metal { device_id: 0 }, None, None),
    ] {
        let resolved = ResolvedDevice {
            device: device.copy(),
            compiler_key: "key".to_string(),
            gpu_arch,
            target: target.map(|text| text.to_string()),
            ops: ops(),
            reported: reported(),
        };
        let parent =
            get_optimizer_renderer(&device, gpu_arch, target.map(|text| text.to_string()), ops(), &reported());
        let init = worker_init(empty_sink(), &resolved, &parent, 2, &optimizer_config(), 5, true);
        assert_eq!(check_protocol(&init), Ok(()));
        assert_eq!((init.beam.compile_workers, init.beam.num_runs), (5, 3));
        assert_eq!((init.base_opt_count, init.transcendental, init.disable_fast_idiv, init.log_surpass), (2, 1, true, true));
        assert_eq!((&init.device, init.gpu_arch, init.compiler_key.as_str()), (&device, gpu_arch, "key"));
        let created = || vec![created_for("key", target)];
        let Ok(CodegenStep::Ready { renderer, .. }) = worker_codegen(&init, &created()) else {
            panic!("the compiler is the parent's")
        };
        assert_eq!(check_renderer(&init, &renderer), Ok(()));
        let facts = SetupFacts { decoded: Some(Ok(())), created: created(), failed: None };
        assert_eq!(set_up(&init, facts), SetupStep::Done(Ok((0, renderer))));
        let unbound = check_renderer(&init, &Renderer::tinygrad_base_cpu(&reported())).unwrap_err();
        assert!(unbound.to_string().contains("renderer identity mismatch: parent="));
    }
}

#[test]
fn workers_set_themselves_up_in_order() {
    let facts = |decoded, created, failed| SetupFacts { decoded, created, failed };
    let mut init = any_worker_init(DeviceSpec::Cpu, None, "clang");
    init.renderer_fingerprint = Renderer::cpu(&reported()).with_codegen_renderer(None, ops()).cache_fingerprint();
    assert_eq!(set_up(&init, facts(None, vec![], None)), SetupStep::Decode);
    let undecoded = set_up(&init, facts(Some(Err("bad node".to_string())), vec![], None));
    assert_eq!(
        undecoded,
        SetupStep::Done(Err(BeamWorker::CompileStage { stage: "decode graph", reason: "bad node".to_string() }))
    );
    assert_eq!(set_up(&init, facts(Some(Ok(())), vec![], None)), SetupStep::Create(CodegenFactory::CpuClang));
    for (factory, stage) in [
        (CodegenFactory::CpuClang, "CPU codegen"),
        (CodegenFactory::CpuLlvm, "CPU codegen"),
        (CodegenFactory::Amd { device_id: 0, arch: AmdArch::Gfx942 }, "AMD codegen"),
        (CodegenFactory::Metal { device_id: 0 }, "Metal codegen"),
        (
            CodegenFactory::Cuda { device_id: 0, arch: CudaArch::from_compute_capability(8, 0) },
            "CUDA codegen",
        ),
    ] {
        let failed = set_up(&init, facts(Some(Ok(())), vec![], Some((factory, "absent".to_string()))));
        assert_eq!(failed, SetupStep::Done(Err(BeamWorker::CompileStage { stage, reason: "absent".to_string() })));
    }
    let ready = set_up(&init, facts(Some(Ok(())), made(&["clang"]), None));
    assert_eq!(ready, SetupStep::Done(Ok((0, Renderer::cpu(&reported()).with_codegen_renderer(None, ops())))));
    init.renderer_fingerprint ^= 1;
    let SetupStep::Done(Err(error)) = set_up(&init, facts(Some(Ok(())), made(&["clang"]), None)) else {
        panic!("another profile")
    };
    assert!(error.to_string().contains("renderer identity mismatch"));
    init.protocol_version += 1;
    let SetupStep::Done(Err(error)) = set_up(&init, facts(None, vec![], None)) else { panic!("another protocol") };
    assert!(matches!(error, BeamWorker::ProtocolMismatch { .. }));
}

#[test]
fn helpers_are_started_step_by_step() {
    let path = "/usr/bin/svod-beam-worker";
    let io = || "broken".to_string();
    assert_eq!(spawn_worker(path, SpawnEvent::Spawned(Ok((true, true)))), SpawnStep::WriteInit);
    assert_eq!(spawn_worker(path, SpawnEvent::Written(Ok(()))), SpawnStep::ReadReady);
    let ready = |error: Option<&str>| {
        SpawnEvent::Ready(Ok(Some(WorkerReady { error: error.map(|text| text.to_string()) })))
    };
    assert_eq!(spawn_worker(path, ready(None)), SpawnStep::Started);

    let unavailable = |reason: &str, wait| SpawnStep::Failed {
        error: BeamWorker::HelperUnavailable { reason: reason.to_string() },
        wait,
    };
    assert_eq!(
        spawn_worker(path, SpawnEvent::Spawned(Err(io()))),
        SpawnStep::Failed {
            error: BeamWorker::SpawnHelper { path: path.to_string(), source: io() },
            wait: false
        }
    );
    assert_eq!(
        spawn_worker(path, SpawnEvent::Spawned(Ok((false, false)))),
        unavailable("BEAM helper stdin was not piped", false)
    );
    assert_eq!(
        spawn_worker(path, SpawnEvent::Spawned(Ok((true, false)))),
        unavailable("BEAM helper stdout was not piped", false)
    );
    assert_eq!(
        spawn_worker(path, SpawnEvent::Ready(Ok(None))),
        unavailable("BEAM helper exited during initialization", false)
    );
    assert_eq!(spawn_worker(path, ready(Some("no arch"))), unavailable("initialization failed: no arch", true));
    for (event, what) in [
        (SpawnEvent::Written(Err(io())), "initialize BEAM helper"),
        (SpawnEvent::Ready(Err(io())), "read BEAM helper readiness"),
    ] {
        assert_eq!(
            spawn_worker(path, event),
            SpawnStep::Failed { error: BeamWorker::Frame { what, source: io() }, wait: false }
        );
    }
}

#[test]
fn protocols_must_agree() {
    let mut init = cuda_worker_init(None, "");
    assert_eq!(check_protocol(&init), Ok(()));
    init.protocol_version = BEAM_WORKER_PROTOCOL_VERSION + 1;
    assert_eq!(
        check_protocol(&init),
        Err(BeamWorker::ProtocolMismatch {
            expected: BEAM_WORKER_PROTOCOL_VERSION + 1,
            actual: BEAM_WORKER_PROTOCOL_VERSION
        })
    );
}

fn artifact() -> WorkerArtifact {
    WorkerArtifact {
        source: "src".to_string(),
        bytes: vec![1, 2],
        identity: BinaryStageIdentity { source: 5, binary: 6 },
        name: "r_4".to_string(),
        abi: vec![],
        global_size: [1, 1, 1],
        local_size: None,
        vals: vec![],
        compute_ops: 9,
        preparation_ns: 1,
        compilation_ns: 2,
    }
}

#[test]
fn jobs_are_answered_with_what_came_of_them() {
    let finished = response_for(4, CompileOutcome::Finished(Some(artifact())));
    assert_eq!(finished, WorkerResponse { index: 4, result: Some(artifact()), error: None });
    assert_eq!(response_for(1, CompileOutcome::Finished(None)), response(1));
    let error = BeamWorker::CompileStage { stage: "compile", reason: "no".to_string() };
    let text = error.to_string();
    assert_eq!(
        response_for(2, CompileOutcome::Failed(error)),
        WorkerResponse { index: 2, result: None, error: Some(text) }
    );
    assert_eq!(response_for(3, CompileOutcome::Panicked).error.as_deref(), Some("candidate panicked"));
}

#[test]
fn a_worker_serves_jobs_until_its_input_ends() {
    let (state, action) = worker_main(WorkerState::Initializing, WorkerEvent::Init(Ok(Some(10))));
    assert_eq!(action, WorkerAction::SetUp);
    let (state, action) = worker_main(state, WorkerEvent::Setup(Ok(())));
    assert_eq!(action, WorkerAction::WriteReady(WorkerReady { error: None }));
    let (mut state, mut action) = worker_main(state, WorkerEvent::Written(Ok(())));
    for index in [3, 8] {
        assert_eq!(action, WorkerAction::ReadJob);
        let (compiling, compile) = worker_main(state, WorkerEvent::Job(Ok(Some(index))));
        assert_eq!(compile, WorkerAction::Compile { watchdog_secs: Some(10) });
        let (answering, answer) = worker_main(compiling, WorkerEvent::Compiled(CompileOutcome::Finished(None)));
        assert_eq!(answer, WorkerAction::WriteResponse(response(index)));
        (state, action) = worker_main(answering, WorkerEvent::Written(Ok(())));
    }
    assert_eq!(action, WorkerAction::ReadJob);
    let (state, action) = worker_main(state, WorkerEvent::Job(Ok(None)));
    assert_eq!((state, action), (WorkerState::Ended, WorkerAction::Exit(Ok(()))));
}

#[test]
fn a_worker_without_a_limit_has_no_watchdog() {
    let (_, action) = worker_main(WorkerState::Idle { timeout_secs: 0 }, WorkerEvent::Job(Ok(Some(1))));
    assert_eq!(action, WorkerAction::Compile { watchdog_secs: None });
}

#[test]
fn a_worker_that_cannot_be_set_up_says_so_and_ends() {
    let error = || BeamWorker::HelperUnavailable { reason: "no arch".to_string() };
    let (state, action) = worker_main(WorkerState::SettingUp { timeout_secs: 1 }, WorkerEvent::Setup(Err(error())));
    assert_eq!(action, WorkerAction::WriteReady(WorkerReady { error: Some(error().to_string()) }));
    for written in [Ok(()), Err("broken pipe".to_string())] {
        let (state, action) = worker_main(WorkerState::Refusing { error: error() }, WorkerEvent::Written(written));
        assert_eq!((state, action), (WorkerState::Ended, WorkerAction::Exit(Err(error()))));
    }
    assert_eq!(state, WorkerState::Refusing { error: error() });
}

#[test]
fn broken_frames_end_a_worker() {
    let io = || "broken".to_string();
    for (state, event, what) in [
        (WorkerState::Initializing, WorkerEvent::Init(Err(io())), "read worker initialization"),
        (WorkerState::Announcing { timeout_secs: 1 }, WorkerEvent::Written(Err(io())), "write worker readiness"),
        (WorkerState::Idle { timeout_secs: 1 }, WorkerEvent::Job(Err(io())), "read worker job"),
        (WorkerState::Answering { timeout_secs: 1 }, WorkerEvent::Written(Err(io())), "write worker response"),
    ] {
        let (next, action) = worker_main(state, event);
        assert_eq!(next, WorkerState::Ended);
        assert_eq!(action, WorkerAction::Exit(Err(BeamWorker::Frame { what, source: io() })));
    }
    let (_, action) = worker_main(WorkerState::Initializing, WorkerEvent::Init(Ok(None)));
    let WorkerAction::Exit(Err(error)) = action else { panic!("an input that ends is an error") };
    assert!(error.to_string().contains("worker stdin closed before initialization"));
}
