use std::collections::hash_map::DefaultHasher;
use std::hash::{Hash, Hasher};

use svod_tensor::batch::{build_missing, BuildAction, BuildEvent, BuildState};
use svod_tensor::beam::{
    accepted, beam_search_optimize, binary_key, compiled_candidate, post_optimizer_behavior_fingerprint,
    resolve_compile_workers, shrink_global_size, SearchAction, SearchEvent, SearchJob, SearchState,
    MAX_TEST_GLOBAL_SIZE,
};
use svod_tensor::device::DeviceSpec;
use svod_tensor::error::{BeamWorker, Error};
use svod_tensor::graph::{Graph, Node, Op};
use svod_tensor::kernels::{
    compile_missing_kernels, compile_threads, missing_sites, optimizer_config_fingerprint, part_optimized, KernelSite,
    OptStrategy, OptimizerConfig, ResolvedDevice,
};
use svod_tensor::opt::Opt;
use svod_tensor::opt_cache::{optimized_kernel_key, OptCacheState, DEFAULT_CAP};
use svod_tensor::renderer::{get_optimizer_renderer, Renderer, RendererOps, Reported};
use svod_tensor::schedule::ScheduleItem;
use svod_tensor::shared_map::{copy_key, same_key, CacheKey, SharedMap};
use svod_tensor::vars::VarVals;
use svod_tensor::worker::{
    BeamConfig, BinaryStageIdentity, WorkerArtifact, WorkerResponse, BEAM_WORKER_PROTOCOL_VERSION,
};

fn key(ast_hash: u64) -> CacheKey {
    optimized_kernel_key(ast_hash, &DeviceSpec::Cpu, "clang", 1, 2)
}

#[test]
fn kernels_are_kept_under_all_of_their_key() {
    let mut cache = OptCacheState::new(None);
    cache.insert(key(1), 10);
    assert_eq!(cache.get(&key(1)), Some(10));
    assert_eq!(cache.get(&key(2)), None);
    let others = [
        optimized_kernel_key(1, &DeviceSpec::WebGpu, "clang", 1, 2),
        optimized_kernel_key(1, &DeviceSpec::Cpu, "llvm", 1, 2),
        optimized_kernel_key(1, &DeviceSpec::Cpu, "clang", 3, 2),
        optimized_kernel_key(1, &DeviceSpec::Cpu, "clang", 1, 3),
    ];
    for other in &others {
        assert_eq!(cache.get(other), None);
        assert!(!same_key(other, &key(1)));
        assert!(same_key(other, &copy_key(other)));
    }
}

#[test]
fn the_oldest_kernel_leaves_a_full_cache() {
    let mut cache = OptCacheState::new(Some("2"));
    cache.insert(key(1), 10);
    cache.insert(key(2), 20);
    cache.insert(key(1), 11);
    assert_eq!((cache.get(&key(1)), cache.get(&key(2))), (Some(11), Some(20)));
    cache.insert(key(3), 30);
    assert_eq!(
        (cache.get(&key(1)), cache.get(&key(2)), cache.get(&key(3))),
        (None, Some(20), Some(30)),
        "inserting again does not make a kernel younger"
    );
    cache.insert(key(1), 12);
    assert_eq!((cache.get(&key(1)), cache.get(&key(2)), cache.get(&key(3))), (Some(12), None, Some(30)));
}

#[test]
fn caps_are_read_from_settings() {
    assert_eq!(DEFAULT_CAP, 4096);
    for (setting, cap) in [(Some("3"), 3), (Some("0"), 4096), (Some("-1"), 4096), (Some("x"), 4096), (None, 4096)] {
        let mut cache = OptCacheState::new(setting);
        for i in 0..cap {
            cache.insert(key(i), i);
        }
        assert_eq!(cache.get(&key(0)), Some(0), "{setting:?}");
        cache.insert(key(cap), cap);
        assert_eq!((cache.get(&key(0)), cache.get(&key(1))), (None, Some(1)), "{setting:?}");
    }
}

#[test]
fn shared_maps_hold_the_last_value() {
    let mut map = SharedMap::new();
    assert_eq!(map.insert(key(1), 5), None);
    assert_eq!(map.insert(key(1), 6), Some(5));
    assert_eq!(map.get(&key(1)), Some(6));
    map.remove(&key(2));
    assert_eq!(map.get(&key(1)), Some(6));
    map.remove(&key(1));
    assert_eq!(map.get(&key(1)), None);
    assert_eq!(map.insert(key(1), 7), None);
}

fn beam_config() -> BeamConfig {
    BeamConfig {
        beam_width: 4,
        max_upcast: 256,
        max_local: 1024,
        max_uops: 3000,
        min_progress_ns: 10,
        enable_nolocals: false,
        compile_timeout_secs: 10,
        num_runs: 3,
        compile_workers: 0,
        max_tasks_per_child: 16,
        disable_cache: false,
    }
}

fn config(strategy: OptStrategy) -> OptimizerConfig {
    OptimizerConfig {
        strategy,
        opts_to_apply: None,
        heuristics: 0,
        beam: beam_config(),
        transcendental: 1,
        disable_fast_idiv: false,
    }
}

fn sink(explicit_opts: bool) -> Graph {
    Graph { nodes: vec![Node { op: Op::Sink { explicit_opts }, srcs: vec![] }] }
}

fn resolved() -> ResolvedDevice {
    ResolvedDevice {
        device: DeviceSpec::Cuda { device_id: 0 },
        compiler_key: "nvptx".to_string(),
        gpu_arch: None,
        target: Some("sm_86".to_string()),
        ops: ops(),
        reported: reported(),
    }
}

fn ops() -> RendererOps {
    RendererOps { unary: vec![0], binary: vec![0, 1], ternary: vec![] }
}

fn reported() -> Reported {
    Reported {
        allow_tf32: false,
        global_max: None,
        global_prod_max: None,
        local_max: Some(512),
        upcast_max: 16,
        buffer_max: None,
        supports_float4: true,
        storage: vec![],
        tensor_cores: vec![],
    }
}

fn item() -> ScheduleItem {
    ScheduleItem {
        kernel_id: 1,
        ast: sink(false),
        buffers: vec![svod_tensor::schedule::Buffer {
            id: 1,
            storage_id: 1,
            offset: 0,
            size: 4,
            dtype: svod_tensor::device::ScalarDType::Int32,
            device: DeviceSpec::Cpu,
        }],
        buffer_uop_ids: vec![1],
        dependencies: vec![],
        instance_dependencies: vec![],
        fixedvars: VarVals::new(),
        loop_var_names: vec![],
        runtime_vars: 0,
        origin: 0,
    }
}

fn site(ast_hash: u64) -> KernelSite {
    KernelSite::resolve(&item(), ast_hash, &resolved(), &config(OptStrategy::Heuristic), 9)
}

#[test]
fn sites_are_resolved_for_their_device() {
    let plain = site(5);
    let target = Some("sm_86".to_string());
    assert_eq!(plain.renderer, get_optimizer_renderer(&resolved().device, None, target, ops(), &reported()));
    assert_eq!(
        plain.key,
        optimized_kernel_key(5, &resolved().device, "nvptx", plain.renderer.cache_fingerprint(), 9)
    );
    assert_eq!(plain.codegen(), "nvptx");
    assert!(plain.buffers.is_empty(), "nothing is timed");
    let beam = KernelSite::resolve(&item(), 5, &resolved(), &config(OptStrategy::Beam { width: 2 }), 9);
    assert_eq!(beam.buffers, item().buffers);
}

#[test]
fn given_optimizations_replace_the_search() {
    let beam = config(OptStrategy::Beam { width: 2 });
    assert!(KernelSite::searches(&sink(false), &beam));
    assert!(!KernelSite::searches(&sink(true), &beam));
    assert!(!KernelSite::searches(&sink(false), &config(OptStrategy::Heuristic)));
    let given = OptimizerConfig { opts_to_apply: Some(vec![]), ..config(OptStrategy::Beam { width: 2 }) };
    assert!(!KernelSite::searches(&sink(false), &given));
    assert_eq!((compile_threads(&beam, 8), compile_threads(&config(OptStrategy::Heuristic), 8)), (1, 8));
}

#[test]
fn each_missing_kernel_is_compiled_once() {
    let mut cache = OptCacheState::new(None);
    assert_eq!(site(2).compile(Ok(20), &mut cache), Ok(20));
    assert_eq!(site(2).cached(&cache), Some(20));
    let sites = vec![Some(site(1)), None, Some(site(2)), Some(site(1)), Some(site(3)), Some(site(4))];
    assert_eq!(missing_sites(&sites, &cache, &vec![]), vec![0, 4, 5]);
    assert_eq!(missing_sites(&sites, &cache, &vec![copy_key(&site(3).key)]), vec![0, 5]);
    assert_eq!(missing_sites(&vec![], &cache, &vec![]), Vec::<usize>::new());
    let failed = site(7).compile(Err(Error::NoKernelsFound), &mut cache);
    assert_eq!(failed, Err(Error::NoKernelsFound));
    assert_eq!(site(7).cached(&cache), None);
}

#[test]
fn failed_kernels_leave_the_others_their_order() {
    let fail = |stage: &str| Error::Stage { stage: stage.to_string(), message: String::new() };
    let (named, failed) = part_optimized(vec![Ok(7), Err(fail("first")), Ok(9), Err(fail("second"))]);
    assert_eq!(named, vec![(0, 7), (2, 9)]);
    assert_eq!(failed, Some(fail("first")));
    assert_eq!(part_optimized(vec![]), (vec![], None));
}

#[test]
fn a_retry_finds_what_was_compiled() {
    let fail = |stage: &str| Error::Stage { stage: stage.to_string(), message: String::new() };
    let keys = vec![key(1), key(2), key(3)];
    let mut cache = OptCacheState::new(None);
    let batch = compile_missing_kernels(&keys, vec![Ok(10), Err(fail("a")), Ok(30)], None, &mut cache);
    assert_eq!(batch, Err(fail("a")));
    assert_eq!((cache.get(&key(1)), cache.get(&key(2)), cache.get(&key(3))), (Some(10), None, Some(30)));

    let unoptimized =
        compile_missing_kernels(&vec![key(4)], vec![Err(fail("a"))], Some(fail("optimize")), &mut cache);
    assert_eq!(unoptimized, Err(fail("optimize")), "a failure to optimize comes first");

    let all = compile_missing_kernels(&vec![key(5), key(6)], vec![Ok(50), Ok(60)], None, &mut cache);
    assert_eq!(all, Ok(vec![(key(5), 50), (key(6), 60)]));
    assert_eq!((cache.get(&key(5)), cache.get(&key(6))), (Some(50), Some(60)));
}

#[test]
fn settings_tell_kernels_apart() {
    let base = || config(OptStrategy::Beam { width: 4 });
    let fingerprint = optimizer_config_fingerprint(&base());
    assert_eq!(fingerprint, optimizer_config_fingerprint(&base()));
    for other in [
        config(OptStrategy::Heuristic),
        config(OptStrategy::Beam { width: 5 }),
        OptimizerConfig { transcendental: 2, ..base() },
        OptimizerConfig { disable_fast_idiv: true, ..base() },
        OptimizerConfig { heuristics: 1, ..base() },
        OptimizerConfig { beam: BeamConfig { compile_workers: 1, ..beam_config() }, ..base() },
        OptimizerConfig { beam: BeamConfig { max_tasks_per_child: 1, ..beam_config() }, ..base() },
        OptimizerConfig { beam: BeamConfig { disable_cache: true, ..beam_config() }, ..base() },
        OptimizerConfig { opts_to_apply: Some(vec![]), ..base() },
        OptimizerConfig { opts_to_apply: Some(vec![Opt::nolocals()]), ..base() },
        OptimizerConfig { beam: BeamConfig { max_upcast: 2, ..beam_config() }, ..base() },
    ] {
        assert_ne!(optimizer_config_fingerprint(&other), fingerprint);
    }
    assert_ne!(post_optimizer_behavior_fingerprint(0, false), post_optimizer_behavior_fingerprint(0, true));
    assert_ne!(post_optimizer_behavior_fingerprint(0, false), post_optimizer_behavior_fingerprint(-1, false));
}

#[test]
fn behavior_is_fingerprinted_as_std_hashes_it() {
    for (transcendental, disable_fast_idiv) in [(0, false), (2, true), (-1, false), (i32::MIN, true), (65537, true)] {
        let mut hasher = DefaultHasher::new();
        transcendental.hash(&mut hasher);
        disable_fast_idiv.hash(&mut hasher);
        assert_eq!(post_optimizer_behavior_fingerprint(transcendental, disable_fast_idiv), hasher.finish());
    }
}

#[test]
fn search_keys_ignore_how_candidates_are_compiled() {
    let words = beam_config().behavior_words();
    for same in [
        BeamConfig { compile_workers: 9, ..beam_config() },
        BeamConfig { max_tasks_per_child: 1, ..beam_config() },
        BeamConfig { disable_cache: true, ..beam_config() },
    ] {
        assert_eq!(same.behavior_words(), words);
    }
    for other in [
        BeamConfig { beam_width: 5, ..beam_config() },
        BeamConfig { max_upcast: 1, ..beam_config() },
        BeamConfig { max_local: 1, ..beam_config() },
        BeamConfig { max_uops: 1, ..beam_config() },
        BeamConfig { min_progress_ns: 1, ..beam_config() },
        BeamConfig { enable_nolocals: true, ..beam_config() },
    ] {
        assert_ne!(other.behavior_words(), words);
    }
}

#[test]
fn workers_follow_the_setting_then_the_configuration() {
    let cuda = DeviceSpec::Cuda { device_id: 0 };
    assert_eq!(resolve_compile_workers(0, &cuda, 8, None), 8);
    assert_eq!(resolve_compile_workers(3, &cuda, 8, None), 3);
    assert_eq!(resolve_compile_workers(3, &cuda, 8, Some("5")), 5);
    assert_eq!(resolve_compile_workers(3, &cuda, 8, Some("0")), 0);
    assert_eq!(resolve_compile_workers(3, &cuda, 8, Some("many")), 3);
    assert_eq!(resolve_compile_workers(0, &DeviceSpec::Cpu, 8, None), 0);
    assert_eq!(resolve_compile_workers(0, &DeviceSpec::Metal { device_id: 0 }, 2, None), 2);
    assert_eq!(resolve_compile_workers(0, &DeviceSpec::Amd { device_id: 0 }, 2, Some("")), 2);
}

fn artifact(bytes: Vec<u8>) -> WorkerArtifact {
    WorkerArtifact {
        source: "B\u{e9}".to_string(),
        bytes,
        identity: BinaryStageIdentity { source: 1, binary: 2 },
        name: "k".to_string(),
        abi: vec![],
        global_size: [4, 5, 6],
        local_size: Some([1, 2, 3]),
        vals: vec![9],
        compute_ops: 11,
        preparation_ns: 12,
        compilation_ns: 13,
    }
}

#[test]
fn binaries_are_told_apart() {
    assert_eq!(binary_key(&vec![1, 2], "src"), vec![b'B', 1, 2]);
    assert_eq!(binary_key(&vec![], "B\u{e9}"), vec![b'S', b'B', 0xc3, 0xa9]);
    assert_eq!(binary_key(&vec![], ""), vec![b'S']);
    assert_ne!(binary_key(&vec![b'x'], ""), binary_key(&vec![], "x"));
}

#[test]
fn answers_become_candidates() {
    let candidates = vec![vec![Opt::nolocals()], vec![Opt::upcast(0, 4), Opt::unroll(1, 2)]];
    let response = WorkerResponse { index: 1, result: Some(artifact(vec![])), error: None };
    let (index, found) = accepted(response).unwrap();
    let candidate = compiled_candidate(&candidates, index, found, 42);
    assert_eq!((candidate.program, &candidate.opts), (42, &candidates[1]));
    assert_eq!(candidate.binary_key, vec![b'S', b'B', 0xc3, 0xa9]);
    assert_eq!((candidate.global_size, candidate.local_size), ([4, 5, 6], Some([1, 2, 3])));
    assert_eq!((candidate.vals, candidate.compute_ops), (vec![9], 11));
    assert_eq!((candidate.preparation_ns, candidate.compilation_ns), (12, 13));
    let error = Some("too slow".to_string());
    assert_eq!(accepted(WorkerResponse { index: 1, result: None, error }), None);
}

#[test]
fn timed_launches_are_shrunk_from_the_last_axis() {
    assert_eq!(MAX_TEST_GLOBAL_SIZE, 65536);
    assert_eq!(shrink_global_size([1024, 64, 1]), [1024, 64, 1]);
    assert_eq!(shrink_global_size([1024, 64, 2]), [1024, 32, 2]);
    assert_eq!(shrink_global_size([1 << 20, 16, 16]), [256, 16, 16]);
    assert_eq!(shrink_global_size([3, 33, 1 << 12]), [3, 33, 512]);
    assert_eq!(shrink_global_size([0, 1 << 30, 1 << 30]), [0, 1 << 30, 1 << 30]);
    let mut expected = [1000usize, 1000, 1000];
    while expected.iter().product::<usize>() > MAX_TEST_GLOBAL_SIZE {
        let axis = (0..3).rev().find(|&axis| expected[axis] > 16).unwrap();
        expected[axis] /= 2;
    }
    assert_eq!(shrink_global_size([1000, 1000, 1000]), expected);
}

fn job(buffers: usize, workers: usize) -> SearchJob {
    SearchJob {
        resolved: resolved(),
        renderer: Renderer::cuda(&reported()),
        buffers,
        config: config(OptStrategy::Beam { width: 4 }),
        workers,
        log_surpass: true,
    }
}

#[test]
fn a_search_goes_through_its_stages() {
    let job = job(2, 0);
    let (state, action) = beam_search_optimize(&job, SearchState::Encoding, SearchEvent::Encoded(Ok(sink(false))));
    assert_eq!(action, SearchAction::Prepare);
    let (state, action) = beam_search_optimize(&job, state.unwrap(), SearchEvent::Prepared(Ok(3)));
    assert_eq!(action, SearchAction::Allocate { index: 0 });
    let (state, action) = beam_search_optimize(&job, state.unwrap(), SearchEvent::Allocated(Ok(())));
    assert_eq!(action, SearchAction::Allocate { index: 1 });
    let (state, action) = beam_search_optimize(&job, state.unwrap(), SearchEvent::Allocated(Ok(())));
    let SearchAction::Start { init, workers } = action else { panic!("every buffer is allocated") };
    assert_eq!((workers, init.base_opt_count, init.beam.compile_workers), (1, 3, 0));
    assert_eq!(init.graph, sink(false));
    assert_eq!(init.protocol_version, BEAM_WORKER_PROTOCOL_VERSION);
    assert_eq!(init.renderer_fingerprint, Renderer::cuda(&reported()).cache_fingerprint());
    let (state, action) = beam_search_optimize(&job, state.unwrap(), SearchEvent::Started(Ok(())));
    let behavior_fingerprint = post_optimizer_behavior_fingerprint(1, false);
    assert_eq!(action, SearchAction::Search { behavior_fingerprint });
    let (state, action) = beam_search_optimize(&job, state.unwrap(), SearchEvent::Found(Ok(())));
    assert_eq!(action, SearchAction::Finish);
    let (state, action) = beam_search_optimize(&job, state.unwrap(), SearchEvent::Finished(Ok(8)));
    assert_eq!((state, action), (None, SearchAction::Done(Ok(8))));
}

#[test]
fn a_search_ends_at_the_first_failure() {
    let why = || "why".to_string();
    let fail = |stage: &str, message: String| {
        (None, SearchAction::Done(Err(Error::Stage { stage: stage.to_string(), message })))
    };
    let lost = BeamWorker::HelperUnavailable { reason: why() };
    let text = lost.to_string();
    let allocating = SearchState::Allocating { graph: sink(false), base_opt_count: 0, next: 0 };
    for (state, event, end) in [
        (SearchState::Encoding, SearchEvent::Encoded(Err(why())), fail("graph", why())),
        (SearchState::Preparing { graph: sink(false) }, SearchEvent::Prepared(Err(why())), fail("optimize", why())),
        (allocating, SearchEvent::Allocated(Err(why())), fail("device", why())),
        (SearchState::Starting, SearchEvent::Started(Err(lost)), fail("device", text)),
        (SearchState::Searching, SearchEvent::Found(Err(why())), fail("optimize", why())),
        (SearchState::Finishing, SearchEvent::Finished(Err(why())), fail("optimize", why())),
    ] {
        assert_eq!(beam_search_optimize(&job(1, 4), state, event), end);
    }
    let (_, action) = beam_search_optimize(
        &job(0, 4),
        SearchState::Preparing { graph: sink(false) },
        SearchEvent::Prepared(Ok(0)),
    );
    assert!(matches!(action, SearchAction::Start { workers: 4, .. }), "there is nothing to allocate");
}

#[test]
fn kernels_are_compiled_in_schedule_order() {
    let cache = OptCacheState::new(None);
    let sites = || vec![Some(site(9)), Some(site(2)), None, Some(site(9)), Some(site(5))];
    assert_eq!(missing_sites(&sites(), &cache, &vec![]), missing_sites(&sites(), &cache, &vec![]));
    assert_eq!(missing_sites(&sites(), &cache, &vec![]), vec![0, 1, 4]);
    let (kept, failed) = part_optimized(vec![Ok(90), Ok(20), Ok(50)]);
    assert_eq!((kept, failed), (vec![(0, 90), (1, 20), (2, 50)], None), "names are drawn in this order");
}

#[test]
fn a_retry_finds_a_batch_in_a_full_cache() {
    let fail = || Error::Stage { stage: "a".to_string(), message: String::new() };
    let mut cache = OptCacheState::new(Some("3"));
    for old in 1..4 {
        cache.insert(key(old), old);
    }
    let keys = vec![key(11), key(12), key(13)];
    let batch = compile_missing_kernels(&keys, vec![Ok(110), Err(fail()), Ok(130)], None, &mut cache);
    assert_eq!(batch, Err(fail()));
    assert_eq!((cache.get(&key(11)), cache.get(&key(12)), cache.get(&key(13))), (Some(110), None, Some(130)));
    assert_eq!((cache.get(&key(1)), cache.get(&key(2)), cache.get(&key(3))), (None, None, Some(3)));
}

#[test]
fn missing_kernels_are_optimized_named_and_compiled() {
    let fail = |stage: &str| Error::Stage { stage: stage.to_string(), message: String::new() };
    let mut cache = OptCacheState::new(None);
    cache.insert(copy_key(&site(2).key), 20);
    let sites = vec![Some(site(1)), None, Some(site(2)), Some(site(1)), Some(site(3)), Some(site(4))];
    let heuristic = config(OptStrategy::Heuristic);
    let mut step =
        |state, event| build_missing(&sites, &vec![], &heuristic, 8, state, event, &mut cache);
    let (state, action) = step(BuildState::Starting, BuildEvent::Begin);
    assert_eq!(action, BuildAction::Optimize { sites: vec![0, 4, 5], threads: 8 });
    let optimized = vec![Ok(100), Err(fail("optimize")), Ok(400)];
    let (state, action) = step(state.unwrap(), BuildEvent::Optimized(optimized));
    assert_eq!(action, BuildAction::Name { kernel: 100 }, "names are drawn in schedule order");
    let (state, action) = step(state.unwrap(), BuildEvent::Named(101));
    assert_eq!(action, BuildAction::Name { kernel: 400 });
    let (state, action) = step(state.unwrap(), BuildEvent::Named(401));
    assert_eq!(action, BuildAction::Compile { kernels: vec![(0, 101), (5, 401)], threads: 8 });
    let (state, action) = step(state.unwrap(), BuildEvent::Compiled(vec![Ok(102), Ok(402)]));
    assert_eq!((state, action), (None, BuildAction::Done(Err(fail("optimize")))));
    assert_eq!((site(1).cached(&cache), site(3).cached(&cache), site(4).cached(&cache)), (Some(102), None, Some(402)));

    let mut retry =
        |state, event| build_missing(&sites, &vec![], &config(OptStrategy::Beam { width: 2 }), 8, state, event, &mut cache);
    let (state, action) = retry(BuildState::Starting, BuildEvent::Begin);
    assert_eq!(action, BuildAction::Optimize { sites: vec![4], threads: 1 }, "a search has processes of its own");
    let (state, _) = retry(state.unwrap(), BuildEvent::Optimized(vec![Ok(300)]));
    let (state, _) = retry(state.unwrap(), BuildEvent::Named(301));
    let (state, action) = retry(state.unwrap(), BuildEvent::Compiled(vec![Ok(302)]));
    assert_eq!((state, action), (None, BuildAction::Done(Ok(vec![(copy_key(&site(3).key), 302)]))));
    assert_eq!(retry(BuildState::Starting, BuildEvent::Begin), (None, BuildAction::Done(Ok(vec![]))));
}

#[test]
fn nothing_is_compiled_where_nothing_was_optimized() {
    let fail = || Error::Stage { stage: "optimize".to_string(), message: String::new() };
    let mut cache = OptCacheState::new(None);
    let sites = vec![Some(site(1))];
    let heuristic = config(OptStrategy::Heuristic);
    let mut step = |state, event| build_missing(&sites, &vec![], &heuristic, 2, state, event, &mut cache);
    let (state, _) = step(BuildState::Starting, BuildEvent::Begin);
    let (state, action) = step(state.unwrap(), BuildEvent::Optimized(vec![Err(fail())]));
    assert_eq!(action, BuildAction::Compile { kernels: vec![], threads: 2 });
    let (_, action) = step(state.unwrap(), BuildEvent::Compiled(vec![]));
    assert_eq!(action, BuildAction::Done(Err(fail())));
}

#[test]
fn sites_launch_what_their_batch_compiled() {
    let mut cache = OptCacheState::new(None);
    cache.insert(copy_key(&site(1).key), 10);
    cache.insert(copy_key(&site(2).key), 20);
    let compiled = vec![(copy_key(&site(3).key), 30), (copy_key(&site(1).key), 11)];
    assert_eq!(site(1).kernel(&compiled, &cache), Some(11));
    assert_eq!(site(2).kernel(&compiled, &cache), Some(20), "someone else compiled it");
    assert_eq!(site(3).kernel(&compiled, &cache), Some(30));
    assert_eq!(site(4).kernel(&compiled, &cache), None);
}
