use std::collections::HashMap;

use svod_tensor::device::{DeviceSpec, ScalarDType};
use svod_tensor::error::Error;
use svod_tensor::graph::{
    extract_var_vals, prune, runtime_effect_ast, sink_of, AddrSpace, BufferArg, Graph, Node, Op, ParamArg,
};
use svod_tensor::pre_schedule::{
    build_schedule_input_buffers, resolve_codegen, restore_post_schedule_pre_schedule, schedule_request,
    schedule_result_from_sink_with_cache, PreSchedule, PreScheduleItem, ScheduleCache, ScheduleStep,
};
use svod_tensor::schedule_cache::{
    normalize_for_schedule_cache, restore_post_schedule_cache, ScheduleCacheNormalization,
};
use svod_tensor::vars::{
    insert_var_val_checked, merge_var_vals_checked, str_eq, try_bind_var_val, VarVals,
};

fn node(op: Op, srcs: &[usize]) -> Node {
    Node { op, srcs: srcs.to_vec() }
}

fn run_buffer(id: u64) -> BufferArg {
    BufferArg {
        id,
        slot: id,
        dtype: ScalarDType::Float32,
        addrspace: Some(AddrSpace::Global),
        device: Some(DeviceSpec::Cpu),
        size: Some(16),
        schedule_local: false,
    }
}

fn buffer(id: u64) -> Op {
    Op::Buffer { arg: run_buffer(id) }
}

fn define(name: &str) -> Op {
    Op::DefineVar { name: name.to_string(), min: 1, max: 32 }
}

fn constant(value: i64) -> Op {
    Op::Const { value: Some(value), bits: value as u64 }
}

fn cache_param(slot: u64) -> Op {
    Op::Param {
        arg: ParamArg {
            slot,
            dtype: ScalarDType::Float32,
            addrspace: Some(AddrSpace::Global),
            device: Some(DeviceSpec::Cpu),
            size: Some(16),
            name: None,
            bounds: None,
            schedule_cache: true,
        },
    }
}

fn add() -> Op {
    Op::Other { code: 9 }
}

/// `a[first] + b[second] + a[first]`, with `N` bound to `value`.
fn computation(first: u64, second: u64, unique: u64, value: i64) -> Graph {
    Graph {
        nodes: vec![
            node(buffer(first), &[]),
            node(buffer(second), &[]),
            node(define("N"), &[]),
            node(constant(value), &[]),
            node(Op::Bind, &[2, 3]),
            node(Op::Unique { id: unique }, &[]),
            node(add(), &[0, 1, 4, 5, 0]),
            node(Op::Contiguous, &[6]),
            node(Op::Sink { explicit_opts: false }, &[7]),
        ],
    }
}

fn vars(pairs: &[(&str, i64)]) -> VarVals {
    let mut vars = VarVals::new();
    for (name, value) in pairs {
        vars.set(name, *value);
    }
    vars
}

#[test]
fn variables_are_bound_once() {
    let mut bound = VarVals::new();
    assert_eq!(try_bind_var_val(&mut bound, "N", 4), Ok(()));
    assert_eq!(try_bind_var_val(&mut bound, "N", 4), Ok(()));
    assert_eq!(try_bind_var_val(&mut bound, "N", 5), Err((4, 5)));
    assert_eq!((bound.get("N"), bound.get("M")), (Some(4), None));
    assert_eq!(insert_var_val_checked(&mut bound, "M", -1, "here"), Ok(()));
    assert_eq!(
        insert_var_val_checked(&mut bound, "M", 2, "here"),
        Err(Error::IrConstruction { details: "bind mismatch on M, -1 != 2 (here)".to_string() })
    );
    assert_eq!(bound, vars(&[("N", 4), ("M", -1)]));
}

#[test]
fn variables_merge_where_they_agree() {
    let mut into = vars(&[("N", 4)]);
    assert_eq!(merge_var_vals_checked(&mut into, &vars(&[("M", 1), ("N", 4)]), "there"), Ok(()));
    assert_eq!((into.get("N"), into.get("M")), (Some(4), Some(1)));
    assert_eq!(
        merge_var_vals_checked(&mut into, &vars(&[("M", 3)]), "there"),
        Err(Error::IrConstruction { details: "bind mismatch on M, 1 != 3 (there)".to_string() })
    );
    into.set("N", 9);
    assert_eq!(into.get("N"), Some(9));
    assert_eq!(into.copy(), into);
}

#[test]
fn texts_are_compared_whole() {
    assert!(str_eq("", ""));
    assert!(str_eq("core_id", "core_id"));
    assert!(!str_eq("core_id", "core_i"));
    assert!(!str_eq("a", "b"));
}

#[test]
fn bound_variables_are_extracted() {
    assert_eq!(extract_var_vals(&computation(1, 2, 3, 4)), Ok(vars(&[("N", 4)])));
    let clash = Graph {
        nodes: vec![
            node(define("N"), &[]),
            node(constant(1), &[]),
            node(constant(2), &[]),
            node(Op::Bind, &[0, 1]),
            node(Op::Bind, &[0, 2]),
            node(add(), &[3, 4]),
        ],
    };
    assert_eq!(
        extract_var_vals(&clash),
        Err(Error::IrConstruction { details: "bind mismatch on N, 1 != 2 (bind extraction)".to_string() })
    );
    let unbound = Graph {
        nodes: vec![
            node(define("N"), &[]),
            node(Op::Const { value: None, bits: 5 }, &[]),
            node(Op::Bind, &[0, 1]),
            node(buffer(1), &[]),
            node(constant(3), &[]),
            node(Op::Bind, &[3, 4]),
            node(add(), &[2, 5]),
        ],
    };
    assert_eq!(extract_var_vals(&unbound), Ok(VarVals::new()), "neither an integer nor a variable");
}

#[test]
fn effects_are_looked_for_under_an_end() {
    let copy = |root: Op| Graph { nodes: vec![node(buffer(1), &[]), node(Op::Copy, &[0]), node(root, &[1])] };
    assert_eq!(runtime_effect_ast(&copy(Op::End)), 1);
    assert_eq!(runtime_effect_ast(&copy(Op::Contiguous)), 2);
    let plain = Graph { nodes: vec![node(buffer(1), &[]), node(Op::End, &[0])] };
    assert_eq!(runtime_effect_ast(&plain), 1);
}

#[test]
fn unreachable_nodes_are_pruned() {
    let nodes = vec![
        node(buffer(1), &[]),
        node(buffer(2), &[]),
        node(add(), &[0]),
        node(add(), &[1, 1]),
    ];
    let pruned = prune(nodes);
    assert_eq!(pruned, Graph { nodes: vec![node(buffer(2), &[]), node(add(), &[0, 0])] });
}

#[test]
fn sinks_join_graphs() {
    let a = Graph { nodes: vec![node(buffer(1), &[])] };
    let b = Graph { nodes: vec![node(buffer(2), &[]), node(add(), &[0, 0])] };
    let sink = sink_of(&vec![a.copy(), b.copy()]);
    assert_eq!(sink.nodes.len(), 6);
    let root = &sink.nodes[5];
    assert_eq!(root.op, Op::Sink { explicit_opts: false });
    for &src in &root.srcs {
        assert_eq!(sink.nodes[src].op, Op::Contiguous);
    }
    assert_eq!(sink.nodes[sink.nodes[root.srcs[0]].srcs[0]].op, buffer(1));
    assert_eq!(sink.nodes[sink.nodes[root.srcs[1]].srcs[0]].op, add());
    assert_eq!(Graph::buffer(run_buffer(1)), a);
    assert_eq!(a.wrap(Op::Reshape), Graph { nodes: vec![node(buffer(1), &[]), node(Op::Reshape, &[0])] });
}

#[test]
fn normal_forms_ignore_buffers_identities_and_values() {
    let one = normalize_for_schedule_cache(&computation(11, 22, 33, 4)).unwrap();
    let other = normalize_for_schedule_cache(&computation(7, 5, 3, 9)).unwrap();
    assert_eq!(one.normalized, other.normalized);
    assert_eq!(one.param_values, vec![run_buffer(11), run_buffer(22)]);
    assert_eq!(other.param_values, vec![run_buffer(7), run_buffer(5)]);
    assert_eq!(other.param_buffers, vec![(5, run_buffer(5)), (7, run_buffer(7))], "by ascending id");
    assert_eq!((one.unique_values, other.unique_values), (vec![33], vec![3]));
    assert_eq!((one.var_vals, other.var_vals), (vars(&[("N", 4)]), vars(&[("N", 9)])));
    assert_eq!(
        one.normalized,
        Graph {
            nodes: vec![
                node(cache_param(0), &[]),
                node(cache_param(1), &[]),
                node(define("N"), &[]),
                node(Op::LUnique { slot: 0 }, &[]),
                node(add(), &[0, 1, 2, 3, 0]),
                node(Op::Contiguous, &[4]),
                node(Op::Sink { explicit_opts: false }, &[5]),
            ],
        }
    );
    let crossed = normalize_for_schedule_cache(&computation(7, 7, 3, 9)).unwrap();
    assert_ne!(crossed.normalized, other.normalized, "one buffer twice is another computation");
}

#[test]
fn slots_follow_the_computation_and_not_its_list() {
    let listed = |first: u64, second: u64, order: [usize; 2]| Graph {
        nodes: vec![
            node(buffer(first), &[]),
            node(buffer(second), &[]),
            node(Op::Contiguous, &[order[1]]),
            node(add(), &[order[0], 2]),
        ],
    };
    let one = normalize_for_schedule_cache(&listed(11, 22, [0, 1])).unwrap();
    let other = normalize_for_schedule_cache(&listed(5, 7, [1, 0])).unwrap();
    assert_eq!(one.param_values, vec![run_buffer(11), run_buffer(22)]);
    assert_eq!(other.param_values, vec![run_buffer(7), run_buffer(5)], "the first source comes first");
    assert_eq!(one.normalized.nodes[0], node(cache_param(0), &[]));
    assert_eq!(other.normalized.nodes[0], node(cache_param(1), &[]));
    let shared = Graph {
        nodes: vec![
            node(Op::Unique { id: 9 }, &[]),
            node(buffer(3), &[]),
            node(Op::Unique { id: 8 }, &[]),
            node(buffer(4), &[]),
            node(add(), &[3, 2, 3]),
            node(add(), &[4, 1, 0, 4]),
        ],
    };
    let normalization = normalize_for_schedule_cache(&shared).unwrap();
    assert_eq!(normalization.param_values, vec![run_buffer(4), run_buffer(3)]);
    assert_eq!(normalization.param_buffers, vec![(3, run_buffer(3)), (4, run_buffer(4))]);
    assert_eq!(normalization.unique_values, vec![8, 9]);
    let chain = |count: usize| Graph {
        nodes: (0..count)
            .map(|i| if i == 0 { node(buffer(1), &[]) } else { node(add(), &[i - 1, i - 1]) })
            .collect(),
    };
    let deep = normalize_for_schedule_cache(&chain(200)).unwrap();
    assert_eq!(deep.param_values, vec![run_buffer(1)], "each node is walked once");
}

#[test]
fn restoring_undoes_normalizing_but_for_values() {
    let normalization = normalize_for_schedule_cache(&computation(11, 22, 33, 4)).unwrap();
    let mut next_id = 1000;
    let restored = restore_post_schedule_cache(&normalization.normalized, &normalization, &mut next_id);
    assert_eq!(next_id, 1000, "nothing is allocated");
    assert_eq!(
        restored,
        Graph {
            nodes: vec![
                node(buffer(11), &[]),
                node(buffer(22), &[]),
                node(define("N"), &[]),
                node(Op::Unique { id: 33 }, &[]),
                node(add(), &[0, 1, 2, 3, 0]),
                node(Op::Contiguous, &[4]),
                node(Op::Sink { explicit_opts: false }, &[5]),
            ],
        }
    );
}

#[test]
fn kernel_storage_is_not_a_parameter() {
    let local = BufferArg { addrspace: Some(AddrSpace::Local), ..run_buffer(4) };
    let unsized_buffer = BufferArg { size: None, ..run_buffer(5) };
    let graph = Graph {
        nodes: vec![
            node(Op::Buffer { arg: local.copy() }, &[]),
            node(Op::Buffer { arg: unsized_buffer.copy() }, &[]),
            node(add(), &[0, 1]),
        ],
    };
    let normalization = normalize_for_schedule_cache(&graph).unwrap();
    assert_eq!(normalization.normalized, graph);
    assert!(normalization.param_values.is_empty() && normalization.param_buffers.is_empty());
}

#[test]
fn values_that_clash_cannot_be_normalized() {
    let clash = Graph {
        nodes: vec![
            node(define("N"), &[]),
            node(constant(1), &[]),
            node(constant(-2), &[]),
            node(Op::Bind, &[0, 1]),
            node(Op::Bind, &[0, 2]),
            node(add(), &[3, 4]),
        ],
    };
    assert_eq!(
        normalize_for_schedule_cache(&clash).unwrap_err(),
        Error::IrConstruction { details: "bind mismatch on variable N: 1 vs -2".to_string() }
    );
}

fn schedule_buffer(id: u64, slot: u64) -> Op {
    Op::Buffer { arg: BufferArg { slot, schedule_local: true, ..run_buffer(id) } }
}

#[test]
fn schedule_buffers_are_allocated_anew_once_for_each_slot() {
    let normalization = normalize_for_schedule_cache(&computation(11, 22, 33, 4)).unwrap();
    let cached = Graph {
        nodes: vec![
            node(schedule_buffer(1, 5), &[]),
            node(schedule_buffer(2, 6), &[]),
            node(schedule_buffer(3, 5), &[]),
            node(cache_param(1), &[]),
            node(cache_param(2), &[]),
            node(Op::LUnique { slot: 8 }, &[]),
            node(Op::LUnique { slot: 8 }, &[]),
            node(add(), &[0, 1, 2, 3, 4, 5, 6]),
        ],
    };
    let mut next_id = 100;
    let restored = restore_post_schedule_cache(&cached, &normalization, &mut next_id);
    let ops: Vec<&Op> = restored.nodes.iter().map(|node| &node.op).collect();
    assert_eq!(next_id, 103);
    assert_eq!(ops[0], &buffer(100));
    assert_eq!(ops[1], &buffer(101));
    assert_eq!(ops[2], &buffer(100));
    assert_eq!(ops[3], &buffer(22));
    assert_eq!(ops[4], &cache_param(2), "there is no such slot");
    assert_eq!(ops[5], &Op::Unique { id: 102 });
    assert_eq!(ops[6], &Op::Unique { id: 102 });
    assert_eq!(restored.nodes[7].srcs, vec![0, 1, 2, 3, 4, 5, 6]);
}

#[test]
fn schedule_buffers_without_a_device_stay() {
    let normalization = normalize_for_schedule_cache(&computation(11, 22, 33, 4)).unwrap();
    let homeless = Op::Buffer { arg: BufferArg { device: None, schedule_local: true, ..run_buffer(1) } };
    let cached = Graph { nodes: vec![node(homeless.copy(), &[])] };
    let mut next_id = 100;
    assert_eq!(restore_post_schedule_cache(&cached, &normalization, &mut next_id), cached);
    assert_eq!(next_id, 100);
}

fn pre_schedule() -> PreSchedule {
    PreSchedule {
        graph: Graph {
            nodes: vec![
                node(cache_param(0), &[]),
                node(schedule_buffer(2, 6), &[]),
                node(cache_param(1), &[]),
                node(Op::Sink { explicit_opts: false }, &[0, 1, 2]),
            ],
        },
        items: vec![PreScheduleItem {
            kernel: 1,
            ast: 2,
            sources: vec![0, 1],
            dependencies: vec![3],
            bound_ranges: vec![4],
        }],
        invocations: vec![5],
        output_buffers: vec![2],
    }
}

#[test]
fn cached_schedules_become_the_runs() {
    let normalization = normalize_for_schedule_cache(&computation(11, 22, 33, 4)).unwrap();
    let mut next_id = 50;
    let restored = restore_post_schedule_pre_schedule(&pre_schedule(), &normalization, &mut next_id);
    let ops: Vec<&Op> = restored.graph.nodes.iter().map(|node| &node.op).collect();
    assert_eq!((ops[0], ops[1], ops[2]), (&buffer(11), &buffer(50), &buffer(22)));
    assert_eq!(restored.items, pre_schedule().items);
    assert_eq!((restored.invocations, restored.output_buffers), (vec![5], vec![2]));
    assert_eq!(next_id, 51);

    let empty = PreSchedule { items: vec![], output_buffers: vec![], ..pre_schedule() };
    let kept = restore_post_schedule_pre_schedule(&empty, &normalization, &mut next_id);
    assert_eq!((kept, next_id), (empty, 51));
}

#[test]
fn registered_buffers_of_sources_are_inputs() {
    let normalization = normalize_for_schedule_cache(&computation(11, 22, 33, 4)).unwrap();
    let restored = restore_post_schedule_pre_schedule(&pre_schedule(), &normalization, &mut 50);
    let registered = HashMap::from([(11, 1), (22, 2), (99, 3)]);
    assert_eq!(
        build_schedule_input_buffers(&restored, &registered),
        HashMap::from([(11, 1)]),
        "22 is an output and no source, 50 is not registered"
    );
}

#[test]
fn requests_join_the_callers_values() {
    let graph = computation(11, 22, 33, 4);
    let request = schedule_request(&graph, vars(&[("M", 1)]), true).unwrap();
    assert_eq!((request.var_vals.get("N"), request.var_vals.get("M")), (Some(4), Some(1)));
    assert_eq!(request.normalization, normalize_for_schedule_cache(&graph).unwrap());
    for (cached, context) in
        [(true, "schedule cache normalization"), (false, "uncached schedule normalization")]
    {
        let details = format!("bind mismatch on N, 5 != 4 ({context})");
        assert_eq!(
            schedule_request(&graph, vars(&[("N", 5)]), cached).unwrap_err(),
            Error::IrConstruction { details }
        );
    }
}

#[test]
fn code_is_generated_for_the_first_computing_device() {
    let on = |id, device| (id, BufferArg { device, ..run_buffer(id) });
    let disk = || DeviceSpec::Disk { path: "w".to_string() };
    let cuda = || DeviceSpec::Cuda { device_id: 0 };
    let params = vec![on(1, Some(disk())), on(2, None), on(3, Some(cuda()))];
    assert_eq!(resolve_codegen(&params, &HashMap::new(), &DeviceSpec::Cpu), cuda());
    let registry = HashMap::from([(1, disk()), (2, DeviceSpec::WebGpu), (3, DeviceSpec::Cpu)]);
    assert_eq!(resolve_codegen(&params, &registry, &DeviceSpec::Cpu), DeviceSpec::WebGpu);
    assert_eq!(resolve_codegen(&vec![on(1, Some(disk()))], &HashMap::new(), &cuda()), cuda());
    assert_eq!(resolve_codegen(&vec![], &HashMap::new(), &cuda()), cuda());
}

#[test]
fn schedules_are_kept_by_form_and_compiler() {
    let mut cache = ScheduleCache::new();
    assert_eq!(cache.get(1, "clang"), None);
    cache.insert(1, "clang", 7);
    cache.insert(1, "llvm", 8);
    assert_eq!((cache.get(1, "clang"), cache.get(1, "llvm"), cache.get(2, "clang")), (Some(7), Some(8), None));
    cache.insert(1, "clang", 9);
    assert_eq!(cache.get(1, "clang"), Some(9));
}

#[test]
fn schedules_are_made_once() {
    let mut cache = ScheduleCache::new();
    let mut step = |cached, created| schedule_result_from_sink_with_cache(&mut cache, cached, 5, "clang", created);
    assert_eq!(step(true, None), ScheduleStep::Create);
    assert_eq!(step(true, Some(Err(Error::NoKernelsFound))), ScheduleStep::Fail(Error::NoKernelsFound));
    assert_eq!(step(true, None), ScheduleStep::Create, "a failure is not kept");
    assert_eq!(step(false, Some(Ok(3))), ScheduleStep::Restore(3));
    assert_eq!(step(true, None), ScheduleStep::Create, "nothing was kept");
    assert_eq!(step(true, Some(Ok(4))), ScheduleStep::Restore(4));
    assert_eq!(step(true, None), ScheduleStep::Restore(4));
    assert_eq!(step(false, None), ScheduleStep::Create);
}

#[test]
fn another_run_is_given_the_same_schedule() {
    let mut cache = ScheduleCache::new();
    let mut forms: Vec<Graph> = vec![];
    let mut made = vec![];
    let mut run = |graph: Graph, cached: bool, next: u64| {
        let form = normalize_for_schedule_cache(&graph).unwrap().normalized;
        let hash = match forms.iter().position(|known| *known == form) {
            Some(at) => at,
            None => {
                forms.push(form);
                forms.len() - 1
            }
        };
        let mut step = |created| schedule_result_from_sink_with_cache(&mut cache, cached, hash as u64, "clang", created);
        match step(None) {
            ScheduleStep::Create => {
                made.push(next);
                step(Some(Ok(next)))
            }
            found => found,
        }
    };
    assert_eq!(run(computation(11, 22, 33, 4), true, 1), ScheduleStep::Restore(1));
    assert_eq!(run(computation(7, 5, 3, 9), true, 2), ScheduleStep::Restore(1));
    assert_eq!(run(computation(7, 5, 3, 9), false, 3), ScheduleStep::Restore(3), "made anew");
    assert_eq!(run(computation(7, 7, 3, 9), true, 4), ScheduleStep::Restore(4), "another form");
    assert_eq!(run(computation(8, 6, 3, 9), true, 5), ScheduleStep::Restore(1));
    assert_eq!(made, vec![1, 3, 4]);
}

#[test]
fn a_constant_that_is_read_elsewhere_stays() {
    let four = Graph {
        nodes: vec![
            node(define("N"), &[]),
            node(constant(4), &[]),
            node(Op::Bind, &[0, 1]),
            node(buffer(11), &[]),
            node(add(), &[2, 1, 3]),
        ],
    };
    let five = Graph {
        nodes: vec![
            node(define("N"), &[]),
            node(constant(5), &[]),
            node(Op::Bind, &[0, 1]),
            node(constant(4), &[]),
            node(buffer(7), &[]),
            node(add(), &[2, 3, 4]),
        ],
    };
    let (a, b) = (normalize_for_schedule_cache(&four).unwrap(), normalize_for_schedule_cache(&five).unwrap());
    assert_eq!(a.normalized, b.normalized, "neither the bound value nor the buffer is in the form");
    assert_eq!((a.param_values, b.param_values), (vec![run_buffer(11)], vec![run_buffer(7)]));
    assert!(a.normalized.nodes.len() <= four.nodes.len() && b.normalized.nodes.len() <= five.nodes.len());
    assert_eq!((a.var_vals.get("N"), b.var_vals.get("N")), (Some(4), Some(5)));
}

#[test]
fn the_cache_changes_no_request() {
    let graph = computation(11, 22, 33, 4);
    let request = |cached| schedule_request(&graph, vars(&[("M", 1)]), cached).unwrap();
    assert_eq!(request(true), request(false));
    let clash = |cached| schedule_request(&graph, vars(&[("N", 5)]), cached).is_err();
    assert!(clash(true) && clash(false));
}

#[test]
fn schedules_restored_twice_differ_in_fresh_ids() {
    let normalization = normalize_for_schedule_cache(&computation(11, 22, 33, 4)).unwrap();
    let one = restore_post_schedule_pre_schedule(&pre_schedule(), &normalization, &mut 50);
    let two = restore_post_schedule_pre_schedule(&pre_schedule(), &normalization, &mut 80);
    assert_eq!(one.items, two.items);
    assert_eq!((&one.invocations, &one.output_buffers), (&two.invocations, &two.output_buffers));
    assert_eq!((&one.graph.nodes[1].op, &two.graph.nodes[1].op), (&buffer(50), &buffer(80)));
    for i in [0, 2, 3] {
        assert_eq!(one.graph.nodes[i], two.graph.nodes[i]);
    }
}

#[test]
fn stored_schedule_buffers_are_renewed_only_with_a_size() {
    let stored = |size| BufferArg { size, schedule_local: true, ..run_buffer(4) };
    let restore = |size| {
        let normalization = ScheduleCacheNormalization {
            normalized: Graph { nodes: vec![node(cache_param(0), &[])] },
            param_values: vec![stored(size)],
            param_buffers: vec![],
            unique_values: vec![],
            var_vals: VarVals::new(),
        };
        restore_post_schedule_cache(&normalization.normalized, &normalization, &mut 100).nodes
    };
    assert_eq!(restore(None), vec![node(Op::Buffer { arg: stored(None) }, &[])], "it is left as it is");
    assert_eq!(restore(Some(16)), vec![node(buffer(100), &[])]);
}
