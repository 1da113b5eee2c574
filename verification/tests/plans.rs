use std::collections::{HashMap, HashSet};

use svod_tensor::device::{DeviceSpec, ScalarDType};
use svod_tensor::error::Error;
use svod_tensor::graph::{AddrSpace, BufferArg, Graph, Node, Op, ParamArg};
use svod_tensor::plan::{
    collect_buffers, collect_non_overridable_fixedvars, collect_output_buffer_ids, first_device,
    initial_kernel_var_values, plan_device, prepare_execution_plan, prepare_item,
    resolve_compiled_kernel_buffer_indices, resolve_item_buffer_indices, site_device, wants_kernel, CompiledKernel,
    PreparedOp,
};
use svod_tensor::program::{input_indices_from_program_metadata, output_indices_from_program_metadata};
use svod_tensor::schedule::{Buffer, ScheduleItem};
use svod_tensor::vars::VarVals;

fn details(result: Result<Vec<usize>, Error>) -> String {
    match result {
        Err(Error::IrConstruction { details }) => details,
        other => panic!("{other:?}"),
    }
}

#[test]
fn outputs_resolve_to_sorted_distinct_positions() {
    assert_eq!(output_indices_from_program_metadata(&[4, 2, 9], &[9, 4, 9], 3), Ok(vec![0, 2]));
    assert_eq!(output_indices_from_program_metadata(&[4], &[4], 1), Ok(vec![0]));
    assert_eq!(
        output_indices_from_program_metadata(&[4, 2, 4], &[4], 3),
        Ok(vec![2]),
        "the last of a slot's positions counts"
    );
}

#[test]
fn outputs_that_do_not_resolve_are_errors() {
    let outputs = output_indices_from_program_metadata;
    assert_eq!(details(outputs(&[1], &[1], 0)), "cannot map outputs for kernel with zero buffers");
    assert_eq!(details(outputs(&[], &[1], 1)), "ProgramSpec.globals is empty");
    assert_eq!(details(outputs(&[1], &[], 1)), "ProgramSpec.outs is empty");
    assert_eq!(
        details(outputs(&[1, 2], &[2, 7], 2)),
        "ProgramSpec.outs slot 7 not found in ProgramSpec.globals=[1, 2]"
    );
    assert_eq!(
        details(outputs(&[1, 2], &[2], 1)),
        "ProgramSpec output index 1 (slot 2) out of range for 1 buffers"
    );
    assert_eq!(
        details(outputs(&[1, 2], &[2, 7], 1)),
        "ProgramSpec output index 1 (slot 2) out of range for 1 buffers",
        "the first slot that fails is told"
    );
}

#[test]
fn inputs_may_be_empty() {
    let inputs = input_indices_from_program_metadata;
    assert_eq!(inputs(&[], &[], 0), Ok(vec![]));
    assert_eq!(inputs(&[5, 6, 7], &[7, 5, 5], 3), Ok(vec![0, 2]));
    assert_eq!(details(inputs(&[], &[3], 0)), "ProgramSpec.ins slot 3 not found in ProgramSpec.globals=[]");
    assert_eq!(
        details(inputs(&[8, 3], &[3], 1)),
        "ProgramSpec input index 1 (slot 3) out of range for 1 buffers"
    );
}

fn buffer(id: u64) -> Buffer {
    Buffer {
        id,
        storage_id: id,
        offset: 0,
        size: 64,
        dtype: ScalarDType::Float32,
        device: DeviceSpec::Cpu,
    }
}

fn leaf(op: Op) -> Graph {
    Graph { nodes: vec![Node { op, srcs: vec![] }] }
}

fn vars(pairs: &[(&str, i64)]) -> VarVals {
    let mut vars = VarVals::new();
    for (name, value) in pairs {
        vars.set(name, *value);
    }
    vars
}

fn item(kernel_id: u64, ast: Graph, buffers: Vec<Buffer>, ids: &[u64]) -> ScheduleItem {
    ScheduleItem {
        kernel_id,
        ast,
        buffers,
        buffer_uop_ids: ids.to_vec(),
        dependencies: vec![],
        instance_dependencies: vec![],
        fixedvars: VarVals::new(),
        loop_var_names: vec![],
        runtime_vars: 0,
        origin: 0,
    }
}

fn kernel_ast() -> Graph {
    leaf(Op::Sink { explicit_opts: false })
}

fn copy_ast() -> Graph {
    let buffer = Op::Buffer {
        arg: BufferArg {
            id: 1,
            slot: 1,
            dtype: ScalarDType::Float32,
            addrspace: Some(AddrSpace::Global),
            device: None,
            size: Some(4),
            schedule_local: false,
        },
    };
    Graph {
        nodes: vec![
            Node { op: buffer, srcs: vec![] },
            Node { op: Op::Copy, srcs: vec![0] },
            Node { op: Op::End, srcs: vec![1] },
        ],
    }
}

fn kernel(handle: u64, globals: &[usize], outs: &[usize], ins: &[usize]) -> CompiledKernel {
    CompiledKernel {
        handle,
        device: DeviceSpec::Cpu,
        globals: globals.to_vec(),
        outs: outs.to_vec(),
        ins: ins.to_vec(),
        var_names: vec![],
    }
}

#[test]
fn items_find_their_buffers() {
    let index = HashMap::from([(10, 3), (11, 0)]);
    let known = item(1, kernel_ast(), vec![], &[11, 10, 11]);
    assert_eq!(resolve_item_buffer_indices(&known, &index), Ok(vec![0, 3, 0]));
    let unknown = item(1, kernel_ast(), vec![], &[11, 12, 13]);
    assert_eq!(resolve_item_buffer_indices(&unknown, &index), Err(Error::BufferNotFound { uop_id: 12 }));
    assert_eq!(resolve_compiled_kernel_buffer_indices(&known, &index, &vec![5, 6, 7]), Ok(vec![0, 3, 0]));
    assert_eq!(
        details(resolve_compiled_kernel_buffer_indices(&known, &index, &vec![5, 6])),
        "PROGRAM expected 2 compact buffers for slots [5, 6], CALL 1 supplied 3 (buffer_uop_ids=[11, 10, 11])"
    );
}

#[test]
fn copies_and_custom_functions_need_no_kernel() {
    assert!(wants_kernel(&item(0, kernel_ast(), vec![], &[])));
    assert!(!wants_kernel(&item(0, copy_ast(), vec![], &[])));
    assert!(!wants_kernel(&item(0, leaf(Op::CustomFunction { kind: 4 }), vec![], &[])));
    let ended = Graph {
        nodes: vec![
            Node { op: Op::CustomFunction { kind: 4 }, srcs: vec![] },
            Node { op: Op::End, srcs: vec![0] },
        ],
    };
    assert!(!wants_kernel(&item(0, ended, vec![], &[])));
    let sink_end = Graph {
        nodes: vec![
            Node { op: Op::Sink { explicit_opts: false }, srcs: vec![] },
            Node { op: Op::End, srcs: vec![0] },
        ],
    };
    assert!(wants_kernel(&item(0, sink_end, vec![], &[])));
}

#[test]
fn custom_functions_keep_their_values() {
    let index = HashMap::from([(1, 0)]);
    let ast = Graph {
        nodes: vec![
            define("N", 0, 9),
            Node { op: Op::Const { value: Some(7), bits: 0 }, srcs: vec![] },
            Node { op: Op::CustomFunction { kind: 4 }, srcs: vec![1, 0] },
            Node { op: Op::End, srcs: vec![2] },
        ],
    };
    let mut call = item(9, ast, vec![buffer(1)], &[1]);
    call.runtime_vars = 70;
    call.origin = 71;
    call.fixedvars = vars(&[("N", 8)]);
    call.dependencies = vec![2, 3];
    match prepare_item(&call, &None, &index).unwrap() {
        PreparedOp::CustomFunction(prepared) => {
            assert_eq!((prepared.id, prepared.kind), (9, 4));
            assert_eq!(prepared.buffer_indices, vec![0]);
            assert_eq!(prepared.fixedvars.get("N"), Some(8));
            assert_eq!(prepared.dependencies, vec![2, 3]);
            assert_eq!((prepared.attrs, prepared.runtime_vars, prepared.origin), (vec![1, 0], 70, 71));
        }
        other => panic!("{other:?}"),
    }
}

fn define(name: &str, min: i64, max: i64) -> Node {
    Node { op: Op::DefineVar { name: name.to_string(), min, max }, srcs: vec![] }
}

#[test]
fn kernel_variables_start_in_bounds() {
    let named = |name: &str, addrspace, bounds| Node {
        op: Op::Param {
            arg: ParamArg {
                slot: 0,
                dtype: ScalarDType::Int32,
                addrspace,
                device: None,
                size: None,
                name: Some(name.to_string()),
                bounds,
                schedule_cache: false,
            },
        },
        srcs: vec![],
    };
    let mut nodes = vec![
        define("lo", 3, 9),
        define("neg", -4, 4),
        define("below", -5, -1),
        named("p", None, Some((5, 6))),
        named("q", Some(AddrSpace::Global), Some((5, 6))),
        named("open", None, None),
        define("set", 1, 2),
        define("lo", 4, 9),
    ];
    let srcs = (0..nodes.len()).collect();
    nodes.push(Node { op: Op::Sink { explicit_opts: false }, srcs });
    let mut entry = item(0, Graph { nodes }, vec![], &[]);
    entry.fixedvars = vars(&[("set", 77), ("core_id2", 1)]);
    let names: Vec<String> =
        ["lo", "neg", "below", "p", "q", "open", "set", "core_id", "absent"].iter().map(|name| name.to_string()).collect();
    assert_eq!(initial_kernel_var_values(&entry, &names), vec![4, 0, -1, 5, 0, 0, 77, 0, 0]);
    entry.fixedvars = vars(&[("core_id", 6)]);
    assert_eq!(initial_kernel_var_values(&entry, &vec!["core_id".to_string()]), vec![6]);
}

#[test]
fn loop_counters_are_locked() {
    let mut entry = item(0, kernel_ast(), vec![], &[]);
    entry.fixedvars = vars(&[("i", 2), ("N", 8), ("_device_num", 1)]);
    entry.loop_var_names = vec!["i".to_string(), "unset".to_string()];
    let locked = collect_non_overridable_fixedvars(&entry);
    assert_eq!(
        (locked.get("i"), locked.get("N"), locked.get("unset"), locked.get("_device_num")),
        (Some(2), None, None, Some(1))
    );
    entry.fixedvars = vars(&[("N", 8)]);
    assert!(collect_non_overridable_fixedvars(&entry).entries.is_empty());
}

#[test]
fn disks_compute_nothing() {
    let on = |device: DeviceSpec| Buffer { device, ..buffer(1) };
    let disk = || on(DeviceSpec::Disk { path: "w".to_string() });
    let cuda = || DeviceSpec::Cuda { device_id: 1 };
    assert_eq!(first_device(&vec![]), None);
    assert_eq!(first_device(&vec![disk()]), None);
    assert_eq!(first_device(&vec![disk(), on(cuda()), on(DeviceSpec::Cpu)]), Some(cuda()));
    let on_disk = item(0, kernel_ast(), vec![disk()], &[1]);
    assert_eq!(site_device(&on_disk, &cuda()), cuda());
    let aliases = vec![(7, disk()), (8, on(DeviceSpec::Metal { device_id: 0 }))];
    assert_eq!(plan_device(&vec![on_disk], &aliases, &cuda()), DeviceSpec::Metal { device_id: 0 });
    assert_eq!(plan_device(&vec![], &vec![(7, disk())], &cuda()), DeviceSpec::Disk { path: "w".to_string() });
    assert_eq!(plan_device(&vec![], &vec![], &cuda()), cuda());
}

#[test]
fn one_storage_is_one_buffer_of_the_table() {
    let view = |id, offset| Buffer { id, offset, ..buffer(id) };
    let items = vec![
        item(0, kernel_ast(), vec![view(1, 0), view(2, 0), view(1, 0)], &[10, 11, 12]),
        item(1, kernel_ast(), vec![view(3, 0), view(1, 32)], &[10, 13]),
    ];
    let table = collect_buffers(&items, &vec![(14, view(2, 0)), (11, view(9, 0)), (15, view(4, 0))]);
    assert_eq!(table.buffers, vec![view(1, 0), view(2, 0), view(1, 32), view(4, 0)]);
    assert_eq!(
        table.index,
        HashMap::from([(10, 0), (11, 1), (12, 0), (13, 2), (14, 1), (15, 3)])
    );
}

#[test]
fn items_with_more_nodes_than_buffers_are_cut() {
    let table = collect_buffers(&vec![item(0, kernel_ast(), vec![buffer(1)], &[10, 11])], &vec![]);
    assert_eq!(table.index, HashMap::from([(10, 0)]));
}

#[test]
fn outputs_and_their_storage_are_kept() {
    let in_storage = |id, storage_id| Buffer { id, storage_id, ..buffer(id) };
    let items = vec![
        item(0, kernel_ast(), vec![in_storage(1, 100), in_storage(2, 200)], &[10, 11]),
        item(1, kernel_ast(), vec![in_storage(3, 300), in_storage(4, 200)], &[12]),
    ];
    assert_eq!(collect_output_buffer_ids(&items, &vec![10], &vec![]), HashSet::from([1]));
    let aliases = vec![(99, in_storage(50, 200))];
    assert_eq!(collect_output_buffer_ids(&items, &vec![12], &aliases), HashSet::from([3, 2, 4]));
    assert_eq!(collect_output_buffer_ids(&items, &vec![], &vec![]), HashSet::new());
}

#[test]
fn plans_hold_one_operation_for_each_item() {
    let mut launch = item(5, kernel_ast(), vec![buffer(1), buffer(2)], &[10, 11]);
    launch.dependencies = vec![4];
    launch.instance_dependencies = vec![0];
    launch.fixedvars = vars(&[("i", 3), ("N", 4)]);
    launch.loop_var_names = vec!["i".to_string()];
    launch.runtime_vars = 80;
    launch.origin = 81;
    let mut copy = item(4, copy_ast(), vec![buffer(1), buffer(3)], &[10, 12]);
    copy.origin = 90;
    let items = vec![copy, launch];
    let mut compiled = kernel(77, &[6, 8], &[6], &[8]);
    compiled.var_names = vec!["N".to_string(), "core_id".to_string()];
    let plan = prepare_execution_plan(
        &items,
        &vec![(13, buffer(3))],
        &vec![11, 13],
        &vec![None, Some(compiled)],
        &DeviceSpec::Cpu,
    )
    .unwrap();
    assert_eq!(plan.num_outputs(), 2);
    assert_eq!(plan.output_buffers, vec![2, 1]);
    assert_eq!(plan.table.buffers.len(), 3);
    assert_eq!(plan.device, DeviceSpec::Cpu);
    assert_eq!(plan.ops.len(), 2);
    match &plan.ops[0].op {
        PreparedOp::BufferCopy(copy) => {
            assert_eq!((copy.id, &copy.buffer_indices, copy.origin), (4, &vec![0, 1], 90))
        }
        other => panic!("{other:?}"),
    }
    assert_eq!(plan.ops[1].instance_dependencies, vec![0]);
    match &plan.ops[1].op {
        PreparedOp::CompiledProgram(prepared) => {
            assert_eq!((prepared.id, prepared.kernel), (5, 77));
            assert_eq!(prepared.buffer_indices, vec![0, 2]);
            assert_eq!((&prepared.output_indices, &prepared.input_indices), (&vec![0], &vec![1]));
            assert_eq!(prepared.vals, vec![4, 0]);
            assert_eq!((prepared.fixedvars.get("i"), prepared.fixedvars.get("N")), (Some(3), None));
            assert_eq!(prepared.dependencies, vec![4]);
            assert_eq!((prepared.runtime_vars, prepared.origin), (80, 81));
            assert_eq!(prepared.ast, kernel_ast());
        }
        other => panic!("{other:?}"),
    }
}

#[test]
fn plans_that_cannot_be_made_are_errors() {
    let items = || vec![item(5, kernel_ast(), vec![buffer(1), buffer(2)], &[10, 11])];
    let prepare = |items, outputs: &[u64], kernel| {
        prepare_execution_plan(&items, &vec![], &outputs.to_vec(), &vec![Some(kernel)], &DeviceSpec::Cpu)
    };
    assert!(prepare(items(), &[10], kernel(1, &[0, 1], &[0], &[1])).is_ok());
    assert_eq!(
        prepare(items(), &[10, 40], kernel(1, &[0, 1], &[0], &[1])),
        Err(Error::BufferNotFound { uop_id: 40 })
    );
    let no_outputs = prepare(items(), &[], kernel(1, &[0, 1], &[0], &[1])).unwrap_err();
    assert_eq!(
        no_outputs,
        Error::IrConstruction { details: "prepare_execution_plan produced no output buffer indices".to_string() }
    );
    let misfit = prepare(items(), &[10], kernel(1, &[0], &[0], &[])).unwrap_err();
    assert!(misfit.to_string().contains("PROGRAM expected 1 compact buffers"));
    let no_outs = prepare(items(), &[10], kernel(1, &[0, 1], &[], &[])).unwrap_err();
    assert_eq!(no_outs, Error::IrConstruction { details: "ProgramSpec.outs is empty".to_string() });
    let bad_ins = prepare(items(), &[10], kernel(1, &[0, 1], &[0], &[9])).unwrap_err();
    assert!(bad_ins.to_string().contains("ProgramSpec.ins slot 9 not found"));
    let cut = vec![item(5, kernel_ast(), vec![buffer(1)], &[10, 11])];
    assert_eq!(
        prepare(cut, &[10], kernel(1, &[0, 1], &[0], &[1])),
        Err(Error::BufferNotFound { uop_id: 11 })
    );
}

#[test]
fn buffers_are_copied_whole() {
    let original = Buffer { id: 1, storage_id: 2, offset: 3, ..buffer(9) };
    assert_eq!(original.copy(), original);
    assert!(original.shares_storage(&original.copy()));
    assert!(!original.shares_storage(&Buffer { offset: 4, ..original.copy() }));
    assert!(!original.shares_storage(&Buffer { dtype: ScalarDType::Int32, ..original.copy() }));
}
