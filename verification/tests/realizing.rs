use svod_tensor::device::{DeviceSpec, ScalarDType};
use svod_tensor::error::Error;
use svod_tensor::graph::{AddrSpace, BufferArg, Graph, Node, Op};
use svod_tensor::realize::{
    begin_prepare_batch, begin_realize_batch, check_batch_outputs, collect_batch_vars, collect_pending_indices,
    count_elements, finish_batch, wrap_constants, BatchAction, BatchEvent, BatchState, Purpose, RealizeAction,
    RealizeEvent, RealizeState, RealizeStep, Registration, Tensor, Uop,
};
use svod_tensor::schedule::Buffer;

fn node(op: Op, srcs: &[usize]) -> Node {
    Node { op, srcs: srcs.to_vec() }
}

fn source(id: u64) -> Op {
    Op::Buffer {
        arg: BufferArg {
            id,
            slot: id,
            dtype: ScalarDType::Float32,
            addrspace: Some(AddrSpace::Global),
            device: Some(DeviceSpec::Cpu),
            size: Some(6),
            schedule_local: false,
        },
    }
}

fn tensor(id: u64, nodes: Vec<Node>, shape: Option<Vec<usize>>) -> Tensor {
    Tensor {
        entry_id: id,
        uop: Uop {
            id,
            graph: Graph { nodes },
            has_buffer_identity: false,
            constant: false,
            shape,
            dtype: ScalarDType::Float32,
        },
        buffer: None,
    }
}

/// A computation on buffer 1.
fn computed(id: u64, shape: &[usize]) -> Tensor {
    let nodes = vec![node(source(1), &[]), node(Op::Other { code: 3 }, &[0])];
    tensor(id, nodes, Some(shape.to_vec()))
}

fn constant(id: u64, shape: &[usize]) -> Tensor {
    let mut constant = tensor(
        id,
        vec![node(Op::Const { value: Some(1), bits: 1 }, &[])],
        Some(shape.to_vec()),
    );
    constant.uop.constant = true;
    constant
}

fn realized(id: u64) -> Tensor {
    let mut realized = tensor(id, vec![node(source(id), &[])], Some(vec![6]));
    realized.uop.has_buffer_identity = true;
    realized
}

/// A computation that binds `N` to `value`.
fn bound(id: u64, value: i64) -> Tensor {
    tensor(
        id,
        vec![
            node(Op::DefineVar { name: "N".to_string(), min: 0, max: 9 }, &[]),
            node(Op::Const { value: Some(value), bits: 0 }, &[]),
            node(Op::Bind, &[0, 1]),
        ],
        Some(vec![6]),
    )
}

fn output(id: u64, elements: usize) -> Buffer {
    Buffer {
        id,
        storage_id: id,
        offset: 0,
        size: 4 * elements,
        dtype: ScalarDType::Float32,
        device: DeviceSpec::Cpu,
    }
}

fn registered(buffer_id: u64, entry_id: u64, buffer: Buffer) -> Registration {
    Registration { buffer_id, entry_id, buffer }
}

#[test]
fn shapes_have_their_elements() {
    assert_eq!(count_elements(&vec![]), Some(1));
    assert_eq!(count_elements(&vec![2, 3, 4]), Some(24));
    assert_eq!(count_elements(&vec![usize::MAX, 2]), None);
    assert_eq!(count_elements(&vec![usize::MAX, 2, 0]), Some(0));
    assert!(computed(1, &[2, 0]).has_zero_elements());
    assert!(!computed(1, &[]).has_zero_elements());
    assert!(!tensor(1, vec![node(source(1), &[])], None).has_zero_elements());
}

#[test]
fn realizing_begins_by_what_a_tensor_is() {
    let mut next_id = 40;
    assert_eq!(realized(1).begin_realize(&mut next_id), RealizeStep::AlreadyRealized);
    assert_eq!(computed(1, &[2, 3]).begin_realize(&mut next_id), RealizeStep::Prepare);
    assert_eq!(computed(1, &[2, 0]).begin_realize(&mut next_id), RealizeStep::Empty);
    assert_eq!(next_id, 40);
    let mut one = constant(1, &[6]);
    assert_eq!(one.begin_realize(&mut next_id), RealizeStep::Prepare);
    assert_eq!((next_id, one.uop.id, one.uop.constant), (41, 40, false));
    assert_eq!(one.uop.graph.nodes.len(), 2);
    assert_eq!(one.uop.graph.nodes[1], node(Op::Contiguous, &[0]));
    assert_eq!(constant(2, &[0]).begin_realize(&mut next_id), RealizeStep::Empty);
}

fn step(
    tensor: &mut Tensor,
    purpose: Purpose,
    state: RealizeState,
    event: RealizeEvent,
    next_id: &mut u64,
) -> (Option<RealizeState>, RealizeAction) {
    tensor.realize_with(purpose, state, event, next_id, &mut vec![])
}

#[test]
fn a_tensor_is_prepared_run_and_wired() {
    let mut next_id = 40;
    let mut c = computed(7, &[2, 3]);
    let (state, action) = step(&mut c, Purpose::Realize, RealizeState::Starting, RealizeEvent::Begin, &mut next_id);
    let RealizeAction::Prepare { sink, var_vals } = action else { panic!("it is to be computed") };
    assert_eq!(sink.nodes.last().unwrap().op, Op::Sink { explicit_opts: false });
    assert_eq!(sink.nodes.len(), 4);
    assert!(var_vals.entries.is_empty());
    let prepared = RealizeEvent::Prepared(Ok(output(90, 6)));
    let (state, action) = step(&mut c, Purpose::Realize, state.unwrap(), prepared, &mut next_id);
    assert_eq!(action, RealizeAction::Execute);
    let executed = RealizeEvent::Executed(Ok(()));
    let (state, action) = step(&mut c, Purpose::Realize, state.unwrap(), executed, &mut next_id);
    assert_eq!((state, action), (None, RealizeAction::Publish { old: 7, new: 41 }));
    assert_eq!((next_id, c.entry_id, &c.buffer), (42, 7, &Some(output(90, 6))));
    assert!(c.uop.has_buffer_identity);
    assert_eq!(c.uop.shape, Some(vec![2, 3]));
    assert_eq!(c.uop.graph.nodes[1], node(Op::Reshape, &[0]));
    match &c.uop.graph.nodes[0].op {
        Op::Buffer { arg } => assert_eq!((arg.id, arg.size), (40, Some(6))),
        other => panic!("{other:?}"),
    }
    let again = step(&mut c, Purpose::Realize, RealizeState::Starting, RealizeEvent::Begin, &mut next_id);
    assert_eq!((again, next_id), ((None, RealizeAction::Adopt), 42), "to realize again does nothing");
}

#[test]
fn empty_tensors_and_bad_bindings_are_not_prepared() {
    let mut next_id = 40;
    let mut begin = |tensor: &mut Tensor| {
        step(tensor, Purpose::Realize, RealizeState::Starting, RealizeEvent::Begin, &mut next_id)
    };
    assert_eq!(begin(&mut computed(7, &[0])), (None, RealizeAction::Skip));
    let mut clash = bound(7, 1);
    clash.uop.graph.nodes.push(node(Op::Const { value: Some(2), bits: 0 }, &[]));
    clash.uop.graph.nodes.push(node(Op::Bind, &[0, 3]));
    clash.uop.graph.nodes.push(node(Op::Other { code: 1 }, &[2, 4]));
    let details = "bind mismatch on N, 1 != 2 (bind extraction)".to_string();
    assert_eq!(begin(&mut clash), (None, RealizeAction::Fail(Error::IrConstruction { details })));
}

#[test]
fn a_tensor_that_was_realized_meanwhile_is_adopted() {
    let mut next_id = 40;
    let preparing = || RealizeState::Preparing { uop: computed(7, &[6]).uop };
    let failed = |error| RealizeEvent::Prepared(Err(error));
    let mut run = |mut tensor: Tensor, purpose, error| {
        step(&mut tensor, purpose, preparing(), failed(error), &mut next_id).1
    };
    assert_eq!(run(realized(7), Purpose::Realize, Error::NoKernelsFound), RealizeAction::Adopt);
    assert_eq!(
        run(realized(7), Purpose::Profile, Error::NoKernelsFound),
        RealizeAction::Fail(Error::NoKernelsFound)
    );
    assert_eq!(
        run(computed(7, &[6]), Purpose::Realize, Error::NoKernelsFound),
        RealizeAction::Fail(Error::NoKernelsFound)
    );
    assert_eq!(
        run(realized(7), Purpose::Realize, Error::EmptySchedule),
        RealizeAction::Fail(Error::EmptySchedule)
    );
}

#[test]
fn runs_and_outputs_that_fail_leave_the_tensor() {
    let mut next_id = 40;
    let running = |elements| RealizeState::Running { uop: computed(7, &[2, 3]).uop, output: output(90, elements) };
    let mut c = computed(7, &[2, 3]);
    let lost = RealizeEvent::Executed(Err("lost".to_string()));
    let (_, action) = step(&mut c, Purpose::Profile, running(6), lost, &mut next_id);
    assert_eq!(
        action,
        RealizeAction::Fail(Error::Stage { stage: "execution".to_string(), message: "lost".to_string() })
    );
    let (_, action) = step(&mut c, Purpose::Realize, running(5), RealizeEvent::Executed(Ok(())), &mut next_id);
    assert_eq!(action, RealizeAction::Fail(Error::ReshapeMismatch { elements: 5, shape: vec![2, 3] }));
    assert_eq!((c, next_id), (computed(7, &[2, 3]), 41), "the buffer that does not fit has its id");
}

#[test]
fn outputs_are_registered_for_their_tensors() {
    let mut next_id = 40;
    let mut list = vec![];
    let mut c = computed(7, &[2, 3]);
    let misfit = c.finalize_realize(&output(89, 5), &computed(7, &[2, 3]).uop, &mut next_id, &mut list);
    assert_eq!(misfit, Err(Error::ReshapeMismatch { elements: 5, shape: vec![2, 3] }));
    assert_eq!(list, vec![registered(40, 7, output(89, 5))], "though it does not fit");
    let done = c.finalize_realize(&output(90, 6), &computed(7, &[2, 3]).uop, &mut next_id, &mut list);
    assert_eq!((done, next_id), (Ok(()), 43));
    assert_eq!(list[1], registered(41, 7, output(90, 6)));
    match &c.uop.graph.nodes[0].op {
        Op::Buffer { arg } => assert_eq!(arg.id, list[1].buffer_id),
        other => panic!("{other:?}"),
    }
    let running = RealizeState::Running { uop: computed(8, &[6]).uop, output: output(91, 6) };
    let mut d = computed(8, &[6]);
    d.realize_with(Purpose::Realize, running, RealizeEvent::Executed(Ok(())), &mut next_id, &mut list);
    assert_eq!((list.len(), &list[2]), (3, &registered(43, 8, output(91, 6))));
    let mut e = computed(9, &[6]);
    let mut wire = |outputs| e.wire_output_tensor(&outputs, &computed(9, &[6]).uop, &mut next_id, &mut list);
    assert_eq!(wire(vec![]), Ok(()));
    assert_eq!(wire(vec![output(92, 6), output(93, 6)]), Ok(()));
    assert_eq!((list.len(), &list[3]), (4, &registered(45, 9, output(92, 6))));
}

#[test]
fn prepared_tensors_read_their_plans_output() {
    let mut next_id = 40;
    let mut list = vec![];
    let mut c = computed(7, &[6]);
    assert_eq!(c.prepare_with(Err(Error::NoKernelsFound), &mut next_id, &mut list), Err(Error::NoKernelsFound));
    assert_eq!(c.prepare_with(Ok(vec![]), &mut next_id, &mut list), Ok(()));
    assert_eq!((&c, next_id), (&computed(7, &[6]), 40));
    assert_eq!(c.prepare_with(Ok(vec![output(90, 6), output(91, 6)]), &mut next_id, &mut list), Ok(()));
    assert_eq!((&c.buffer, next_id), (&Some(output(90, 6)), 42));
    let mut shapeless = tensor(7, vec![node(source(1), &[])], None);
    assert_eq!(shapeless.prepare_with(Ok(vec![output(90, 6)]), &mut next_id, &mut list), Err(Error::ShapeUnknown));
    assert_eq!(list, vec![registered(40, 7, output(90, 6)), registered(42, 7, output(90, 6))]);
}

#[test]
fn only_unrealized_tensors_are_pending() {
    let tensors = vec![realized(1), computed(2, &[6]), constant(3, &[6]), computed(4, &[0]), computed(5, &[6])];
    assert_eq!(collect_pending_indices(&tensors), vec![1, 4]);
}

#[test]
fn constants_are_wrapped_before_a_batch() {
    let mut tensors = vec![realized(1), constant(2, &[6]), computed(3, &[6])];
    let mut next_id = 40;
    wrap_constants(&mut tensors, &mut next_id);
    assert_eq!((next_id, tensors[1].uop.id, tensors[1].uop.constant), (41, 40, false));
    assert_eq!((&tensors[0], &tensors[2]), (&realized(1), &computed(3, &[6])));
}

#[test]
fn batches_are_realized_together() {
    let mut tensors = vec![realized(1), computed(2, &[6]), constant(3, &[2, 3]), computed(4, &[0])];
    let mut next_id = 40;
    let batch = begin_realize_batch(&mut tensors, &mut next_id).unwrap().unwrap();
    assert_eq!((&batch.pending, next_id), (&vec![1, 2], 41));
    assert_eq!(batch.sink.nodes.last().unwrap().srcs.len(), 2);
    let outputs = vec![output(90, 6), output(91, 6)];
    assert_eq!(check_batch_outputs(batch.pending.len(), outputs.len()), Ok(()));
    let mut list = vec![];
    let becomes = finish_batch(&mut tensors, &batch.pending, &outputs, &mut next_id, &mut list).unwrap();
    assert_eq!(list, vec![registered(41, 2, output(90, 6)), registered(43, 3, output(91, 6))]);
    assert_eq!(becomes, vec![(2, 42), (40, 44)]);
    assert_eq!((&tensors[1].buffer, &tensors[2].buffer), (&Some(output(90, 6)), &Some(output(91, 6))));
    assert_eq!((&tensors[0], &tensors[3]), (&realized(1), &computed(4, &[0])));
    assert_eq!(collect_pending_indices(&tensors), Vec::<usize>::new());
    assert_eq!(begin_realize_batch(&mut tensors, &mut next_id), Ok(None), "nothing is left to do");
    assert_eq!(begin_realize_batch(&mut vec![], &mut next_id), Ok(None));
}

#[test]
fn plans_must_have_an_output_for_each_tensor() {
    let mut tensors = vec![computed(2, &[6]), computed(3, &[6])];
    let mut next_id = 40;
    let mut list = vec![];
    let mismatch = || Error::BatchOutputMismatch { expected: 2, actual: 1 };
    assert_eq!(check_batch_outputs(2, 1), Err(mismatch()));
    let short = finish_batch(&mut tensors, &vec![0, 1], &vec![output(90, 6)], &mut next_id, &mut list);
    assert_eq!((short, list.len()), (Err(mismatch()), 0));
    assert_eq!(tensors, vec![computed(2, &[6]), computed(3, &[6])]);
    let outputs = vec![output(90, 6), output(91, 7)];
    let misfit = finish_batch(&mut tensors, &vec![0, 1], &outputs, &mut next_id, &mut list);
    assert_eq!(misfit, Err(Error::ReshapeMismatch { elements: 7, shape: vec![6] }));
    assert_eq!(list, vec![registered(40, 2, output(90, 6)), registered(42, 3, output(91, 7))]);
    assert_eq!((&tensors[0].buffer, &tensors[1]), (&Some(output(90, 6)), &computed(3, &[6])));
}

#[test]
fn batches_agree_on_their_variables() {
    let vars = collect_batch_vars(&vec![bound(1, 4), computed(2, &[6])], &vec![0, 1], "here").unwrap();
    assert_eq!(vars.get("N"), Some(4));
    for (context, clash) in [
        (
            "realize_batch input collection",
            begin_realize_batch(&mut vec![bound(1, 4), bound(2, 5)], &mut 40).unwrap_err(),
        ),
        (
            "prepare_batch input collection",
            begin_prepare_batch(&vec![bound(1, 4), bound(2, 5)]).unwrap_err(),
        ),
    ] {
        let details = format!("bind mismatch on N, 4 != 5 ({context})");
        assert_eq!(clash, Error::IrConstruction { details });
    }
}

#[test]
fn preparing_a_batch_needs_something_to_run() {
    assert_eq!(begin_prepare_batch(&vec![]), Err(Error::EmptySchedule));
    assert_eq!(begin_prepare_batch(&vec![realized(1), computed(2, &[0])]), Err(Error::EmptySchedule));
    let batch = begin_prepare_batch(&vec![realized(1), constant(2, &[6]), computed(3, &[6])]).unwrap();
    assert_eq!(batch.pending, vec![1, 2], "a constant is prepared too");
    let one_output = |tensors| begin_prepare_batch(&tensors).unwrap().sink.nodes.len();
    assert_eq!(
        (one_output(vec![constant(2, &[6])]), one_output(vec![computed(3, &[6])])),
        (4, 4),
        "a constant is made contiguous first"
    );
}

#[test]
fn a_batch_is_prepared_run_and_wired() {
    let mut tensors = vec![computed(2, &[6]), realized(1), constant(3, &[2, 3])];
    let mut next_id = 40;
    let mut list = vec![];
    let (state, action) =
        Tensor::realize_batch_with(&mut tensors, BatchState::Starting, BatchEvent::Begin, &mut next_id, &mut list);
    let BatchAction::Prepare { sink, var_vals } = action else { panic!("two are to be computed") };
    assert_eq!((sink.nodes.last().unwrap().srcs.len(), var_vals.entries.len()), (2, 0));
    let outputs = || vec![output(90, 6), output(91, 6)];
    let prepared = BatchEvent::Prepared(Ok(outputs()));
    let (state, action) = Tensor::realize_batch_with(&mut tensors, state.unwrap(), prepared, &mut next_id, &mut list);
    assert_eq!(action, BatchAction::Execute);
    assert_eq!(tensors[0], computed(2, &[6]));
    let executed = BatchEvent::Executed(Ok(()));
    let (state, action) = Tensor::realize_batch_with(&mut tensors, state.unwrap(), executed, &mut next_id, &mut list);
    assert_eq!((state, action), (None, BatchAction::Publish { becomes: vec![(2, 42), (40, 44)] }));
    assert_eq!((&tensors[0].buffer, &tensors[2].buffer), (&Some(output(90, 6)), &Some(output(91, 6))));
    assert_eq!(list, vec![registered(41, 2, output(90, 6)), registered(43, 3, output(91, 6))]);
    let again = Tensor::realize_batch_with(&mut tensors, BatchState::Starting, BatchEvent::Begin, &mut next_id, &mut list);
    assert_eq!(again, (None, BatchAction::Skip));
}

#[test]
fn a_batch_ends_at_the_first_failure() {
    let mut tensors = vec![computed(2, &[6]), computed(3, &[6])];
    let mut next_id = 40;
    let mut list = vec![];
    let preparing = || BatchState::Preparing { pending: vec![0, 1] };
    let fail = |error| (None, BatchAction::Fail(error));
    let mut prepare = |prepared| {
        Tensor::realize_batch_with(&mut tensors, preparing(), BatchEvent::Prepared(prepared), &mut next_id, &mut list)
    };
    assert_eq!(prepare(Err(Error::NoKernelsFound)), fail(Error::NoKernelsFound), "a batch adopts nothing");
    assert_eq!(
        prepare(Ok(vec![output(90, 6)])),
        fail(Error::BatchOutputMismatch { expected: 2, actual: 1 }),
        "before it is run"
    );
    let running = BatchState::Running { pending: vec![0, 1], outputs: vec![output(90, 6), output(91, 6)] };
    let lost = BatchEvent::Executed(Err("lost".to_string()));
    let error = Error::Stage { stage: "execution".to_string(), message: "lost".to_string() };
    assert_eq!(Tensor::realize_batch_with(&mut tensors, running, lost, &mut next_id, &mut list), fail(error));
    assert_eq!((tensors, next_id), (vec![computed(2, &[6]), computed(3, &[6])], 40));
    assert!(list.is_empty());
}

#[test]
fn a_prepared_batch_reads_its_plan() {
    let mut tensors = vec![constant(2, &[6]), realized(1)];
    let mut next_id = 40;
    let mut list = vec![];
    let (state, action) =
        Tensor::prepare_batch_with(&mut tensors, BatchState::Starting, BatchEvent::Begin, &mut next_id, &mut list);
    assert!(matches!(action, BatchAction::Prepare { .. }));
    assert_eq!(tensors, vec![constant(2, &[6]), realized(1)], "nothing changes before the plan is there");
    let short = BatchEvent::Prepared(Ok(vec![]));
    let preparing = BatchState::Preparing { pending: vec![0] };
    assert_eq!(
        Tensor::prepare_batch_with(&mut tensors, preparing, short, &mut next_id, &mut list),
        (None, BatchAction::Fail(Error::BatchOutputMismatch { expected: 1, actual: 0 }))
    );
    let prepared = BatchEvent::Prepared(Ok(vec![output(90, 6)]));
    assert_eq!(
        Tensor::prepare_batch_with(&mut tensors, state.unwrap(), prepared, &mut next_id, &mut list),
        (None, BatchAction::Wired)
    );
    assert_eq!((&tensors[0].buffer, next_id), (&Some(output(90, 6)), 42));
    assert!(tensors[0].uop.has_buffer_identity);
    assert_eq!(list, vec![registered(40, 2, output(90, 6))]);
    assert_eq!(
        Tensor::prepare_batch_with(&mut tensors, BatchState::Starting, BatchEvent::Begin, &mut next_id, &mut list),
        (None, BatchAction::Fail(Error::EmptySchedule))
    );
}
