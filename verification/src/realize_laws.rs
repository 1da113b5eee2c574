//! What realizing promises: which buffers a tensor takes on, which tensors are run,
//! and what a batch is computed from.

use vstd::arithmetic::div_mod::lemma_fundamental_div_mod;
use vstd::arithmetic::mul::{lemma_mul_is_associative, lemma_mul_is_commutative};
use vstd::prelude::*;

use crate::error::Error;
use crate::graph::{binding_of, gathered, rebinds, AddrSpace, Graph, Node, Op, Term};
use crate::graph_laws::{
    binds, law_contradictions_are_found, law_extracted_values_are_the_bound_ones, law_sinks_hold_every_output,
};
use crate::realize::{
    batch_awaits, batch_finishes, batch_values, capacity, constants_wrapped, elements, is_empty_shape, pending_graphs,
    pending_terms, prepare_batch_begins, prepare_batch_steps, prepares_with, realize_awaits, realize_batch_begins,
    realize_batch_steps, realize_begins, realize_steps, rebinds_somewhere, takes_on, Batch, BatchAction, BatchEvent,
    BatchState, Purpose, RealizeAction, RealizeEvent, RealizeState, Registration, Tensor, Uop,
};
use crate::schedule::Buffer;

verus! {

// ---------------------------------------------------------------------------
// Shapes and buffers
// ---------------------------------------------------------------------------

/// The product of the axes of a shape.
pub open spec fn product(dims: Seq<usize>) -> nat
    decreases dims.len(),
{
    if dims.len() == 0 {
        1
    } else {
        dims[0] as nat * product(dims.drop_first())
    }
}

proof fn lemma_product_last(dims: Seq<usize>)
    requires
        dims.len() > 0,
    ensures
        product(dims) == product(dims.drop_last()) * dims.last() as nat,
    decreases dims.len(),
{
    if dims.len() == 1 {
        assert(dims.drop_first() =~= Seq::<usize>::empty());
        assert(dims.drop_last() =~= Seq::<usize>::empty());
        assert(product(dims) == dims[0] as nat * 1);
        assert(product(Seq::<usize>::empty()) == 1);
        assert(1 * dims.last() as nat == dims[0] as nat);
    } else {
        let rest = dims.drop_first();
        lemma_product_last(rest);
        assert(rest.drop_last() =~= dims.drop_last().drop_first());
        assert(dims.drop_last()[0] == dims[0]);
        lemma_mul_is_associative(dims[0] as int, product(rest.drop_last()) as int, dims.last() as int);
    }
}

/// A shape has as many elements as the product of its axes: none if and only if an
/// axis is 0, and one where it has no axis.
pub proof fn law_elements_are_the_product_of_the_axes(dims: Seq<usize>)
    ensures
        elements(dims, dims.len()) == product(dims),
        product(dims) == 0 <==> exists|i: int| #![trigger dims[i]] 0 <= i < dims.len() && dims[i] == 0,
{
    lemma_elements_prefix(dims, dims.len());
    assert(dims.subrange(0, dims.len() as int) =~= dims);
    lemma_zero_axis(dims);
}

proof fn lemma_elements_prefix(dims: Seq<usize>, k: nat)
    requires
        k <= dims.len(),
    ensures
        elements(dims, k) == product(dims.subrange(0, k as int)),
    decreases k,
{
    let head = dims.subrange(0, k as int);
    if k > 0 {
        lemma_elements_prefix(dims, (k - 1) as nat);
        lemma_product_last(head);
        assert(head.drop_last() =~= dims.subrange(0, k - 1));
    }
}

proof fn lemma_zero_axis(dims: Seq<usize>)
    ensures
        product(dims) == 0 <==> exists|i: int| #![trigger dims[i]] 0 <= i < dims.len() && dims[i] == 0,
    decreases dims.len(),
{
    if dims.len() > 0 {
        let rest = dims.drop_first();
        lemma_zero_axis(rest);
        assert(product(dims) == 0 <==> dims[0] == 0 || product(rest) == 0) by (nonlinear_arith)
            requires
                product(dims) == dims[0] as nat * product(rest),
        ;
        if product(rest) == 0 {
            let i = choose|i: int| #![trigger rest[i]] 0 <= i < rest.len() && rest[i] == 0;
            assert(dims[i + 1] == 0);
        }
        if exists|i: int| #![trigger dims[i]] 0 <= i < dims.len() && dims[i] == 0 {
            let i = choose|i: int| #![trigger dims[i]] 0 <= i < dims.len() && dims[i] == 0;
            if i > 0 {
                assert(rest[i - 1] == 0);
            }
        }
    }
}

proof fn lemma_capacity(output: &Buffer, uop: &Uop)
    ensures
        ({
            let count = capacity(output, uop.dtype);
            let width = uop.dtype.width();
            &&& width > 0
            &&& count * width <= output.size
            &&& output.size < (count + 1) * width
        }),
{
    let width = uop.dtype.width() as int;
    let size = output.size as int;
    lemma_fundamental_div_mod(size, width);
    assert(0 <= size / width <= size) by (nonlinear_arith)
        requires
            size >= 0,
            width >= 1,
    ;
    let count = size / width;
    assert(count * width == width * count) by {
        lemma_mul_is_commutative(count, width);
    }
    assert((count + 1) * width == count * width + width) by (nonlinear_arith);
}

/// A buffer of as many bytes as the elements of the shape take is always taken on:
/// the tensor then reads it, as so many elements of its own type and on the buffer's
/// device, in its own shape.
pub proof fn law_fitting_buffers_are_taken_on(
    before: &Tensor,
    after: &Tensor,
    uop: &Uop,
    dims: Vec<usize>,
    output: &Buffer,
    id: u64,
    end: u64,
    done: Result<(), Error>,
)
    requires
        takes_on(before, after, uop, output, id, end, done),
        uop.shape == Some(dims),
        product(dims@) * uop.dtype.width() == output.size,
    ensures
        done is Ok,
        after.entry_id == before.entry_id,
        after.buffer == Some(*output),
        after.uop.shape matches Some(own) && own@ == dims@,
        after.uop.dtype == uop.dtype,
        after.uop.has_buffer_identity,
        reads_buffer(after.uop.graph.root(), uop, output, id, product(dims@)),
{
    let count = capacity(output, uop.dtype);
    let wanted = product(dims@);
    let width = uop.dtype.width();
    law_elements_are_the_product_of_the_axes(dims@);
    lemma_capacity(output, uop);
    assert(count == wanted) by (nonlinear_arith)
        requires
            count * width <= wanted * width,
            wanted * width < (count + 1) * width,
            width > 0,
    ;
}

/// A term reads `count` elements of a buffer under `id`, in another shape.
pub open spec fn reads_buffer(t: Term, uop: &Uop, output: &Buffer, id: u64, count: nat) -> bool {
    &&& t.op is Reshape
    &&& t.srcs.len() == 1
    &&& t.srcs[0].srcs.len() == 0
    &&& t.srcs[0].op matches Op::Buffer { arg } && {
        &&& arg.id == id
        &&& arg.dtype == uop.dtype
        &&& arg.device == Some(output.device)
        &&& arg.size matches Some(size) && size == count
        &&& arg.addrspace == Some(AddrSpace::Global)
        &&& !arg.schedule_local
    }
}

/// A buffer with room for fewer elements than the shape has, or for more, is refused
/// and leaves the tensor as it is; the error says how many whole elements it has room
/// for. So is any buffer where the shape is not known.
pub proof fn law_other_buffers_are_refused(
    before: &Tensor,
    after: &Tensor,
    uop: &Uop,
    output: &Buffer,
    id: u64,
    end: u64,
    done: Result<(), Error>,
)
    requires
        takes_on(before, after, uop, output, id, end, done),
    ensures
        uop.shape is None ==> *after == *before && (done matches Err(Error::ShapeUnknown)),
        uop.shape matches Some(dims) ==> (output.size < product(dims@) * uop.dtype.width() || (product(dims@) + 1)
            * uop.dtype.width() <= output.size) ==> *after == *before && (done matches Err(
            Error::ReshapeMismatch { elements, shape },
        ) && shape@ == dims@ && elements * uop.dtype.width() <= output.size < (elements + 1) * uop.dtype.width()),
{
    lemma_capacity(output, uop);
    if let Some(dims) = uop.shape {
        law_elements_are_the_product_of_the_axes(dims@);
    }
}

// ---------------------------------------------------------------------------
// Tensors that are run
// ---------------------------------------------------------------------------

/// A tensor with a buffer is left as it is, one with an axis of no elements is done,
/// and any other is run, unless it binds a variable to two values. What is run is the
/// tensor's computation, a constant made contiguous, as the one output of a graph,
/// with the values that the computation binds.
pub proof fn law_only_unrealized_tensors_are_run(
    before: &Tensor,
    after: &Tensor,
    id: u64,
    next: u64,
    state: Option<RealizeState>,
    action: RealizeAction,
    name: Seq<char>,
    value: i64,
)
    requires
        before.wf(),
        realize_begins(before, after, id, next, state, action),
    ensures
        after.buffer == before.buffer,
        action is Adopt <==> before.uop.has_buffer_identity,
        action is Skip <==> !before.uop.has_buffer_identity && (before.uop.shape matches Some(dims) && product(dims@) == 0),
        action is Adopt || action is Skip || action is Fail ==> state is None,
        action matches RealizeAction::Prepare { sink, var_vals } ==> {
            let root = sink.root();
            let output = before.uop.graph.root();
            &&& state matches Some(RealizeState::Preparing { uop }) && uop.id == after.uop.id && uop.dtype
                == before.uop.dtype && (uop.shape is Some <==> before.uop.shape is Some)
            &&& root.op is Sink
            &&& root.srcs.len() == 1
            &&& root.srcs[0].op is Contiguous
            &&& root.srcs[0].srcs.len() == 1
            &&& !before.uop.constant ==> root.srcs[0].srcs[0] == output
            &&& before.uop.constant ==> root.srcs[0].srcs[0].op is Contiguous && root.srcs[0].srcs[0].srcs == seq![output]
            &&& var_vals@.contains_pair(name, value) <==> exists|i: int| #[trigger]
                binds(after.uop.graph.nodes@, i, name, value)
        },
        action is Fail ==> exists|a: int, b: int, name: Seq<char>, x: i64, y: i64| #[trigger]
            binds(after.uop.graph.nodes@, a, name, x) && #[trigger] binds(after.uop.graph.nodes@, b, name, y) && x != y,
        action is Adopt || action is Skip || action is Prepare || action is Fail,
{
    if let Some(dims) = before.uop.shape {
        law_elements_are_the_product_of_the_axes(dims@);
    }
    let nodes = after.uop.graph.nodes@;
    law_contradictions_are_found(nodes);
    if let RealizeAction::Prepare { sink, var_vals } = action {
        law_sinks_hold_every_output(seq![after.uop.graph.root()], seq![after.uop.graph.root()], 0);
        assert forall|i: int| 0 <= i < nodes.len() implies !#[trigger] rebinds(binding_of(nodes), i) by {
            assert(!rebinds_somewhere(nodes));
        }
        law_extracted_values_are_the_bound_ones(&after.uop.graph, var_vals@, name, value);
    }
}

/// A buffer has as many bytes as the elements of a computation take.
pub open spec fn just_fits(uop: &Uop, output: &Buffer) -> bool {
    uop.shape matches Some(dims) && product(dims@) * uop.dtype.width() == output.size
}

proof fn lemma_just_fits(uop: &Uop, output: &Buffer)
    requires
        just_fits(uop, output),
    ensures
        crate::realize::wirable(uop, output),
        capacity(output, uop.dtype) == product(uop.shape->0@),
{
    let count = capacity(output, uop.dtype);
    let wanted = product(uop.shape->0@);
    let width = uop.dtype.width();
    law_elements_are_the_product_of_the_axes(uop.shape->0@);
    lemma_capacity(output, uop);
    assert(count == wanted) by (nonlinear_arith)
        requires
            count * width <= wanted * width,
            wanted * width < (count + 1) * width,
            width > 0,
    ;
}

/// A plan that was prepared is run, and the tensor changes only then. An output that just
/// fits is taken on and published in the place of what was run; a run that failed leaves
/// the tensor, and says why. A plan that could not be prepared is an error, unless there
/// was nothing to run because the tensor was realized meanwhile, and the run is not
/// profiled.
pub proof fn law_tensors_change_once_they_ran(
    before: &Tensor,
    after: &Tensor,
    purpose: Purpose,
    state: RealizeState,
    event: RealizeEvent,
    id: u64,
    next: u64,
    registered: Seq<Registration>,
    registered_after: Seq<Registration>,
    step: (Option<RealizeState>, RealizeAction),
)
    requires
        realize_awaits(state, event),
        realize_steps(before, after, purpose, state, event, id, next, registered, registered_after, step),
    ensures
        event matches RealizeEvent::Prepared(Ok(output)) ==> *after == *before && step.1 is Execute && (step.0 matches Some(
            RealizeState::Running { uop, output: kept },
        ) && kept == output && state == (RealizeState::Preparing { uop })),
        event matches RealizeEvent::Prepared(Err(error)) ==> *after == *before && step.0 is None && (step.1 is Adopt <==> (
        error is NoKernelsFound && before.uop.has_buffer_identity && purpose is Realize)) && (!(step.1 is Adopt)
            ==> step.1 == RealizeAction::Fail(error)),
        event matches RealizeEvent::Executed(Err(why)) ==> *after == *before && step.0 is None && registered_after
            == registered && (step.1 matches RealizeAction::Fail(Error::Stage { message, .. }) && message == why),
        event matches RealizeEvent::Executed(Ok(_)) ==> {
            let uop = state->Running_uop;
            let output = state->Running_output;
            &&& step.0 is None
            &&& registered_after.len() == registered.len() + 1
            &&& registered_after.last().buffer == output
            &&& registered_after.last().buffer_id == id
            &&& registered_after.last().entry_id == before.entry_id
            &&& just_fits(&uop, &output) ==> {
                &&& step.1 == (RealizeAction::Publish { old: uop.id, new: after.uop.id })
                &&& after.buffer == Some(output)
                &&& after.uop.dtype == uop.dtype
                &&& after.uop.shape matches Some(dims) && dims@ == uop.shape->0@
                &&& reads_buffer(after.uop.graph.root(), &uop, &output, id, product(uop.shape->0@))
                &&& next == id + 2
            }
            &&& uop.shape is None ==> *after == *before && step.1 == RealizeAction::Fail(Error::ShapeUnknown)
        },
{
    if let RealizeState::Running { uop, output } = state {
        if just_fits(&uop, &output) {
            lemma_just_fits(&uop, &output);
        }
    }
}

/// A tensor whose plan is prepared reads the plan's first output, where it just fits, in
/// its own shape and type. Without an output, or without a plan, nothing changes.
pub proof fn law_prepared_tensors_read_the_first_output(
    before: &Tensor,
    after: &Tensor,
    outputs: Result<Vec<Buffer>, Error>,
    id: u64,
    next: u64,
    registered: Seq<Registration>,
    registered_after: Seq<Registration>,
    done: Result<(), Error>,
)
    requires
        prepares_with(before, after, outputs, id, next, registered, registered_after, done),
    ensures
        outputs matches Err(error) ==> *after == *before && done == Err::<(), Error>(error) && registered_after
            == registered,
        outputs matches Ok(list) ==> {
            &&& list@.len() == 0 ==> *after == *before && done is Ok && registered_after == registered
            &&& list@.len() > 0 ==> registered_after.len() == registered.len() + 1 && registered_after.last().buffer
                == list@[0] && registered_after.last().buffer_id == id
            &&& list@.len() > 0 && just_fits(&before.uop, &list@[0]) ==> {
                &&& done is Ok
                &&& after.buffer == Some(list@[0])
                &&& after.uop.dtype == before.uop.dtype
                &&& after.uop.shape matches Some(dims) && dims@ == before.uop.shape->0@
                &&& reads_buffer(after.uop.graph.root(), &before.uop, &list@[0], id, product(before.uop.shape->0@))
            }
            &&& list@.len() > 0 && before.uop.shape is None ==> done == Err::<(), Error>(Error::ShapeUnknown) && *after
                == *before
        },
{
    if let Ok(list) = outputs {
        if list@.len() > 0 && just_fits(&before.uop, &list@[0]) {
            lemma_just_fits(&before.uop, &list@[0]);
        }
    }
}

// ---------------------------------------------------------------------------
// Batches
// ---------------------------------------------------------------------------

/// A node binds `name` to `value`.
pub open spec fn one_binds(nodes: Seq<Node>, name: Seq<char>, value: i64) -> bool {
    exists|i: int| #[trigger] binds(nodes, i, name, value)
}

/// One of the first `k` graphs binds `name` to `value`.
pub open spec fn some_binds(graphs: Seq<Graph>, k: nat, name: Seq<char>, value: i64) -> bool {
    exists|g: int, i: int| 0 <= g < k && #[trigger] binds(graphs[g].nodes@, i, name, value)
}

/// The values of several graphs are those that any of them binds, and there are none
/// if and only if two bindings of one variable disagree.
pub proof fn law_batch_values_are_the_bound_ones(graphs: Seq<Graph>, k: nat, name: Seq<char>, value: i64)
    requires
        k <= graphs.len(),
    ensures
        batch_values(graphs, k) matches Some(vars) ==> (vars.contains_pair(name, value) <==> some_binds(
            graphs,
            k,
            name,
            value,
        )),
        batch_values(graphs, k) is None <==> exists|other: Seq<char>, x: i64, y: i64| #[trigger]
            some_binds(graphs, k, other, x) && #[trigger] some_binds(graphs, k, other, y) && x != y,
    decreases k,
{
    if k == 0 {
        assert forall|other: Seq<char>, x: i64| !#[trigger] some_binds(graphs, k, other, x) by {}
    } else {
        let p = (k - 1) as nat;
        law_batch_values_are_the_bound_ones(graphs, p, name, value);
        let nodes = graphs[k - 1].nodes@;
        let own = gathered(binding_of(nodes), nodes.len());
        assert forall|other: Seq<char>, x: i64| #[trigger] some_binds(graphs, k, other, x) <==> some_binds(
            graphs,
            p,
            other,
            x,
        ) || one_binds(nodes, other, x) by {
            lemma_some_binds(graphs, k, other, x);
        }
        law_contradictions_are_found(nodes);
        match batch_values(graphs, p) {
            None => {
                let (other, x, y) = choose|other: Seq<char>, x: i64, y: i64| #[trigger]
                    some_binds(graphs, p, other, x) && #[trigger] some_binds(graphs, p, other, y) && x != y;
                assert(some_binds(graphs, k, other, x) && some_binds(graphs, k, other, y) && x != y);
            },
            Some(earlier) => {
                assert forall|other: Seq<char>, x: i64| #[trigger] some_binds(graphs, p, other, x) <==> earlier.contains_pair(
                    other,
                    x,
                ) by {
                    law_batch_values_are_the_bound_ones(graphs, p, other, x);
                }
                if rebinds_somewhere(nodes) {
                    let (a, b, other, x, y) = choose|a: int, b: int, other: Seq<char>, x: i64, y: i64| #[trigger]
                        binds(nodes, a, other, x) && #[trigger] binds(nodes, b, other, y) && x != y;
                    assert(some_binds(graphs, k, other, x) && some_binds(graphs, k, other, y) && x != y);
                } else {
                    assert forall|other: Seq<char>, x: i64| #[trigger] own.contains_pair(other, x) <==> one_binds(
                        nodes,
                        other,
                        x,
                    ) by {
                        assert forall|i: int| 0 <= i < nodes.len() implies !#[trigger] rebinds(binding_of(nodes), i) by {
                            assert(!rebinds_somewhere(nodes));
                        }
                        law_extracted_values_are_the_bound_ones(&graphs[k - 1], own, other, x);
                    }
                    if !earlier.agrees(own) {
                        let other = choose|other: Seq<char>|
                            earlier.dom().contains(other) && own.dom().contains(other) && earlier[other] != own[other];
                        let (x, y) = (earlier[other], own[other]);
                        assert(earlier.contains_pair(other, x) && own.contains_pair(other, y));
                        assert(some_binds(graphs, k, other, x) && some_binds(graphs, k, other, y) && x != y);
                    } else {
                        let vars = earlier.union_prefer_right(own);
                        assert forall|other: Seq<char>, x: i64| #[trigger] some_binds(graphs, k, other, x)
                            <==> vars.contains_pair(other, x) by {
                            if earlier.contains_pair(other, x) && own.dom().contains(other) {
                                assert(own[other] == earlier[other]);
                            }
                            assert(some_binds(graphs, p, other, x) <==> earlier.contains_pair(other, x));
                            assert(own.contains_pair(other, x) <==> one_binds(nodes, other, x));
                        }
                        assert(some_binds(graphs, k, name, value) <==> vars.contains_pair(name, value));
                    }
                }
            },
        }
    }
}

proof fn lemma_some_binds(graphs: Seq<Graph>, k: nat, name: Seq<char>, value: i64)
    requires
        0 < k <= graphs.len(),
    ensures
        some_binds(graphs, k, name, value) <==> some_binds(graphs, (k - 1) as nat, name, value) || one_binds(
            graphs[k - 1].nodes@,
            name,
            value,
        ),
{
    if some_binds(graphs, k, name, value) {
        let (g, i) = choose|g: int, i: int| 0 <= g < k && #[trigger] binds(graphs[g].nodes@, i, name, value);
        assert(binds(graphs[g].nodes@, i, name, value));
        if g == k - 1 {
            assert(one_binds(graphs[k - 1].nodes@, name, value));
        }
    }
    let nodes = graphs[k - 1].nodes@;
    if one_binds(nodes, name, value) {
        let i = choose|i: int| #[trigger] binds(nodes, i, name, value);
        assert(binds(graphs[k - 1].nodes@, i, name, value));
    }
}

/// A tensor has a computation to run in a batch.
pub open spec fn waits(tensor: Tensor) -> bool {
    !tensor.uop.has_buffer_identity && (tensor.uop.shape matches Some(dims) ==> product(dims@) != 0)
}

proof fn lemma_empty_shape(tensor: Tensor)
    ensures
        is_empty_shape(tensor.uop.shape) <==> (tensor.uop.shape matches Some(dims) && product(dims@) == 0),
{
    if let Some(dims) = tensor.uop.shape {
        law_elements_are_the_product_of_the_axes(dims@);
    }
}

/// What a batch is made of: `pending` are the tensors that wait, in order, and the
/// graph has an output for each, in the same order.
pub open spec fn holds_those_that_wait(tensors: Seq<Tensor>, batch: &Batch, constants: bool) -> bool {
    let pending = batch.pending@;
    let root = batch.sink.root();
    &&& forall|a: int, b: int| #![trigger pending[a], pending[b]] 0 <= a < b < pending.len() ==> pending[a] < pending[b]
    &&& forall|i: int|
        #![trigger tensors[i]]
        0 <= i < tensors.len() ==> (pending.contains(i as usize) <==> waits(tensors[i]) && (constants
            || !tensors[i].uop.constant))
    &&& root.op is Sink
    &&& root.srcs.len() == pending.len()
    &&& forall|k: int|
        #![trigger pending[k]]
        0 <= k < pending.len() ==> {
            let tensor = tensors[pending[k] as int];
            let output = root.srcs[k];
            &&& pending[k] < tensors.len()
            &&& output.op is Contiguous && output.srcs.len() == 1
            &&& !tensor.uop.constant ==> output.srcs[0] == tensor.uop.graph.root()
            &&& tensor.uop.constant ==> output.srcs[0].op is Contiguous && output.srcs[0].srcs == seq![
                tensor.uop.graph.root(),
            ]
        }
}

/// A batch computes every tensor that waits, once and in order, and nothing else; its
/// variables have the values that those tensors bind.
pub proof fn law_batches_hold_every_waiting_tensor(
    tensors: Seq<Tensor>,
    batch: Batch,
    prepared: bool,
    name: Seq<char>,
    value: i64,
)
    requires
        tensors.len() <= usize::MAX,
        if prepared {
            prepare_batch_begins(tensors, Ok(batch))
        } else {
            realize_batch_begins(tensors, Ok(Some(batch)))
        },
    ensures
        batch.pending@.len() > 0,
        holds_those_that_wait(tensors, &batch, prepared),
        batch.var_vals@.contains_pair(name, value) <==> some_binds(
            pending_graphs(tensors, batch.pending@),
            batch.pending@.len(),
            name,
            value,
        ),
{
    let pending = batch.pending@;
    let graphs = pending_graphs(tensors, pending);
    law_batch_values_are_the_bound_ones(graphs, pending.len(), name, value);
    let terms = pending_terms(tensors, pending);
    law_sinks_hold_every_output(terms, terms, 0);
    assert forall|i: int| #![trigger tensors[i]] 0 <= i < tensors.len() implies (pending.contains(i as usize) <==> waits(
        tensors[i],
    ) && (prepared || !tensors[i].uop.constant)) by {
        lemma_empty_shape(tensors[i]);
        if pending.contains(i as usize) {
            let a = choose|a: int| 0 <= a < pending.len() && pending[a] == i as usize;
            assert(pending[a] < tensors.len());
        }
    }
    assert forall|k: int| #![trigger pending[k]] 0 <= k < pending.len() implies ({
        let tensor = tensors[pending[k] as int];
        let output = batch.sink.root().srcs[k];
        &&& pending[k] < tensors.len()
        &&& output.op is Contiguous && output.srcs.len() == 1
        &&& !tensor.uop.constant ==> output.srcs[0] == tensor.uop.graph.root()
        &&& tensor.uop.constant ==> output.srcs[0].op is Contiguous && output.srcs[0].srcs == seq![
            tensor.uop.graph.root(),
        ]
    }) by {
        law_sinks_hold_every_output(terms, terms, k);
    }
}

/// A batch has nothing to do if and only if no tensor waits, and it fails for its
/// variables only where two bindings of one disagree.
pub proof fn law_batches_fail_for_a_reason(tensors: Seq<Tensor>, error: Error, i: int)
    requires
        0 <= i < tensors.len(),
    ensures
        realize_batch_begins(tensors, Ok(None)) ==> !waits(tensors[i]) || tensors[i].uop.constant,
        prepare_batch_begins(tensors, Err(error)) ==> (error is EmptySchedule && !waits(tensors[i])) || (
        error is IrConstruction),
        realize_batch_begins(tensors, Err(error)) ==> error is IrConstruction,
{
    lemma_empty_shape(tensors[i]);
}

/// When a batch ends, each pending tensor has the output of its turn, under ids of its
/// own, in its own shape and type, and every other tensor is as it was. What is
/// published leads from each old computation to the new one.
pub proof fn law_outputs_go_to_their_tensors(
    before: Seq<Tensor>,
    after: Seq<Tensor>,
    pending: Seq<usize>,
    outputs: Seq<Buffer>,
    start: u64,
    end: u64,
    added: Seq<Registration>,
    becomes: Vec<(u64, u64)>,
    j: int,
    i: int,
)
    requires
        batch_finishes(before, after, pending, outputs, start, end, added, Ok(becomes)),
        0 <= j < pending.len(),
        pending[j] < before.len(),
        0 <= i < before.len(),
        start + 2 * pending.len() <= u64::MAX,
    ensures
        outputs.len() == pending.len(),
        after.len() == before.len(),
        !pending.contains(i as usize) && i <= usize::MAX ==> after[i] == before[i],
        ({
            let at = pending[j] as int;
            let id = start + 2 * j;
            &&& after[at].buffer == Some(outputs[j])
            &&& after[at].entry_id == before[at].entry_id
            &&& after[at].uop.dtype == before[at].uop.dtype
            &&& after[at].uop.has_buffer_identity
            &&& before[at].uop.shape matches Some(dims) ==> (after[at].uop.shape matches Some(own) && own@ == dims@)
            &&& after[at].uop.graph.root().srcs[0].op matches Op::Buffer { arg } && arg.id == id && arg.dtype
                == before[at].uop.dtype && arg.device == Some(outputs[j].device)
            &&& added[j].buffer_id == id && added[j].entry_id == before[at].entry_id && added[j].buffer == outputs[j]
            &&& becomes@[j].0 == before[at].uop.id
            &&& becomes@[j].1 == after[at].uop.id
        }),
{
    let _ = becomes@[j];
    let all = pending.subrange(0, pending.len() as int);
    assert(all =~= pending);
}

/// A batch is run only if its plan has an output for each tensor that waits, and no tensor
/// takes an output on before that. A failure ends it, leaves the tensors and is what it ends
/// with; a batch that was run is published.
pub proof fn law_batches_are_run_whole(
    before: Seq<Tensor>,
    after: Seq<Tensor>,
    state: BatchState,
    event: BatchEvent,
    id: u64,
    next: u64,
    registered: Seq<Registration>,
    registered_after: Seq<Registration>,
    step: (Option<BatchState>, BatchAction),
)
    requires
        batch_awaits(state, event, before.len()),
        realize_batch_steps(before, after, state, event, id, next, registered, registered_after, step),
    ensures
        state is Starting ==> step.1 is Skip || step.1 is Fail || step.1 is Prepare,
        event matches BatchEvent::Prepared(prepared) ==> after == before && registered_after == registered && ({
            let pending = state->Preparing_pending;
            &&& prepared matches Err(error) ==> step.0 is None && step.1 == BatchAction::Fail(error)
            &&& prepared matches Ok(outputs) ==> {
                &&& outputs@.len() == pending@.len() ==> step.1 is Execute && step.0 == Some(
                    BatchState::Running { pending, outputs },
                )
                &&& outputs@.len() != pending@.len() ==> step.0 is None && step.1 == BatchAction::Fail(
                    Error::BatchOutputMismatch {
                        expected: pending@.len() as usize,
                        actual: outputs@.len() as usize,
                    },
                )
            }
        }),
        event matches BatchEvent::Executed(executed) ==> step.0 is None && ({
            &&& executed matches Err(why) ==> after == before && registered_after == registered && (step.1 matches
                BatchAction::Fail(Error::Stage { message, .. }) && message == why)
            &&& executed is Ok && (forall|j: int|
                #![trigger state->Running_pending@[j]]
                0 <= j < state->Running_pending@.len() ==> just_fits(
                    &before[state->Running_pending@[j] as int].uop,
                    &state->Running_outputs@[j],
                )) ==> step.1 is Publish
        }),
{
    if let BatchState::Running { pending, outputs } = state {
        if forall|j: int|
            #![trigger pending@[j]]
            0 <= j < pending@.len() ==> just_fits(&before[pending@[j] as int].uop, &outputs@[j]) {
            assert forall|j: int| #![trigger pending@[j]] 0 <= j < pending@.len() implies crate::realize::wirable(
                &before[pending@[j] as int].uop,
                &outputs@[j],
            ) by {
                lemma_just_fits(&before[pending@[j] as int].uop, &outputs@[j]);
            }
        }
    }
}

/// Preparing a batch changes no tensor until its plan is there with an output for each that
/// waits; then each reads its output, where all just fit.
pub proof fn law_batches_are_prepared_whole(
    before: Seq<Tensor>,
    after: Seq<Tensor>,
    state: BatchState,
    event: BatchEvent,
    id: u64,
    next: u64,
    registered: Seq<Registration>,
    registered_after: Seq<Registration>,
    step: (Option<BatchState>, BatchAction),
)
    requires
        batch_awaits(state, event, before.len()),
        !(state is Running),
        prepare_batch_steps(before, after, state, event, id, next, registered, registered_after, step),
    ensures
        event is Begin ==> after == before && registered_after == registered && (step.1 is Prepare || step.1 is Fail),
        event matches BatchEvent::Prepared(prepared) ==> step.0 is None && ({
            let pending = state->Preparing_pending;
            &&& prepared matches Err(error) ==> after == before && step.1 == BatchAction::Fail(error)
            &&& prepared matches Ok(outputs) ==> {
                &&& outputs@.len() != pending@.len() ==> after == before && step.1 == BatchAction::Fail(
                    Error::BatchOutputMismatch {
                        expected: pending@.len() as usize,
                        actual: outputs@.len() as usize,
                    },
                )
                &&& outputs@.len() == pending@.len() && (forall|j: int|
                    #![trigger pending@[j]]
                    0 <= j < pending@.len() ==> just_fits(&before[pending@[j] as int].uop, &outputs@[j]))
                    ==> step.1 is Wired && forall|j: int|
                    #![trigger pending@[j]]
                    0 <= j < pending@.len() ==> after[pending@[j] as int].buffer == Some(outputs@[j])
            }
        }),
{
    if let BatchState::Preparing { pending } = state {
        if let BatchEvent::Prepared(Ok(outputs)) = event {
            if outputs@.len() == pending@.len() && (forall|j: int|
                #![trigger pending@[j]]
                0 <= j < pending@.len() ==> just_fits(&before[pending@[j] as int].uop, &outputs@[j])) {
                assert forall|j: int| #![trigger pending@[j]] 0 <= j < pending@.len() implies crate::realize::wirable(
                    &before[pending@[j] as int].uop,
                    &outputs@[j],
                ) by {
                    lemma_just_fits(&before[pending@[j] as int].uop, &outputs@[j]);
                }
            }
        }
    }
}

/// Before a batch, a constant without a buffer is made contiguous, in its own shape
/// and type, so that it waits too; any other tensor is left as it is.
pub proof fn law_constants_join_the_batch(before: Seq<Tensor>, after: Seq<Tensor>, i: int)
    requires
        constants_wrapped(before, after),
        0 <= i < before.len(),
    ensures
        after.len() == before.len(),
        after[i].entry_id == before[i].entry_id,
        after[i].buffer == before[i].buffer,
        after[i].uop.dtype == before[i].uop.dtype,
        waits(after[i]) <==> waits(before[i]),
        before[i].uop.has_buffer_identity || !before[i].uop.constant ==> after[i].uop == before[i].uop,
        !before[i].uop.has_buffer_identity && before[i].uop.constant ==> !after[i].uop.constant
            && after[i].uop.graph.root().op is Contiguous && after[i].uop.graph.root().srcs == seq![
            before[i].uop.graph.root(),
        ],
{
    let _ = after[i];
}

} // verus!
