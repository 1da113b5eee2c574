//! Tensors, and how their computation is realized into buffers.

use vstd::prelude::*;
use vstd::string::*;

use crate::device::ScalarDType;
use crate::error::Error;
use crate::graph::{
    binding, binding_of, contiguous_term, extract_var_vals, first_rebind, gathered, graphs_agree, rebinds, roots,
    same_nodes, sink_of, sink_size, sink_term, AddrSpace, BufferArg, Graph, Node, Op, Term,
};
use crate::schedule::{copy_usizes, Buffer};
use crate::vars::{bind_mismatch, first_conflict, lemma_entries_map, merge_var_vals_checked, VarVals};

verus! {

/// A computation, with what realizing it reads of it.
#[derive(Debug, PartialEq, Eq)]
pub struct Uop {
    pub id: u64,
    pub graph: Graph,
    /// Whether it is a buffer, or a view of one that has its identity.
    pub has_buffer_identity: bool,
    /// Whether it is a constant.
    pub constant: bool,
    /// The number of elements along each axis, or none where the shape is not
    /// known. Each axis is a number: one whose size depends on a variable cannot be
    /// written.
    pub shape: Option<Vec<usize>>,
    pub dtype: ScalarDType,
}

/// A tensor: a computation, and its buffer once it has one.
#[derive(Debug, PartialEq, Eq)]
pub struct Tensor {
    /// The tensor's entry in its registry.
    pub entry_id: u64,
    pub uop: Uop,
    pub buffer: Option<Buffer>,
}

/// A buffer that is registered: scheduling finds it under the id of its node, for
/// as long as the tensor of the entry lives.
#[derive(Debug, PartialEq, Eq)]
pub struct Registration {
    pub buffer_id: u64,
    pub entry_id: u64,
    pub buffer: Buffer,
}

/// A shape has an axis of no elements.
pub open spec fn is_empty_shape(shape: Option<Vec<usize>>) -> bool {
    shape matches Some(dims) && exists|i: int| #![trigger dims@[i]] 0 <= i < dims@.len() && dims@[i] == 0
}

/// The number of elements along the first `k` axes.
pub open spec fn elements(dims: Seq<usize>, k: nat) -> nat
    decreases k,
{
    if k == 0 {
        1
    } else {
        elements(dims, (k - 1) as nat) * dims[k - 1] as nat
    }
}

/// Two shapes are the same.
pub open spec fn same_shape(a: Option<Vec<usize>>, b: Option<Vec<usize>>) -> bool {
    match (a, b) {
        (Some(x), Some(y)) => x@ == y@,
        (None, None) => true,
        _ => false,
    }
}

fn has_zero(dims: &Vec<usize>) -> (zero: bool)
    ensures
        zero == exists|i: int| #![trigger dims@[i]] 0 <= i < dims@.len() && dims@[i] == 0,
{
    let mut i: usize = 0;
    while i < dims.len()
        invariant
            i <= dims@.len(),
            forall|k: int| #![trigger dims@[k]] 0 <= k < i ==> dims@[k] != 0,
        decreases dims@.len() - i,
    {
        if dims[i] == 0 {
            assert(dims@[i as int] == 0);
            return true;
        }
        i = i + 1;
    }
    false
}

proof fn lemma_elements_zero(dims: Seq<usize>, i: int, k: nat)
    requires
        0 <= i < k <= dims.len(),
        dims[i] == 0,
    ensures
        elements(dims, k) == 0,
    decreases k,
{
    if i < k - 1 {
        lemma_elements_zero(dims, i, (k - 1) as nat);
    }
    assert(elements(dims, (k - 1) as nat) * dims[k - 1] as nat == 0) by (nonlinear_arith)
        requires
            elements(dims, (k - 1) as nat) == 0 || dims[k - 1] == 0,
    ;
}

proof fn lemma_elements_grow(dims: Seq<usize>, k: nat, n: nat)
    requires
        k <= n <= dims.len(),
        forall|i: int| #![trigger dims[i]] 0 <= i < dims.len() ==> dims[i] != 0,
    ensures
        elements(dims, k) <= elements(dims, n),
    decreases n - k,
{
    if k < n {
        lemma_elements_grow(dims, k, (n - 1) as nat);
        let part = elements(dims, (n - 1) as nat);
        assert(dims[n - 1] != 0);
        assert(part <= part * dims[n - 1] as nat) by (nonlinear_arith)
            requires
                dims[n - 1] as nat >= 1,
        ;
    }
}

/// The number of elements of a shape, where it fits.
pub fn count_elements(dims: &Vec<usize>) -> (count: Option<usize>)
    ensures
        match count {
            Some(count) => count == elements(dims@, dims@.len()),
            None => elements(dims@, dims@.len()) > usize::MAX,
        },
{
    if has_zero(dims) {
        proof {
            let i = choose|i: int| #![trigger dims@[i]] 0 <= i < dims@.len() && dims@[i] == 0;
            lemma_elements_zero(dims@, i, dims@.len());
        }
        return Some(0);
    }
    let mut count: usize = 1;
    let mut i: usize = 0;
    while i < dims.len()
        invariant
            i <= dims@.len(),
            count == elements(dims@, i as nat),
            forall|k: int| #![trigger dims@[k]] 0 <= k < dims@.len() ==> dims@[k] != 0,
        decreases dims@.len() - i,
    {
        match count.checked_mul(dims[i]) {
            Some(product) => {
                count = product;
            }
            None => {
                proof {
                    assert(elements(dims@, (i + 1) as nat) > usize::MAX);
                    lemma_elements_grow(dims@, (i + 1) as nat, dims@.len());
                }
                return None;
            }
        }
        i = i + 1;
    }
    Some(count)
}

impl Uop {
    pub open spec fn wf(&self) -> bool {
        self.graph.wf() && self.graph.nodes@.len() < usize::MAX
    }

    /// Copies a computation.
    pub fn copy(&self) -> (copy: Uop)
        ensures
            same_uop(&copy, self),
    {
        let shape = match &self.shape {
            Some(dims) => Some(copy_usizes(dims)),
            None => None,
        };
        Uop {
            id: self.id,
            graph: self.graph.copy(),
            has_buffer_identity: self.has_buffer_identity,
            constant: self.constant,
            shape,
            dtype: self.dtype,
        }
    }

    /// This computation made contiguous, under `id`.
    pub open spec fn is_contiguous_of(&self, other: &Uop, id: u64) -> bool {
        &&& self.id == id
        &&& self.graph.wf()
        &&& self.graph.root() == contiguous_term(other.graph.root())
        &&& self.graph.nodes@.len() == other.graph.nodes@.len() + 1
        &&& forall|i: int|
            #![trigger self.graph.nodes@[i]]
            0 <= i < other.graph.nodes@.len() ==> self.graph.nodes@[i].op == other.graph.nodes@[i].op
        &&& self.graph.nodes@.last().op is Contiguous
        &&& !self.has_buffer_identity
        &&& !self.constant
        &&& same_shape(self.shape, other.shape)
        &&& self.dtype == other.dtype
    }

    /// This computation made contiguous: it then has to be computed into a
    /// buffer of its own.
    pub fn contiguous(&self, id: u64) -> (contiguous: Uop)
        requires
            self.wf(),
        ensures
            contiguous.is_contiguous_of(self, id),
    {
        let copy = self.graph.copy();
        let ghost nodes = copy.nodes@;
        let graph = copy.wrap(Op::Contiguous);
        proof {
            assert forall|i: int| #![trigger graph.nodes@[i]] 0 <= i < nodes.len() implies graph.nodes@[i].op
                == self.graph.nodes@[i].op by {
                assert(graph.nodes@.subrange(0, nodes.len() as int)[i] == nodes[i]);
            }
        }
        let shape = match &self.shape {
            Some(dims) => Some(copy_usizes(dims)),
            None => None,
        };
        Uop { id, graph, has_buffer_identity: false, constant: false, shape, dtype: self.dtype }
    }
}

/// What realizing a tensor begins with.
#[derive(Clone, Copy, Debug, PartialEq, Eq, Structural)]
pub enum RealizeStep {
    /// It has a buffer: that one is looked up, and nothing is run.
    AlreadyRealized,
    /// It has no elements: nothing is run.
    Empty,
    /// Its computation is prepared and run.
    Prepare,
}

/// A tensor has a computation that has to be run.
pub open spec fn is_pending(tensor: &Tensor) -> bool {
    !tensor.uop.has_buffer_identity && !tensor.uop.constant && !is_empty_shape(tensor.uop.shape)
}

impl Tensor {
    pub open spec fn wf(&self) -> bool {
        self.uop.wf()
    }

    /// A shape is known to have no elements.
    pub fn has_zero_elements(&self) -> (zero: bool)
        ensures
            zero == is_empty_shape(self.uop.shape),
    {
        match &self.uop.shape {
            Some(dims) => has_zero(dims),
            None => false,
        }
    }

    /// Begins to realize this tensor. One with a buffer is left as it is. A
    /// constant is made contiguous first, so that it is computed into a buffer;
    /// then a tensor without elements is done, and any other has to be prepared
    /// and run.
    pub fn begin_realize(&mut self, next_id: &mut u64) -> (step: RealizeStep)
        requires
            old(self).wf(),
            *old(next_id) < u64::MAX,
        ensures
            final(self).entry_id == old(self).entry_id,
            final(self).buffer == old(self).buffer,
            step == if old(self).uop.has_buffer_identity {
                RealizeStep::AlreadyRealized
            } else if is_empty_shape(old(self).uop.shape) {
                RealizeStep::Empty
            } else {
                RealizeStep::Prepare
            },
            if !old(self).uop.has_buffer_identity && old(self).uop.constant {
                final(self).uop.is_contiguous_of(&old(self).uop, *old(next_id)) && *final(next_id) == *old(next_id) + 1
            } else {
                final(self).uop == old(self).uop && *final(next_id) == *old(next_id)
            },
    {
        if self.uop.has_buffer_identity {
            return RealizeStep::AlreadyRealized;
        }
        if self.uop.constant {
            let contiguous = self.uop.contiguous(*next_id);
            *next_id = *next_id + 1;
            self.uop = contiguous;
        }
        if self.has_zero_elements() {
            return RealizeStep::Empty;
        }
        RealizeStep::Prepare
    }

    /// What scheduling this tensor's computation needs: a graph with it as the
    /// one output, made contiguous, and the values of its variables. Fails where
    /// it binds a variable to two values.
    pub fn plan_request(&self) -> (request: Result<(Graph, VarVals), Error>)
        requires
            self.wf(),
            self.uop.graph.nodes@.len() < usize::MAX - 1,
        ensures
            match request {
                Ok((sink, vars)) => {
                    &&& sink.wf()
                    &&& sink.root() == sink_term(seq![self.uop.graph.root()])
                    &&& vars.wf()
                    &&& vars@ == gathered(binding_of(self.uop.graph.nodes@), self.uop.graph.nodes@.len())
                    &&& !rebinds_somewhere(self.uop.graph.nodes@)
                },
                Err(error) => rebinds_somewhere(self.uop.graph.nodes@) && extraction_fault(
                    self.uop.graph.nodes@,
                    error,
                ),
            },
    {
        let vars = match extract_var_vals(&self.uop.graph) {
            Ok(vars) => vars,
            Err(error) => {
                proof {
                    let nodes = self.uop.graph.nodes@;
                    let i = choose|i: int|
                        #![trigger rebinds(binding_of(nodes), i)]
                        0 <= i < nodes.len() && first_rebind(binding_of(nodes), i);
                    assert(rebinds(binding_of(nodes), i));
                }
                return Err(error);
            }
        };
        let mut graphs: Vec<Graph> = Vec::new();
        graphs.push(self.uop.graph.copy());
        proof {
            let copy = graphs@[0];
            assert(sink_size(graphs@, 1) == sink_size(graphs@, 0) + copy.nodes@.len() + 1);
            assert forall|g: int, h: int, i: int, j: int|
                #![trigger graphs@[g].nodes@[i], graphs@[h].nodes@[j]]
                0 <= g < graphs@.len() && 0 <= h < graphs@.len() && 0 <= i < graphs@[g].nodes@.len() && 0 <= j
                    < graphs@[h].nodes@.len() implies (graphs@[g].nodes@[i].op matches Op::Buffer { arg: a }
                ==> graphs@[h].nodes@[j].op matches Op::Buffer { arg: b } ==> a.id == b.id ==> a == b) by {
                assert(copy.nodes@[i] == graphs@[g].nodes@[i] && copy.nodes@[j] == graphs@[h].nodes@[j]);
            }
            assert(graphs_agree(graphs@));
            assert(roots(graphs@) =~= seq![self.uop.graph.root()]);
        }
        Ok((sink_of(&graphs), vars))
    }

    /// What a failure to prepare means: if another thread has realized an equal
    /// tensor meanwhile, this one has that buffer, its schedule was empty for
    /// it, and all is well. Any other failure stands.
    pub fn adopt_concurrently_realized(&self, error: Error) -> (adopted: Result<(), Error>)
        ensures
            if error is NoKernelsFound && self.uop.has_buffer_identity {
                adopted is Ok
            } else {
                adopted == Err::<(), Error>(error)
            },
    {
        let none_found = match &error {
            Error::NoKernelsFound => true,
            _ => false,
        };
        if none_found && self.uop.has_buffer_identity {
            return Ok(());
        }
        Err(error)
    }
}

/// The number of elements of type `dtype` that a buffer holds.
pub open spec fn capacity(output: &Buffer, dtype: ScalarDType) -> usize {
    (output.size as int / dtype.width() as int) as usize
}

/// A tensor's shape is known and a buffer holds as many elements.
pub open spec fn wirable(uop: &Uop, output: &Buffer) -> bool {
    uop.shape matches Some(dims) && elements(dims@, dims@.len()) == capacity(output, uop.dtype)
}

/// Why a buffer cannot be a tensor's.
pub open spec fn wiring_fault(uop: &Uop, output: &Buffer, error: Error) -> bool {
    match uop.shape {
        None => error is ShapeUnknown,
        Some(dims) => error matches Error::ReshapeMismatch { elements, shape } && elements == capacity(
            output,
            uop.dtype,
        ) && shape@ == dims@,
    }
}

/// The allocation that a realized tensor's graph names.
pub open spec fn realized_buffer(output: &Buffer, dtype: ScalarDType, id: u64) -> BufferArg {
    BufferArg {
        id,
        slot: id,
        dtype,
        addrspace: Some(AddrSpace::Global),
        device: Some(output.device),
        size: Some(capacity(output, dtype)),
        schedule_local: false,
    }
}

/// A buffer in the shape of a tensor.
pub open spec fn realized_term(output: &Buffer, dtype: ScalarDType, id: u64) -> Term {
    Term {
        op: Op::Reshape,
        srcs: seq![
            Term { op: Op::Buffer { arg: realized_buffer(output, dtype, id) }, srcs: Seq::empty() },
        ],
    }
}

/// `realized` is the buffer `output` in the shape and type of `uop`, under the
/// ids `id` and `id + 1`.
pub open spec fn is_realization(realized: &Uop, uop: &Uop, output: &Buffer, id: u64) -> bool {
    &&& realized.id == id + 1
    &&& realized.wf()
    &&& realized.graph.nodes@.len() == 2
    &&& realized.graph.root() == realized_term(output, uop.dtype, id)
    &&& realized.graph.nodes@[0].op == (Op::Buffer { arg: realized_buffer(output, uop.dtype, id) })
    &&& realized.has_buffer_identity
    &&& !realized.constant
    &&& same_shape(realized.shape, uop.shape)
    &&& realized.dtype == uop.dtype
}

/// `after` is `before`, realized into `output`.
pub open spec fn realized_as(before: &Tensor, after: &Tensor, uop: &Uop, output: &Buffer, id: u64) -> bool {
    &&& after.entry_id == before.entry_id
    &&& after.buffer == Some(*output)
    &&& is_realization(&after.uop, uop, output, id)
}

/// What comes of making `output` a tensor's buffer, in the shape and the type of
/// `uop`, where ids from `id` on are free before and from `end` on after.
pub open spec fn takes_on(
    before: &Tensor,
    after: &Tensor,
    uop: &Uop,
    output: &Buffer,
    id: u64,
    end: u64,
    done: Result<(), Error>,
) -> bool {
    &&& done is Ok <==> wirable(uop, output)
    &&& match done {
        Ok(()) => realized_as(before, after, uop, output, id) && end == id + 2,
        Err(error) => *after == *before && end == id + 1 && wiring_fault(uop, output, error),
    }
}

/// How `output` is registered for a tensor that it is the value of, where `id` is
/// the id of its node.
pub open spec fn registration(tensor: &Tensor, output: &Buffer, id: u64) -> Registration {
    Registration { buffer_id: id, entry_id: tensor.entry_id, buffer: *output }
}

/// The buffer `output` in the shape and type of `uop`, registered for the tensor
/// of the entry. Fails where the shape is not known or does not fit the buffer,
/// which is registered then all the same.
fn realize_into(
    uop: &Uop,
    output: &Buffer,
    entry_id: u64,
    next_id: &mut u64,
    registered: &mut Vec<Registration>,
) -> (realized: Result<Uop, Error>)
    requires
        *old(next_id) < u64::MAX - 2,
    ensures
        final(registered)@ == old(registered)@.push(
            (Registration { buffer_id: *old(next_id), entry_id, buffer: *output }),
        ),
        realized is Ok <==> wirable(uop, output),
        match realized {
            Ok(realized) => is_realization(&realized, uop, output, *old(next_id)) && *final(next_id) == *old(next_id)
                + 2,
            Err(error) => wiring_fault(uop, output, error) && *final(next_id) == *old(next_id) + 1,
        },
{
    let count: usize = output.size / uop.dtype.bytes();
    let id = *next_id;
    *next_id = id + 1;
    registered.push(Registration { buffer_id: id, entry_id, buffer: output.copy() });
    let dims = match &uop.shape {
        Some(dims) => dims,
        None => return Err(Error::ShapeUnknown),
    };
    let fits = match count_elements(dims) {
        Some(wanted) => wanted == count,
        None => false,
    };
    if !fits {
        return Err(Error::ReshapeMismatch { elements: count, shape: copy_usizes(dims) });
    }
    let arg = BufferArg {
        id,
        slot: id,
        dtype: uop.dtype,
        addrspace: Some(AddrSpace::Global),
        device: Some(output.device.copy()),
        size: Some(count),
        schedule_local: false,
    };
    let graph = Graph::buffer(arg).wrap(Op::Reshape);
    *next_id = id + 2;
    Ok(
        Uop {
            id: id + 1,
            graph,
            has_buffer_identity: true,
            constant: false,
            shape: Some(copy_usizes(dims)),
            dtype: uop.dtype,
        },
    )
}

impl Tensor {
    /// Makes `output` this tensor's buffer, in the shape and the type of `uop`,
    /// the computation that was run, and registers it. Fails, and leaves the tensor
    /// as it is, where the shape is not known or does not fit the buffer, which is
    /// registered then all the same.
    pub fn finalize_realize(
        &mut self,
        output: &Buffer,
        uop: &Uop,
        next_id: &mut u64,
        registered: &mut Vec<Registration>,
    ) -> (done: Result<(), Error>)
        requires
            *old(next_id) < u64::MAX - 2,
        ensures
            final(registered)@ == old(registered)@.push(registration(old(self), output, *old(next_id))),
            takes_on(old(self), final(self), uop, output, *old(next_id), *final(next_id), done),
    {
        match realize_into(uop, output, self.entry_id, next_id, registered) {
            Ok(realized) => {
                self.uop = realized;
                self.buffer = Some(output.copy());
                Ok(())
            }
            Err(error) => Err(error),
        }
    }

    /// Makes a plan's first output this tensor's buffer, where the plan has
    /// one, so that the tensor reads what the plan computes.
    pub fn wire_output_tensor(
        &mut self,
        outputs: &Vec<Buffer>,
        uop: &Uop,
        next_id: &mut u64,
        registered: &mut Vec<Registration>,
    ) -> (done: Result<(), Error>)
        requires
            *old(next_id) < u64::MAX - 2,
        ensures
            if outputs@.len() == 0 {
                done is Ok && *final(self) == *old(self) && *final(next_id) == *old(next_id) && final(registered)@
                    == old(registered)@
            } else {
                &&& final(registered)@ == old(registered)@.push(registration(old(self), &outputs@[0], *old(next_id)))
                &&& done is Ok <==> wirable(uop, &outputs@[0])
                &&& match done {
                    Ok(()) => realized_as(old(self), final(self), uop, &outputs@[0], *old(next_id)) && *final(next_id)
                        == *old(next_id) + 2,
                    Err(error) => *final(self) == *old(self) && *final(next_id) == *old(next_id) + 1 && wiring_fault(
                        uop,
                        &outputs@[0],
                        error,
                    ),
                }
            },
    {
        if outputs.len() > 0 {
            return self.finalize_realize(&outputs[0], uop, next_id, registered);
        }
        Ok(())
    }
}

/// A realized tensor's computation reads the buffer that was registered for it:
/// the graph names one buffer, under the id of the registration, which holds the
/// tensor's own buffer and its entry.
pub proof fn law_realized_tensors_read_what_was_registered(
    before: &Tensor,
    after: &Tensor,
    uop: &Uop,
    output: &Buffer,
    id: u64,
    i: int,
)
    requires
        realized_as(before, after, uop, output, id),
        0 <= i < after.uop.graph.nodes@.len(),
        after.uop.graph.nodes@[i].op is Buffer,
    ensures
        ({
            let entry = registration(before, output, id);
            let arg = after.uop.graph.nodes@[i].op->Buffer_arg;
            &&& arg.id == entry.buffer_id
            &&& arg.device == Some(entry.buffer.device)
            &&& after.buffer == Some(entry.buffer)
            &&& after.entry_id == entry.entry_id
        }),
{
    let root = after.uop.graph.root();
    assert(root.op == after.uop.graph.nodes@[1].op);
}

// ---------------------------------------------------------------------------
// One tensor
// ---------------------------------------------------------------------------

/// What a tensor is run for.
#[derive(Clone, Copy, Debug, PartialEq, Eq, Structural)]
pub enum Purpose {
    /// Its value.
    Realize,
    /// Its value, and how long its kernels take.
    Profile,
}

/// What realizing a tensor waits for.
#[derive(Debug, PartialEq, Eq)]
pub enum RealizeState {
    Starting,
    /// The plan of `uop`.
    Preparing { uop: Uop },
    /// The run of the plan, which computes `uop` into `output`.
    Running { uop: Uop, output: Buffer },
}

/// What came of the last action of realizing a tensor.
#[derive(Debug, PartialEq, Eq)]
pub enum RealizeEvent {
    Begin,
    /// The plan was prepared; its first output.
    Prepared(Result<Buffer, Error>),
    /// The plan was run.
    Executed(Result<(), String>),
}

/// What realizing a tensor does next.
#[derive(Debug, PartialEq, Eq)]
pub enum RealizeAction {
    /// Prepare the plan of this graph with these values.
    Prepare { sink: Graph, var_vals: VarVals },
    /// Run the plan.
    Execute,
    /// The tensor has a buffer, which was there before: look it up. Nothing is
    /// left to do.
    Adopt,
    /// Nothing was to do.
    Skip,
    /// The tensor has its buffer: put `new` in the place of `old` in all other
    /// tensors. Nothing else is left to do.
    Publish { old: u64, new: u64 },
    Fail(Error),
}

/// Whether an event can happen to a tensor that is being realized.
pub open spec fn realize_awaits(state: RealizeState, event: RealizeEvent) -> bool {
    match event {
        RealizeEvent::Begin => state is Starting,
        RealizeEvent::Prepared(_) => state is Preparing,
        RealizeEvent::Executed(_) => state is Running,
    }
}

/// What the first step of realizing a tensor comes to.
pub open spec fn begins(before: &Tensor, after: &Tensor, state: Option<RealizeState>, action: RealizeAction) -> bool {
    if before.uop.has_buffer_identity {
        state is None && action is Adopt
    } else if is_empty_shape(before.uop.shape) {
        state is None && action is Skip
    } else if rebinds_somewhere(after.uop.graph.nodes@) {
        state is None && (action matches RealizeAction::Fail(error) && extraction_fault(
            after.uop.graph.nodes@,
            error,
        ))
    } else {
        &&& state matches Some(RealizeState::Preparing { uop }) && same_uop(&uop, &after.uop)
        &&& action matches RealizeAction::Prepare { sink, var_vals } && sink.wf() && sink.root() == sink_term(
            seq![after.uop.graph.root()],
        ) && var_vals.wf() && var_vals@ == gathered(
            binding_of(after.uop.graph.nodes@),
            after.uop.graph.nodes@.len(),
        )
    }
}

/// What the first step of realizing a tensor does: a constant without a buffer
/// is made contiguous, and any other tensor is left as it is.
pub open spec fn realize_begins(
    before: &Tensor,
    after: &Tensor,
    id: u64,
    next: u64,
    state: Option<RealizeState>,
    action: RealizeAction,
) -> bool {
    &&& after.entry_id == before.entry_id
    &&& after.buffer == before.buffer
    &&& if !before.uop.has_buffer_identity && before.uop.constant {
        after.uop.is_contiguous_of(&before.uop, id) && next == id + 1
    } else {
        after.uop == before.uop && next == id
    }
    &&& begins(before, after, state, action)
}

/// What follows an event of realizing a tensor, where ids from `id` on are free before and
/// from `next` on after.
pub open spec fn realize_steps(
    before: &Tensor,
    after: &Tensor,
    purpose: Purpose,
    state: RealizeState,
    event: RealizeEvent,
    id: u64,
    next: u64,
    registered: Seq<Registration>,
    registered_after: Seq<Registration>,
    step: (Option<RealizeState>, RealizeAction),
) -> bool {
    match (state, event) {
        (RealizeState::Starting, RealizeEvent::Begin) => {
            &&& registered_after == registered
            &&& realize_begins(before, after, id, next, step.0, step.1)
        },
        (RealizeState::Preparing { uop }, RealizeEvent::Prepared(prepared)) => {
            &&& registered_after == registered
            &&& *after == *before
            &&& next == id
            &&& match prepared {
                Ok(output) => step == (
                    Some(RealizeState::Running { uop, output }),
                    RealizeAction::Execute,
                ),
                Err(error) => step.0 is None && if error is NoKernelsFound && before.uop.has_buffer_identity
                    && purpose == Purpose::Realize {
                    step.1 is Adopt
                } else {
                    step.1 == RealizeAction::Fail(error)
                },
            }
        },
        (RealizeState::Running { uop, output }, RealizeEvent::Executed(executed)) => {
            &&& step.0 is None
            &&& match executed {
                Ok(_) => {
                    &&& registered_after == registered.push(
                        registration(before, &output, id),
                    )
                    &&& if wirable(&uop, &output) {
                        &&& realized_as(before, after, &uop, &output, id)
                        &&& next == id + 2
                        &&& step.1 == (RealizeAction::Publish { old: uop.id, new: after.uop.id })
                    } else {
                        &&& *after == *before
                        &&& next == id + 1
                        &&& step.1 matches RealizeAction::Fail(error) && wiring_fault(&uop, &output, error)
                    }
                },
                Err(why) => {
                    &&& registered_after == registered
                    &&& *after == *before
                    &&& next == id
                    &&& step.1 matches RealizeAction::Fail(Error::Stage { stage, message }) && stage@
                        == "execution"@ && message == why
                },
            }
        },
        _ => true,
    }
}

/// What comes of making the first output of a plan a tensor's buffer, where there is a
/// plan, and ids from `id` on are free before and from `next` on after.
pub open spec fn prepares_with(
    before: &Tensor,
    after: &Tensor,
    outputs: Result<Vec<Buffer>, Error>,
    id: u64,
    next: u64,
    registered: Seq<Registration>,
    registered_after: Seq<Registration>,
    done: Result<(), Error>,
) -> bool {
    &&& registered_after == match outputs {
        Ok(outputs) => if outputs@.len() == 0 {
            registered
        } else {
            registered.push(registration(before, &outputs@[0], id))
        },
        Err(_) => registered,
    }
    &&& match outputs {
        Err(error) => done == Err::<(), Error>(error) && *after == *before && next == id,
        Ok(outputs) => if outputs@.len() == 0 {
            done is Ok && *after == *before && next == id
        } else if wirable(&before.uop, &outputs@[0]) {
            done is Ok && realized_as(
                before,
                after,
                &before.uop,
                &outputs@[0],
                id,
            ) && next == id + 2
        } else {
            &&& *after == *before
            &&& next == id + 1
            &&& done matches Err(error) && wiring_fault(&before.uop, &outputs@[0], error)
        },
    }
}

/// Two computations are the same.
pub open spec fn same_uop(a: &Uop, b: &Uop) -> bool {
    &&& a.id == b.id
    &&& same_nodes(a.graph.nodes@, b.graph.nodes@)
    &&& a.has_buffer_identity == b.has_buffer_identity
    &&& a.constant == b.constant
    &&& same_shape(a.shape, b.shape)
    &&& a.dtype == b.dtype
}

impl Tensor {
    /// Takes what came of the last action of realizing this tensor and gives the
    /// next.
    ///
    /// A tensor with a buffer is left as it is, a constant is made contiguous,
    /// and a tensor without elements is done. Any other is prepared and run, and
    /// takes on the output. A failure stands, but for a schedule that is empty
    /// because another thread has realized an equal tensor meanwhile: its buffer
    /// is this one's too, unless the run was to be profiled.
    pub fn realize_with(
        &mut self,
        purpose: Purpose,
        state: RealizeState,
        event: RealizeEvent,
        next_id: &mut u64,
        registered: &mut Vec<Registration>,
    ) -> (step: (Option<RealizeState>, RealizeAction))
        requires
            realize_awaits(state, event),
            event is Begin ==> old(self).wf() && old(self).uop.graph.nodes@.len() < usize::MAX - 2,
            *old(next_id) < u64::MAX - 2,
        ensures
            final(self).entry_id == old(self).entry_id,
            realize_steps(
                old(self),
                final(self),
                purpose,
                state,
                event,
                *old(next_id),
                *final(next_id),
                old(registered)@,
                final(registered)@,
                step,
            ),
    {
        match event {
            RealizeEvent::Begin => match self.begin_realize(next_id) {
                RealizeStep::AlreadyRealized => (None, RealizeAction::Adopt),
                RealizeStep::Empty => (None, RealizeAction::Skip),
                RealizeStep::Prepare => match self.plan_request() {
                    Ok((sink, var_vals)) => {
                        let uop = self.uop.copy();
                        (Some(RealizeState::Preparing { uop }), RealizeAction::Prepare { sink, var_vals })
                    }
                    Err(error) => (None, RealizeAction::Fail(error)),
                },
            },
            RealizeEvent::Prepared(prepared) => match prepared {
                Ok(output) => match state {
                    RealizeState::Preparing { uop } => (
                        Some(RealizeState::Running { uop, output }),
                        RealizeAction::Execute,
                    ),
                    _ => (None, RealizeAction::Skip),
                },
                Err(error) => {
                    if purpose == Purpose::Profile {
                        return (None, RealizeAction::Fail(error));
                    }
                    match self.adopt_concurrently_realized(error) {
                        Ok(()) => (None, RealizeAction::Adopt),
                        Err(error) => (None, RealizeAction::Fail(error)),
                    }
                }
            },
            RealizeEvent::Executed(executed) => match executed {
                Ok(()) => match state {
                    RealizeState::Running { uop, output } => match self.finalize_realize(
                        &output,
                        &uop,
                        next_id,
                        registered,
                    ) {
                        Ok(()) => (None, RealizeAction::Publish { old: uop.id, new: self.uop.id }),
                        Err(error) => (None, RealizeAction::Fail(error)),
                    },
                    _ => (None, RealizeAction::Skip),
                },
                Err(message) => (
                    None,
                    RealizeAction::Fail(Error::Stage { stage: "execution".to_owned(), message }),
                ),
            },
        }
    }

    /// Makes the first output of a plan that was prepared for this tensor, or
    /// not, its buffer: it then reads what the plan computes.
    pub fn prepare_with(
        &mut self,
        outputs: Result<Vec<Buffer>, Error>,
        next_id: &mut u64,
        registered: &mut Vec<Registration>,
    ) -> (done: Result<(), Error>)
        requires
            *old(next_id) < u64::MAX - 2,
        ensures
            prepares_with(
                old(self),
                final(self),
                outputs,
                *old(next_id),
                *final(next_id),
                old(registered)@,
                final(registered)@,
                done,
            ),
    {
        match outputs {
            Err(error) => Err(error),
            Ok(outputs) => {
                let uop = self.uop.copy();
                self.wire_output_tensor(&outputs, &uop, next_id, registered)
            }
        }
    }
}

// ---------------------------------------------------------------------------
// Batches
// ---------------------------------------------------------------------------

/// The tensors that have a computation to run, in order.
pub fn collect_pending_indices(tensors: &Vec<Tensor>) -> (pending: Vec<usize>)
    ensures
        forall|a: int, b: int|
            #![trigger pending@[a], pending@[b]]
            0 <= a < b < pending@.len() ==> pending@[a] < pending@[b],
        forall|a: int|
            #![trigger pending@[a]]
            0 <= a < pending@.len() ==> pending@[a] < tensors@.len() && is_pending(&tensors@[pending@[a] as int]),
        forall|i: int|
            #![trigger tensors@[i]]
            0 <= i < tensors@.len() && is_pending(&tensors@[i]) ==> pending@.contains(i as usize),
{
    let mut pending: Vec<usize> = Vec::new();
    let mut i: usize = 0;
    while i < tensors.len()
        invariant
            i <= tensors@.len(),
            forall|a: int, b: int|
                #![trigger pending@[a], pending@[b]]
                0 <= a < b < pending@.len() ==> pending@[a] < pending@[b],
            forall|a: int|
                #![trigger pending@[a]]
                0 <= a < pending@.len() ==> pending@[a] < i && is_pending(&tensors@[pending@[a] as int]),
            forall|k: int|
                #![trigger tensors@[k]]
                0 <= k < i && is_pending(&tensors@[k]) ==> pending@.contains(k as usize),
        decreases tensors@.len() - i,
    {
        let ghost before = pending@;
        let tensor = &tensors[i];
        if !tensor.uop.has_buffer_identity && !tensor.uop.constant && !tensor.has_zero_elements() {
            pending.push(i);
        }
        proof {
            assert forall|k: int| #![trigger tensors@[k]] 0 <= k < i + 1 && is_pending(&tensors@[k]) implies pending@.contains(
                k as usize,
            ) by {
                if k < i {
                    assert(before.contains(k as usize));
                    let a = choose|a: int| 0 <= a < before.len() && before[a] == k as usize;
                    assert(pending@[a] == k as usize);
                } else {
                    assert(pending@[before.len() as int] == i);
                }
            }
        }
        i = i + 1;
    }
    pending
}

/// The values that the first `k` graphs bind, if no two of their bindings
/// disagree.
pub open spec fn batch_values(graphs: Seq<Graph>, k: nat) -> Option<Map<Seq<char>, i64>>
    decreases k,
{
    if k == 0 {
        Some(Map::empty())
    } else {
        match batch_values(graphs, (k - 1) as nat) {
            None => None,
            Some(earlier) => {
                let nodes = graphs[k - 1].nodes@;
                let own = gathered(binding_of(nodes), nodes.len());
                if rebinds_somewhere(nodes) || !earlier.agrees(own) {
                    None
                } else {
                    Some(earlier.union_prefer_right(own))
                }
            },
        }
    }
}

/// A graph binds a variable to two values.
pub open spec fn rebinds_somewhere(nodes: Seq<Node>) -> bool {
    exists|i: int| 0 <= i < nodes.len() && #[trigger] rebinds(binding_of(nodes), i)
}

/// `error` tells of the first node of a graph that binds a variable to another
/// value than an earlier node did.
pub open spec fn extraction_fault(nodes: Seq<Node>, error: Error) -> bool {
    exists|i: int|
        #![trigger rebinds(binding_of(nodes), i)]
        0 <= i < nodes.len() && first_rebind(binding_of(nodes), i) && (binding(nodes, i) matches Some((name, value))
            && error matches Error::IrConstruction { details } && details@ == bind_mismatch(
            name,
            gathered(binding_of(nodes), i as nat)[name],
            value,
            "bind extraction"@,
        ))
}

/// A graph binds `name` to another value than earlier ones.
pub open spec fn clashes(nodes: Seq<Node>, earlier: Map<Seq<char>, i64>, name: Seq<char>) -> bool {
    let own = gathered(binding_of(nodes), nodes.len());
    earlier.dom().contains(name) && own.dom().contains(name) && earlier[name] != own[name]
}

/// `error` tells of a variable that graph `k` binds to another value than the
/// graphs before it.
pub open spec fn clash_fault(
    nodes: Seq<Node>,
    earlier: Map<Seq<char>, i64>,
    context: Seq<char>,
    error: Error,
) -> bool {
    exists|name: Seq<char>| #[trigger]
        clashes(nodes, earlier, name) && (error matches Error::IrConstruction { details } && details@ == bind_mismatch(
            name,
            earlier[name],
            gathered(binding_of(nodes), nodes.len())[name],
            context,
        ))
}

/// `error` tells of graph `k`, the first that binds a variable to two values or
/// to another value than the graphs before it.
pub open spec fn batch_fault(graphs: Seq<Graph>, k: int, context: Seq<char>, error: Error) -> bool {
    &&& 0 <= k < graphs.len()
    &&& batch_values(graphs, k as nat) is Some
    &&& if rebinds_somewhere(graphs[k].nodes@) {
        extraction_fault(graphs[k].nodes@, error)
    } else {
        clash_fault(graphs[k].nodes@, batch_values(graphs, k as nat)->0, context, error)
    }
}

proof fn lemma_batch_values_none(graphs: Seq<Graph>, k: nat, n: nat)
    requires
        k <= n,
        batch_values(graphs, k) is None,
    ensures
        batch_values(graphs, n) is None,
    decreases n - k,
{
    if k < n {
        lemma_batch_values_none(graphs, k, (n - 1) as nat);
    }
}

/// The graphs of the pending tensors.
pub open spec fn pending_graphs(tensors: Seq<Tensor>, pending: Seq<usize>) -> Seq<Graph> {
    Seq::new(pending.len(), |k: int| tensors[pending[k] as int].uop.graph)
}

/// The values that the pending tensors bind their variables to, all together.
/// It fails if and only if two bindings of one variable disagree.
pub fn collect_batch_vars(
    tensors: &Vec<Tensor>,
    pending: &Vec<usize>,
    context: &str,
) -> (collected: Result<VarVals, Error>)
    requires
        forall|a: int| #![trigger pending@[a]] 0 <= a < pending@.len() ==> pending@[a] < tensors@.len(),
        forall|i: int| #![trigger tensors@[i]] 0 <= i < tensors@.len() ==> tensors@[i].uop.graph.wf(),
    ensures
        ({
            let graphs = pending_graphs(tensors@, pending@);
            match collected {
                Ok(vars) => vars.wf() && batch_values(graphs, graphs.len()) == Some(vars@),
                Err(error) => batch_values(graphs, graphs.len()) is None && exists|k: int| #[trigger]
                    batch_fault(graphs, k, context@, error),
            }
        }),
{
    let ghost graphs = pending_graphs(tensors@, pending@);
    let mut vars = VarVals::new();
    let mut g: usize = 0;
    while g < pending.len()
        invariant
            forall|a: int| #![trigger pending@[a]] 0 <= a < pending@.len() ==> pending@[a] < tensors@.len(),
            forall|i: int| #![trigger tensors@[i]] 0 <= i < tensors@.len() ==> tensors@[i].uop.graph.wf(),
            graphs == pending_graphs(tensors@, pending@),
            g <= pending@.len(),
            vars.wf(),
            batch_values(graphs, g as nat) == Some(vars@),
        decreases pending@.len() - g,
    {
        let ghost nodes = graphs[g as int].nodes@;
        let ghost earlier = vars@;
        let at = pending[g];
        assert(tensors@[at as int].uop.graph.wf());
        let own = match extract_var_vals(&tensors[at].uop.graph) {
            Ok(own) => own,
            Err(error) => {
                proof {
                    let i = choose|i: int|
                        #![trigger rebinds(binding_of(nodes), i)]
                        0 <= i < nodes.len() && first_rebind(binding_of(nodes), i);
                    assert(rebinds(binding_of(nodes), i));
                    assert(rebinds_somewhere(nodes));
                    assert(batch_fault(graphs, g as int, context@, error));
                    lemma_batch_values_none(graphs, (g + 1) as nat, graphs.len());
                }
                return Err(error);
            }
        };
        assert(!rebinds_somewhere(nodes));
        if let Err(error) = merge_var_vals_checked(&mut vars, &own, context) {
            proof {
                let entries = own.entries@;
                lemma_entries_map(entries, entries.len());
                let k = choose|k: int|
                    #![trigger entries[k]]
                    first_conflict(earlier, entries, k) && (error matches Error::IrConstruction { details } && details@
                        == bind_mismatch(entries[k].0@, earlier[entries[k].0@], entries[k].1, context@));
                let name = entries[k].0@;
                assert(own@.contains_pair(name, entries[k].1));
                assert(clashes(nodes, earlier, name));
                assert(batch_fault(graphs, g as int, context@, error));
                lemma_batch_values_none(graphs, (g + 1) as nat, graphs.len());
            }
            return Err(error);
        }
        g = g + 1;
    }
    Ok(vars)
}

/// Several tensors to be computed together.
#[derive(Debug, PartialEq, Eq)]
pub struct Batch {
    /// The tensors that have a computation to run, in order.
    pub pending: Vec<usize>,
    /// Their computations, as the outputs of one graph.
    pub sink: Graph,
    /// The values of their variables.
    pub var_vals: VarVals,
}

/// What a pending tensor is computed from: a constant is made contiguous.
pub open spec fn output_term(tensor: &Tensor) -> Term {
    if tensor.uop.constant {
        contiguous_term(tensor.uop.graph.root())
    } else {
        tensor.uop.graph.root()
    }
}

/// What the pending tensors are computed from.
pub open spec fn pending_terms(tensors: Seq<Tensor>, pending: Seq<usize>) -> Seq<Term> {
    Seq::new(pending.len(), |k: int| output_term(&tensors[pending[k] as int]))
}

/// `after` is `before` with every constant that has no buffer made contiguous.
pub open spec fn constants_wrapped(before: Seq<Tensor>, after: Seq<Tensor>) -> bool {
    &&& after.len() == before.len()
    &&& forall|i: int|
        #![trigger after[i]]
        0 <= i < after.len() ==> after[i].entry_id == before[i].entry_id && after[i].buffer == before[i].buffer && if (
        !before[i].uop.has_buffer_identity && before[i].uop.constant) {
            exists|id: u64| #[trigger] after[i].uop.is_contiguous_of(&before[i].uop, id)
        } else {
            after[i].uop == before[i].uop
        }
}

/// Makes every constant that has no buffer contiguous, so that it is computed
/// into one.
pub fn wrap_constants(tensors: &mut Vec<Tensor>, next_id: &mut u64)
    requires
        forall|i: int| #![trigger old(tensors)@[i]] 0 <= i < old(tensors)@.len() ==> old(tensors)@[i].wf(),
        *old(next_id) + old(tensors)@.len() <= u64::MAX,
    ensures
        constants_wrapped(old(tensors)@, final(tensors)@),
        *old(next_id) <= *final(next_id) <= *old(next_id) + old(tensors)@.len(),
{
    let ghost before = tensors@;
    let start = *next_id;
    let n = tensors.len();
    let mut i: usize = 0;
    while i < n
        invariant
            i <= n,
            n == before.len(),
            tensors@.len() == n,
            start + n <= u64::MAX,
            start <= *next_id <= start + i,
            forall|k: int| #![trigger before[k]] 0 <= k < n ==> before[k].wf(),
            forall|k: int| #![trigger tensors@[k]] i <= k < n ==> tensors@[k] == before[k],
            forall|k: int|
                #![trigger tensors@[k]]
                0 <= k < i ==> tensors@[k].entry_id == before[k].entry_id && tensors@[k].buffer == before[k].buffer
                    && if (!before[k].uop.has_buffer_identity && before[k].uop.constant) {
                    exists|id: u64| #[trigger] tensors@[k].uop.is_contiguous_of(&before[k].uop, id)
                } else {
                    tensors@[k].uop == before[k].uop
                },
        decreases n - i,
    {
        assert(before[i as int].wf());
        assert(tensors@[i as int] == before[i as int]);
        if !tensors[i].uop.has_buffer_identity && tensors[i].uop.constant {
            let contiguous = tensors[i].uop.contiguous(*next_id);
            let entry_id = tensors[i].entry_id;
            let buffer = match &tensors[i].buffer {
                Some(buffer) => Some(buffer.copy()),
                None => None,
            };
            let ghost id = *next_id;
            *next_id = *next_id + 1;
            tensors.set(i, Tensor { entry_id, uop: contiguous, buffer });
            assert(tensors@[i as int].uop.is_contiguous_of(&before[i as int].uop, id));
        }
        i = i + 1;
    }
}

/// Buffers with one id are one buffer, in all of the tensors.
pub open spec fn tensors_agree(tensors: Seq<Tensor>) -> bool {
    forall|g: int, h: int, i: int, j: int|
        #![trigger tensors[g].uop.graph.nodes@[i], tensors[h].uop.graph.nodes@[j]]
        0 <= g < tensors.len() && 0 <= h < tensors.len() && 0 <= i < tensors[g].uop.graph.nodes@.len() && 0 <= j
            < tensors[h].uop.graph.nodes@.len() ==> (tensors[g].uop.graph.nodes@[i].op matches Op::Buffer { arg: a }
            ==> tensors[h].uop.graph.nodes@[j].op matches Op::Buffer { arg: b } ==> a.id == b.id ==> a == b)
}

/// The number of nodes of the first `k` tensors, with two more for each.
pub open spec fn total_nodes(tensors: Seq<Tensor>, k: nat) -> nat
    decreases k,
{
    if k == 0 {
        0
    } else {
        total_nodes(tensors, (k - 1) as nat) + tensors[k - 1].uop.graph.nodes@.len() + 2
    }
}

/// What is asked of tensors that are computed together: their graphs are in
/// order, agree on their buffers, and fit into memory as one.
pub open spec fn batchable(tensors: Seq<Tensor>) -> bool {
    &&& forall|i: int| #![trigger tensors[i]] 0 <= i < tensors.len() ==> tensors[i].wf()
    &&& tensors_agree(tensors)
    &&& total_nodes(tensors, tensors.len()) < usize::MAX - tensors.len()
}

proof fn lemma_total_nodes_grow(tensors: Seq<Tensor>, k: nat, n: nat)
    requires
        k <= n,
    ensures
        total_nodes(tensors, k) <= total_nodes(tensors, n),
    decreases n - k,
{
    if k < n {
        lemma_total_nodes_grow(tensors, k, (n - 1) as nat);
    }
}

proof fn lemma_sink_fits(tensors: Seq<Tensor>, pending: Seq<usize>, graphs: Seq<Graph>, m: nat)
    requires
        m <= graphs.len(),
        graphs.len() == pending.len(),
        forall|a: int| #![trigger pending[a]] 0 <= a < pending.len() ==> pending[a] < tensors.len(),
        forall|a: int, b: int|
            #![trigger pending[a], pending[b]]
            0 <= a < b < pending.len() ==> pending[a] < pending[b],
        forall|k: int|
            #![trigger graphs[k]]
            0 <= k < graphs.len() ==> graphs[k].nodes@.len() <= tensors[pending[k] as int].uop.graph.nodes@.len() + 1,
    ensures
        m > 0 ==> sink_size(graphs, m) <= total_nodes(tensors, (pending[m - 1] + 1) as nat),
    decreases m,
{
    if m > 0 {
        let last = pending[m - 1] as nat;
        assert(graphs[m - 1].nodes@.len() <= tensors[last as int].uop.graph.nodes@.len() + 1);
        if m > 1 {
            lemma_sink_fits(tensors, pending, graphs, (m - 1) as nat);
            assert(pending[m - 2] < pending[m - 1]);
            lemma_total_nodes_grow(tensors, (pending[m - 2] + 1) as nat, last);
        }
        assert(sink_size(graphs, m) == sink_size(graphs, (m - 1) as nat) + graphs[m - 1].nodes@.len() + 1);
        assert(total_nodes(tensors, last + 1) == total_nodes(tensors, last) + tensors[last as int].uop.graph.nodes@.len()
            + 2);
        assert(m == 1 ==> sink_size(graphs, 0) == 0);
    }
}

/// The graphs that the pending tensors are computed from, as the outputs of one
/// graph.
fn pending_sink(tensors: &Vec<Tensor>, pending: &Vec<usize>) -> (sink: Graph)
    requires
        pending@.len() > 0,
        forall|a: int| #![trigger pending@[a]] 0 <= a < pending@.len() ==> pending@[a] < tensors@.len(),
        forall|a: int, b: int|
            #![trigger pending@[a], pending@[b]]
            0 <= a < b < pending@.len() ==> pending@[a] < pending@[b],
        forall|i: int| #![trigger tensors@[i]] 0 <= i < tensors@.len() ==> tensors@[i].wf(),
        tensors_agree(tensors@),
        total_nodes(tensors@, tensors@.len()) < usize::MAX,
    ensures
        sink.wf(),
        sink.root() == sink_term(pending_terms(tensors@, pending@)),
{
    let mut graphs: Vec<Graph> = Vec::new();
    let mut k: usize = 0;
    while k < pending.len()
        invariant
            forall|a: int| #![trigger pending@[a]] 0 <= a < pending@.len() ==> pending@[a] < tensors@.len(),
            forall|i: int| #![trigger tensors@[i]] 0 <= i < tensors@.len() ==> tensors@[i].wf(),
            k <= pending@.len(),
            graphs@.len() == k,
            forall|j: int|
                #![trigger graphs@[j]]
                0 <= j < k ==> {
                    let source = tensors@[pending@[j] as int];
                    &&& graphs@[j].wf()
                    &&& graphs@[j].root() == output_term(&source)
                    &&& graphs@[j].nodes@.len() <= source.uop.graph.nodes@.len() + 1
                    &&& forall|o: int|
                        #![trigger graphs@[j].nodes@[o]]
                        0 <= o < graphs@[j].nodes@.len() && graphs@[j].nodes@[o].op is Buffer ==> o
                            < source.uop.graph.nodes@.len() && graphs@[j].nodes@[o].op == source.uop.graph.nodes@[o].op
                },
        decreases pending@.len() - k,
    {
        let at = pending[k];
        assert(tensors@[at as int].wf());
        let ghost source = tensors@[at as int];
        let copy = tensors[at].uop.graph.copy();
        let ghost copied = copy.nodes@;
        assert(forall|o: int|
            0 <= o < copied.len() ==> #[trigger] copied[o].op == source.uop.graph.nodes@[o].op);
        if tensors[at].uop.constant {
            let wrapped = copy.wrap(Op::Contiguous);
            proof {
                assert forall|o: int|
                    #![trigger wrapped.nodes@[o]]
                    0 <= o < wrapped.nodes@.len() && wrapped.nodes@[o].op is Buffer implies o
                    < source.uop.graph.nodes@.len() && wrapped.nodes@[o].op == source.uop.graph.nodes@[o].op by {
                    if o < copied.len() {
                        assert(wrapped.nodes@.subrange(0, copied.len() as int)[o] == copied[o]);
                    }
                }
            }
            graphs.push(wrapped);
        } else {
            graphs.push(copy);
        }
        k = k + 1;
    }
    proof {
        lemma_sink_fits(tensors@, pending@, graphs@, graphs@.len());
        let last = pending@[pending@.len() - 1];
        lemma_total_nodes_grow(tensors@, (last + 1) as nat, tensors@.len());
        assert forall|g: int, h: int, i: int, j: int|
            #![trigger graphs@[g].nodes@[i], graphs@[h].nodes@[j]]
            0 <= g < graphs@.len() && 0 <= h < graphs@.len() && 0 <= i < graphs@[g].nodes@.len() && 0 <= j
                < graphs@[h].nodes@.len() implies (graphs@[g].nodes@[i].op matches Op::Buffer { arg: a }
            ==> graphs@[h].nodes@[j].op matches Op::Buffer { arg: b } ==> a.id == b.id ==> a == b) by {
            if graphs@[g].nodes@[i].op is Buffer && graphs@[h].nodes@[j].op is Buffer {
                let x = pending@[g] as int;
                let y = pending@[h] as int;
                assert(graphs@[g].nodes@[i].op == tensors@[x].uop.graph.nodes@[i].op);
                assert(graphs@[h].nodes@[j].op == tensors@[y].uop.graph.nodes@[j].op);
            }
        }
        assert(graphs_agree(graphs@));
        assert(roots(graphs@) =~= pending_terms(tensors@, pending@));
    }
    sink_of(&graphs)
}

/// `pending` are the tensors, in order, that `wanted` picks.
pub open spec fn picks(tensors: Seq<Tensor>, pending: Seq<usize>, wanted: spec_fn(Tensor) -> bool) -> bool {
    &&& forall|a: int, b: int|
        #![trigger pending[a], pending[b]]
        0 <= a < b < pending.len() ==> pending[a] < pending[b]
    &&& forall|a: int|
        #![trigger pending[a]]
        0 <= a < pending.len() ==> pending[a] < tensors.len() && wanted(tensors[pending[a] as int])
    &&& forall|i: int|
        #![trigger tensors[i]]
        0 <= i < tensors.len() && wanted(tensors[i]) ==> pending.contains(i as usize)
}

/// A tensor that is realized with others.
pub open spec fn pending_to_realize() -> spec_fn(Tensor) -> bool {
    |t: Tensor| is_pending(&t)
}

/// A tensor that is prepared with others: constants too.
pub open spec fn pending_to_prepare() -> spec_fn(Tensor) -> bool {
    |t: Tensor| !t.uop.has_buffer_identity && !is_empty_shape(t.uop.shape)
}

/// A batch holds these tensors' computations and variables.
pub open spec fn is_batch(batch: &Batch, tensors: Seq<Tensor>) -> bool {
    &&& batch.sink.wf()
    &&& batch.sink.root() == sink_term(pending_terms(tensors, batch.pending@))
    &&& batch.var_vals.wf()
    &&& batch_values(pending_graphs(tensors, batch.pending@), batch.pending@.len()) == Some(batch.var_vals@)
}

proof fn lemma_wrapped_batchable(before: Seq<Tensor>, after: Seq<Tensor>)
    requires
        batchable(before),
        constants_wrapped(before, after),
    ensures
        forall|i: int| #![trigger after[i]] 0 <= i < after.len() ==> after[i].uop.graph.wf(),
        forall|i: int| #![trigger after[i]] 0 <= i < after.len() ==> after[i].wf(),
        tensors_agree(after),
        total_nodes(after, after.len()) < usize::MAX,
        forall|i: int|
            #![trigger after[i]]
            0 <= i < after.len() ==> (!after[i].uop.has_buffer_identity ==> !after[i].uop.constant),
{
    assert forall|i: int| #![trigger after[i]] 0 <= i < after.len() implies after[i].wf() && (
    !after[i].uop.has_buffer_identity ==> !after[i].uop.constant) by {
        assert(before[i].wf());
        if !before[i].uop.has_buffer_identity && before[i].uop.constant {
            lemma_total_nodes_member(before, i, before.len());
        }
    }
    assert forall|g: int, h: int, i: int, j: int|
        #![trigger after[g].uop.graph.nodes@[i], after[h].uop.graph.nodes@[j]]
        0 <= g < after.len() && 0 <= h < after.len() && 0 <= i < after[g].uop.graph.nodes@.len() && 0 <= j
            < after[h].uop.graph.nodes@.len() implies (after[g].uop.graph.nodes@[i].op matches Op::Buffer { arg: a }
        ==> after[h].uop.graph.nodes@[j].op matches Op::Buffer { arg: b } ==> a.id == b.id ==> a == b) by {
        if after[g].uop.graph.nodes@[i].op is Buffer && after[h].uop.graph.nodes@[j].op is Buffer {
            assert(i < before[g].uop.graph.nodes@.len() && after[g].uop.graph.nodes@[i].op
                == before[g].uop.graph.nodes@[i].op);
            assert(j < before[h].uop.graph.nodes@.len() && after[h].uop.graph.nodes@[j].op
                == before[h].uop.graph.nodes@[j].op);
        }
    }
    lemma_wrapped_total(before, after, before.len());
}

proof fn lemma_total_nodes_member(tensors: Seq<Tensor>, i: int, k: nat)
    requires
        0 <= i < k <= tensors.len(),
    ensures
        tensors[i].uop.graph.nodes@.len() + 2 <= total_nodes(tensors, k),
    decreases k,
{
    if i < k - 1 {
        lemma_total_nodes_member(tensors, i, (k - 1) as nat);
    }
}

proof fn lemma_wrapped_total(before: Seq<Tensor>, after: Seq<Tensor>, k: nat)
    requires
        k <= before.len(),
        constants_wrapped(before, after),
    ensures
        total_nodes(after, k) <= total_nodes(before, k) + k,
    decreases k,
{
    if k > 0 {
        lemma_wrapped_total(before, after, (k - 1) as nat);
        let _ = after[k - 1];
    }
}

/// What comes of beginning to realize these tensors together.
pub open spec fn realize_batch_begins(tensors: Seq<Tensor>, begun: Result<Option<Batch>, Error>) -> bool {
    match begun {
        Ok(None) => forall|i: int| #![trigger tensors[i]] 0 <= i < tensors.len() ==> !is_pending(&tensors[i]),
        Ok(Some(batch)) => batch.pending@.len() > 0 && picks(tensors, batch.pending@, pending_to_realize())
            && is_batch(&batch, tensors),
        Err(error) => exists|pending: Seq<usize>, k: int|
            picks(tensors, pending, pending_to_realize()) && #[trigger] batch_fault(
                pending_graphs(tensors, pending),
                k,
                "realize_batch input collection"@,
                error,
            ),
    }
}

/// What comes of beginning to prepare these tensors together.
pub open spec fn prepare_batch_begins(tensors: Seq<Tensor>, begun: Result<Batch, Error>) -> bool {
    match begun {
        Ok(batch) => batch.pending@.len() > 0 && picks(tensors, batch.pending@, pending_to_prepare()) && is_batch(
            &batch,
            tensors,
        ),
        Err(error) => (error is EmptySchedule && forall|i: int|
            #![trigger tensors[i]]
            0 <= i < tensors.len() ==> !pending_to_prepare()(tensors[i])) || (exists|pending: Seq<usize>, k: int|
            picks(tensors, pending, pending_to_prepare()) && #[trigger] batch_fault(
                pending_graphs(tensors, pending),
                k,
                "prepare_batch input collection"@,
                error,
            )),
    }
}

/// Begins to realize tensors together. Constants that have no buffer are made
/// contiguous; then those with a computation to run are put into one graph,
/// with the values of their variables. There is nothing to do where none has
/// one. Fails where two bindings of one variable disagree.
pub fn begin_realize_batch(tensors: &mut Vec<Tensor>, next_id: &mut u64) -> (begun: Result<Option<Batch>, Error>)
    requires
        batchable(old(tensors)@),
        *old(next_id) + old(tensors)@.len() <= u64::MAX,
    ensures
        constants_wrapped(old(tensors)@, final(tensors)@),
        *old(next_id) <= *final(next_id) <= *old(next_id) + old(tensors)@.len(),
        realize_batch_begins(final(tensors)@, begun),
{
    let ghost before = tensors@;
    wrap_constants(tensors, next_id);
    proof {
        lemma_wrapped_batchable(before, tensors@);
    }
    let pending = collect_pending_indices(tensors);
    proof {
        assert forall|i: int|
            #![trigger tensors@[i]]
            0 <= i < tensors@.len() && pending_to_realize()(tensors@[i]) implies pending@.contains(i as usize) by {
            assert(is_pending(&tensors@[i]));
        }
        assert forall|a: int| #![trigger pending@[a]] 0 <= a < pending@.len() implies pending@[a] < tensors@.len()
            && pending_to_realize()(tensors@[pending@[a] as int]) by {
            assert(is_pending(&tensors@[pending@[a] as int]));
        }
        assert(picks(tensors@, pending@, pending_to_realize()));
    }
    if pending.len() == 0 {
        proof {
            assert forall|i: int| #![trigger tensors@[i]] 0 <= i < tensors@.len() implies !is_pending(&tensors@[i]) by {
                if is_pending(&tensors@[i]) {
                    assert(pending@.contains(i as usize));
                }
            }
        }
        return Ok(None);
    }
    let var_vals = match collect_batch_vars(tensors, &pending, "realize_batch input collection") {
        Ok(vars) => vars,
        Err(error) => return Err(error),
    };
    let sink = pending_sink(tensors, &pending);
    Ok(Some(Batch { pending, sink, var_vals }))
}

/// Begins to prepare tensors together, without changing any: those without a
/// buffer that have elements are put into one graph, constants made contiguous,
/// with the values of their variables. It is an error that there is none, and
/// that two bindings of one variable disagree.
pub fn begin_prepare_batch(tensors: &Vec<Tensor>) -> (begun: Result<Batch, Error>)
    requires
        batchable(tensors@),
    ensures
        prepare_batch_begins(tensors@, begun),
{
    let mut pending: Vec<usize> = Vec::new();
    let mut i: usize = 0;
    while i < tensors.len()
        invariant
            i <= tensors@.len(),
            forall|a: int, b: int|
                #![trigger pending@[a], pending@[b]]
                0 <= a < b < pending@.len() ==> pending@[a] < pending@[b],
            forall|a: int|
                #![trigger pending@[a]]
                0 <= a < pending@.len() ==> pending@[a] < i && pending_to_prepare()(tensors@[pending@[a] as int]),
            forall|k: int|
                #![trigger tensors@[k]]
                0 <= k < i && pending_to_prepare()(tensors@[k]) ==> pending@.contains(k as usize),
        decreases tensors@.len() - i,
    {
        let ghost before = pending@;
        if !tensors[i].uop.has_buffer_identity && !tensors[i].has_zero_elements() {
            pending.push(i);
        }
        proof {
            assert forall|k: int|
                #![trigger tensors@[k]]
                0 <= k < i + 1 && pending_to_prepare()(tensors@[k]) implies pending@.contains(k as usize) by {
                if k < i {
                    assert(before.contains(k as usize));
                    let a = choose|a: int| 0 <= a < before.len() && before[a] == k as usize;
                    assert(pending@[a] == k as usize);
                } else {
                    assert(pending@[before.len() as int] == i);
                }
            }
        }
        i = i + 1;
    }
    assert(picks(tensors@, pending@, pending_to_prepare()));
    if pending.len() == 0 {
        proof {
            assert forall|i: int| #![trigger tensors@[i]] 0 <= i < tensors@.len() implies !pending_to_prepare()(
                tensors@[i],
            ) by {
                if pending_to_prepare()(tensors@[i]) {
                    assert(pending@.contains(i as usize));
                }
            }
        }
        return Err(Error::EmptySchedule);
    }
    let var_vals = match collect_batch_vars(tensors, &pending, "prepare_batch input collection") {
        Ok(vars) => vars,
        Err(error) => return Err(error),
    };
    let sink = pending_sink(tensors, &pending);
    Ok(Batch { pending, sink, var_vals })
}

// ---------------------------------------------------------------------------
// Ends of batches
// ---------------------------------------------------------------------------

/// Tensors whose first `k` pending ones are realized into their outputs, under
/// ids from `start` on, and whose others are as they were.
pub open spec fn wired_upto(
    before: Seq<Tensor>,
    after: Seq<Tensor>,
    pending: Seq<usize>,
    outputs: Seq<Buffer>,
    start: u64,
    k: int,
) -> bool {
    &&& after.len() == before.len()
    &&& forall|j: int|
        #![trigger pending[j]]
        0 <= j < k ==> realized_as(
            &before[pending[j] as int],
            &after[pending[j] as int],
            &before[pending[j] as int].uop,
            &outputs[j],
            (start + 2 * j) as u64,
        )
    &&& forall|i: int|
        #![trigger after[i]]
        0 <= i < after.len() && !pending.subrange(0, k).contains(i as usize) ==> after[i] == before[i]
}

/// How the outputs of the first `k` pending tensors are registered.
pub open spec fn registrations(
    tensors: Seq<Tensor>,
    pending: Seq<usize>,
    outputs: Seq<Buffer>,
    start: u64,
    k: nat,
) -> Seq<Registration> {
    Seq::new(k, |j: int| registration(&tensors[pending[j] as int], &outputs[j], (start + 2 * j) as u64))
}

/// What was added to a list.
pub open spec fn added_to(before: Seq<Registration>, after: Seq<Registration>) -> Seq<Registration> {
    after.skip(before.len() as int)
}

/// A plan has to have an output for each pending tensor of its batch.
pub fn check_batch_outputs(expected: usize, actual: usize) -> (checked: Result<(), Error>)
    ensures
        checked == if expected == actual {
            Ok::<(), Error>(())
        } else {
            Err(Error::BatchOutputMismatch { expected, actual })
        },
{
    if expected != actual {
        return Err(Error::BatchOutputMismatch { expected, actual });
    }
    Ok(())
}

/// The pending tensors have their outputs.
pub open spec fn batch_wired(
    before: Seq<Tensor>,
    after: Seq<Tensor>,
    pending: Seq<usize>,
    outputs: Seq<Buffer>,
    start: u64,
    end: u64,
    added: Seq<Registration>,
) -> bool {
    &&& outputs.len() == pending.len()
    &&& wired_upto(before, after, pending, outputs, start, pending.len() as int)
    &&& end == start + 2 * pending.len()
    &&& added == registrations(before, pending, outputs, start, pending.len())
}

/// What comes of ending the run of a batch; `added` is what is registered.
pub open spec fn batch_finishes(
    before: Seq<Tensor>,
    after: Seq<Tensor>,
    pending: Seq<usize>,
    outputs: Seq<Buffer>,
    start: u64,
    end: u64,
    added: Seq<Registration>,
    becomes: Result<Vec<(u64, u64)>, Error>,
) -> bool {
    match becomes {
        Ok(becomes) => {
            &&& batch_wired(before, after, pending, outputs, start, end, added)
            &&& becomes@.len() == pending.len()
            &&& forall|j: int|
                #![trigger becomes@[j]]
                0 <= j < becomes@.len() ==> becomes@[j] == (
                    before[pending[j] as int].uop.id,
                    after[pending[j] as int].uop.id,
                )
        },
        Err(error) => if outputs.len() != pending.len() {
            after == before && end == start && added.len() == 0 && error == (Error::BatchOutputMismatch {
                expected: pending.len() as usize,
                actual: outputs.len() as usize,
            })
        } else {
            exists|k: int|
                #![trigger pending[k]]
                0 <= k < pending.len() && end == start + 2 * k + 1 && added == registrations(
                    before,
                    pending,
                    outputs,
                    start,
                    (k + 1) as nat,
                ) && !wirable(
                    &before[pending[k] as int].uop,
                    &outputs[k],
                ) && wiring_fault(&before[pending[k] as int].uop, &outputs[k], error) && wired_upto(
                    before,
                    after,
                    pending,
                    outputs,
                    start,
                    k,
                )
        },
    }
}

/// Ends the run of a batch: each pending tensor takes on the output of its
/// turn, in the shape and type of its computation. Gives the ids of the
/// computations that were realized, each with the id of what took its place.
///
/// A plan with another number of outputs is an error, and changes nothing. An
/// output that does not fit its tensor is one too; the tensors before it have
/// theirs then. Each output is registered as its turn comes.
pub fn finish_batch(
    tensors: &mut Vec<Tensor>,
    pending: &Vec<usize>,
    outputs: &Vec<Buffer>,
    next_id: &mut u64,
    registered: &mut Vec<Registration>,
) -> (becomes: Result<Vec<(u64, u64)>, Error>)
    requires
        forall|a: int, b: int|
            #![trigger pending@[a], pending@[b]]
            0 <= a < b < pending@.len() ==> pending@[a] < pending@[b],
        forall|a: int| #![trigger pending@[a]] 0 <= a < pending@.len() ==> pending@[a] < old(tensors)@.len(),
        *old(next_id) + 2 * pending@.len() < u64::MAX - 2,
    ensures
        old(registered)@.is_prefix_of(final(registered)@),
        batch_finishes(
            old(tensors)@,
            final(tensors)@,
            pending@,
            outputs@,
            *old(next_id),
            *final(next_id),
            added_to(old(registered)@, final(registered)@),
            becomes,
        ),
{
    let ghost kept = registered@;
    if let Err(error) = check_batch_outputs(pending.len(), outputs.len()) {
        assert(added_to(kept, registered@).len() == 0);
        return Err(error);
    }
    let ghost before = tensors@;
    let start = *next_id;
    assert(registered@ =~= kept + registrations(before, pending@, outputs@, start, 0));
    let mut becomes: Vec<(u64, u64)> = Vec::new();
    let mut k: usize = 0;
    while k < pending.len()
        invariant
            forall|a: int, b: int|
                #![trigger pending@[a], pending@[b]]
                0 <= a < b < pending@.len() ==> pending@[a] < pending@[b],
            forall|a: int| #![trigger pending@[a]] 0 <= a < pending@.len() ==> pending@[a] < before.len(),
            before == old(tensors)@,
            start == *old(next_id),
            start + 2 * pending@.len() < u64::MAX - 2,
            outputs@.len() == pending@.len(),
            k <= pending@.len(),
            kept == old(registered)@,
            registered@ == kept + registrations(before, pending@, outputs@, start, k as nat),
            *next_id == start + 2 * k,
            wired_upto(before, tensors@, pending@, outputs@, start, k as int),
            becomes@.len() == k,
            forall|j: int|
                #![trigger becomes@[j]]
                0 <= j < k ==> becomes@[j] == (
                    before[pending@[j] as int].uop.id,
                    tensors@[pending@[j] as int].uop.id,
                ),
        decreases pending@.len() - k,
    {
        let at = pending[k];
        proof {
            let head = pending@.subrange(0, k as int);
            assert(!head.contains(at)) by {
                if head.contains(at) {
                    let j = choose|j: int| 0 <= j < head.len() && head[j] == at;
                    assert(pending@[j] < pending@[k as int]);
                }
            }
            assert(tensors@[at as int] == before[at as int]);
        }
        let ghost middle = tensors@;
        let old_id = tensors[at].uop.id;
        let entry_id = tensors[at].entry_id;
        let realized = realize_into(&tensors[at].uop, &outputs[k], entry_id, next_id, registered);
        proof {
            let now = registrations(before, pending@, outputs@, start, (k + 1) as nat);
            assert(registered@ =~= kept + now);
            assert(added_to(kept, registered@) =~= now);
        }
        let realized = match realized {
            Ok(realized) => realized,
            Err(error) => {
                assert(pending@[k as int] == at);
                return Err(error);
            }
        };
        becomes.push((old_id, realized.id));
        tensors.set(at, Tensor { entry_id, uop: realized, buffer: Some(outputs[k].copy()) });
        proof {
            let head = pending@.subrange(0, k as int);
            let more = pending@.subrange(0, k + 1);
            assert forall|j: int| #![trigger pending@[j]] 0 <= j < k + 1 implies realized_as(
                &before[pending@[j] as int],
                &tensors@[pending@[j] as int],
                &before[pending@[j] as int].uop,
                &outputs@[j],
                (start + 2 * j) as u64,
            ) by {
                if j < k {
                    assert(pending@[j] < pending@[k as int]);
                    assert(tensors@[pending@[j] as int] == middle[pending@[j] as int]);
                }
            }
            assert forall|i: int|
                #![trigger tensors@[i]]
                0 <= i < tensors@.len() && !more.contains(i as usize) implies tensors@[i] == before[i] by {
                assert(more[k as int] == at);
                if head.contains(i as usize) {
                    let j = choose|j: int| 0 <= j < head.len() && head[j] == i as usize;
                    assert(more[j] == i as usize);
                }
                assert(i != at);
                assert(tensors@[i] == middle[i]);
            }
            assert forall|j: int| #![trigger becomes@[j]] 0 <= j < k + 1 implies becomes@[j] == (
                before[pending@[j] as int].uop.id,
                tensors@[pending@[j] as int].uop.id,
            ) by {
                if j < k {
                    assert(pending@[j] < pending@[k as int]);
                    assert(tensors@[pending@[j] as int] == middle[pending@[j] as int]);
                }
            }
        }
        k = k + 1;
    }
    assert(added_to(kept, registered@) =~= registrations(before, pending@, outputs@, start, pending@.len()));
    Ok(becomes)
}

// ---------------------------------------------------------------------------
// Runs of batches
// ---------------------------------------------------------------------------

/// What a batch waits for.
#[derive(Debug, PartialEq, Eq)]
pub enum BatchState {
    Starting,
    /// The plan of the pending tensors.
    Preparing { pending: Vec<usize> },
    /// The run of the plan, with these outputs.
    Running { pending: Vec<usize>, outputs: Vec<Buffer> },
}

/// What came of the last action of a batch.
#[derive(Debug, PartialEq, Eq)]
pub enum BatchEvent {
    Begin,
    /// The plan was prepared; its outputs.
    Prepared(Result<Vec<Buffer>, Error>),
    /// The plan was run.
    Executed(Result<(), String>),
}

/// What a batch does next.
#[derive(Debug, PartialEq, Eq)]
pub enum BatchAction {
    /// Prepare the plan of this graph with these values.
    Prepare { sink: Graph, var_vals: VarVals },
    /// Run the plan.
    Execute,
    /// Nothing was to do.
    Skip,
    /// The tensors have their buffers: put the second of each pair in the place
    /// of the first in all other tensors. Nothing else is left to do.
    Publish { becomes: Vec<(u64, u64)> },
    /// The tensors have their buffers, which the plan fills when it is run.
    /// Nothing is left to do.
    Wired,
    Fail(Error),
}

/// Positions in a list of `n`, ascending.
pub open spec fn ascending(pending: Seq<usize>, n: nat) -> bool {
    &&& forall|a: int, b: int|
        #![trigger pending[a], pending[b]]
        0 <= a < b < pending.len() ==> pending[a] < pending[b]
    &&& forall|a: int| #![trigger pending[a]] 0 <= a < pending.len() ==> pending[a] < n
}

/// Whether an event can happen to a batch of `n` tensors.
pub open spec fn batch_awaits(state: BatchState, event: BatchEvent, n: nat) -> bool {
    match state {
        BatchState::Starting => event is Begin,
        BatchState::Preparing { pending } => event is Prepared && ascending(pending@, n),
        BatchState::Running { pending, outputs } => event is Executed && ascending(pending@, n) && outputs@.len()
            == pending@.len(),
    }
}

/// What follows an event of realizing tensors together, where ids from `id` on are free
/// before and from `next` on after.
pub open spec fn realize_batch_steps(
    before: Seq<Tensor>,
    after: Seq<Tensor>,
    state: BatchState,
    event: BatchEvent,
    id: u64,
    next: u64,
    registered: Seq<Registration>,
    registered_after: Seq<Registration>,
    step: (Option<BatchState>, BatchAction),
) -> bool {
    match (state, event) {
        (BatchState::Starting, BatchEvent::Begin) => {
            &&& registered_after == registered
            &&& constants_wrapped(before, after)
            &&& id <= next <= id + before.len()
            &&& match step.1 {
                BatchAction::Skip => step.0 is None && realize_batch_begins(after, Ok(None)),
                BatchAction::Fail(error) => step.0 is None && realize_batch_begins(
                    after,
                    Err(error),
                ),
                BatchAction::Prepare { sink, var_vals } => {
                    step.0 matches Some(BatchState::Preparing { pending }) && realize_batch_begins(
                        after,
                        Ok(Some(Batch { pending, sink, var_vals })),
                    ) && ascending(pending@, after.len())
                },
                _ => false,
            }
        },
        (BatchState::Preparing { pending }, BatchEvent::Prepared(prepared)) => {
            &&& registered_after == registered
            &&& next == id
            &&& match prepared {
                Ok(outputs) => if outputs@.len() == pending@.len() {
                    after == before && step == (
                        Some(BatchState::Running { pending, outputs }),
                        BatchAction::Execute,
                    )
                } else {
                    batch_fails(
                        before,
                        after,
                        step,
                        Error::BatchOutputMismatch {
                            expected: pending@.len() as usize,
                            actual: outputs@.len() as usize,
                        },
                    )
                },
                Err(error) => batch_fails(before, after, step, error),
            }
        },
        (BatchState::Running { pending, outputs }, BatchEvent::Executed(executed)) => match executed {
            Ok(_) => batch_ends(
                before,
                after,
                pending@,
                outputs@,
                id,
                next,
                added_to(registered, registered_after),
                step,
            ) && !(step.1 is Wired),
            Err(why) => {
                &&& registered_after == registered
                &&& after == before
                &&& next == id
                &&& step.0 is None
                &&& step.1 matches BatchAction::Fail(Error::Stage { stage, message }) && stage@
                    == "execution"@ && message == why
            },
        },
        _ => true,
    }
}

/// What follows an event of preparing tensors together, where ids from `id` on are free
/// before and from `next` on after.
pub open spec fn prepare_batch_steps(
    before: Seq<Tensor>,
    after: Seq<Tensor>,
    state: BatchState,
    event: BatchEvent,
    id: u64,
    next: u64,
    registered: Seq<Registration>,
    registered_after: Seq<Registration>,
    step: (Option<BatchState>, BatchAction),
) -> bool {
    match (state, event) {
        (BatchState::Starting, BatchEvent::Begin) => {
            &&& registered_after == registered
            &&& after == before
            &&& next == id
            &&& match step.1 {
                BatchAction::Fail(error) => step.0 is None && prepare_batch_begins(
                    before,
                    Err(error),
                ),
                BatchAction::Prepare { sink, var_vals } => {
                    step.0 matches Some(BatchState::Preparing { pending }) && prepare_batch_begins(
                        before,
                        Ok(Batch { pending, sink, var_vals }),
                    ) && ascending(pending@, before.len())
                },
                _ => false,
            }
        },
        (BatchState::Preparing { pending }, BatchEvent::Prepared(prepared)) => match prepared {
            Ok(outputs) => batch_ends(
                before,
                after,
                pending@,
                outputs@,
                id,
                next,
                added_to(registered, registered_after),
                step,
            ) && !(step.1 is Publish),
            Err(error) => batch_fails(before, after, step, error) && next == id && registered_after == registered,
        },
        _ => true,
    }
}

/// The batch ends with an error, and no tensor has changed.
pub open spec fn batch_fails(
    before: Seq<Tensor>,
    after: Seq<Tensor>,
    step: (Option<BatchState>, BatchAction),
    error: Error,
) -> bool {
    after == before && step.0 is None && step.1 == BatchAction::Fail(error)
}

/// The batch ends: its tensors have their outputs, or one does not fit.
pub open spec fn batch_ends(
    before: Seq<Tensor>,
    after: Seq<Tensor>,
    pending: Seq<usize>,
    outputs: Seq<Buffer>,
    start: u64,
    end: u64,
    added: Seq<Registration>,
    step: (Option<BatchState>, BatchAction),
) -> bool {
    &&& step.0 is None
    &&& match step.1 {
        BatchAction::Publish { becomes } => batch_finishes(
            before,
            after,
            pending,
            outputs,
            start,
            end,
            added,
            Ok(becomes),
        ),
        BatchAction::Wired => batch_wired(before, after, pending, outputs, start, end, added),
        BatchAction::Fail(error) => batch_finishes(
            before,
            after,
            pending,
            outputs,
            start,
            end,
            added,
            Err(error),
        ),
        _ => false,
    }
}

impl Tensor {
    /// Takes what came of the last action of realizing tensors together and
    /// gives the next.
    ///
    /// Those with a computation to run are prepared by one plan, which must have
    /// an output for each; it is run, and each takes on its output. The first
    /// failure ends the batch.
    pub fn realize_batch_with(
        tensors: &mut Vec<Tensor>,
        state: BatchState,
        event: BatchEvent,
        next_id: &mut u64,
        registered: &mut Vec<Registration>,
    ) -> (step: (Option<BatchState>, BatchAction))
        requires
            batch_awaits(state, event, old(tensors)@.len()),
            event is Begin ==> batchable(old(tensors)@),
            *old(next_id) + 2 * old(tensors)@.len() < u64::MAX - 2,
        ensures
            step.0 matches Some(next) ==> next is Preparing || next is Running,
            old(registered)@.is_prefix_of(final(registered)@),
            step.0 is Some ==> final(registered)@ == old(registered)@,
            realize_batch_steps(
                old(tensors)@,
                final(tensors)@,
                state,
                event,
                *old(next_id),
                *final(next_id),
                old(registered)@,
                final(registered)@,
                step,
            ),
    {
        match event {
            BatchEvent::Begin => match begin_realize_batch(tensors, next_id) {
                Ok(None) => (None, BatchAction::Skip),
                Ok(Some(batch)) => (
                    Some(BatchState::Preparing { pending: batch.pending }),
                    BatchAction::Prepare { sink: batch.sink, var_vals: batch.var_vals },
                ),
                Err(error) => (None, BatchAction::Fail(error)),
            },
            BatchEvent::Prepared(prepared) => match (prepared, state) {
                (Ok(outputs), BatchState::Preparing { pending }) => {
                    if let Err(error) = check_batch_outputs(pending.len(), outputs.len()) {
                        return (None, BatchAction::Fail(error));
                    }
                    (Some(BatchState::Running { pending, outputs }), BatchAction::Execute)
                }
                (Err(error), _) => (None, BatchAction::Fail(error)),
                _ => (None, BatchAction::Skip),
            },
            BatchEvent::Executed(executed) => match (executed, state) {
                (Ok(()), BatchState::Running { pending, outputs }) => {
                    proof {
                        lemma_ascending_length(pending@, tensors@.len());
                    }
                    match finish_batch(tensors, &pending, &outputs, next_id, registered) {
                        Ok(becomes) => (None, BatchAction::Publish { becomes }),
                        Err(error) => (None, BatchAction::Fail(error)),
                    }
                }
                (Err(message), _) => (
                    None,
                    BatchAction::Fail(Error::Stage { stage: "execution".to_owned(), message }),
                ),
                _ => (None, BatchAction::Skip),
            },
        }
    }

    /// Takes what came of the last action of preparing tensors together and
    /// gives the next.
    ///
    /// No tensor changes until the plan is there and has an output for each of
    /// those without a buffer that have elements; then each takes on its output,
    /// which is computed when the plan is run. Where there is none to prepare,
    /// that is an error.
    pub fn prepare_batch_with(
        tensors: &mut Vec<Tensor>,
        state: BatchState,
        event: BatchEvent,
        next_id: &mut u64,
        registered: &mut Vec<Registration>,
    ) -> (step: (Option<BatchState>, BatchAction))
        requires
            batch_awaits(state, event, old(tensors)@.len()),
            !(state is Running),
            event is Begin ==> batchable(old(tensors)@),
            *old(next_id) + 2 * old(tensors)@.len() < u64::MAX - 2,
        ensures
            step.0 matches Some(next) ==> next is Preparing,
            old(registered)@.is_prefix_of(final(registered)@),
            step.0 is Some ==> final(registered)@ == old(registered)@,
            prepare_batch_steps(
                old(tensors)@,
                final(tensors)@,
                state,
                event,
                *old(next_id),
                *final(next_id),
                old(registered)@,
                final(registered)@,
                step,
            ),
    {
        match event {
            BatchEvent::Begin => match begin_prepare_batch(tensors) {
                Ok(batch) => (
                    Some(BatchState::Preparing { pending: batch.pending }),
                    BatchAction::Prepare { sink: batch.sink, var_vals: batch.var_vals },
                ),
                Err(error) => (None, BatchAction::Fail(error)),
            },
            BatchEvent::Prepared(prepared) => match (prepared, state) {
                (Ok(outputs), BatchState::Preparing { pending }) => {
                    proof {
                        lemma_ascending_length(pending@, tensors@.len());
                    }
                    match finish_batch(tensors, &pending, &outputs, next_id, registered) {
                        Ok(_) => (None, BatchAction::Wired),
                        Err(error) => (None, BatchAction::Fail(error)),
                    }
                }
                (Err(error), _) => (None, BatchAction::Fail(error)),
                _ => (None, BatchAction::Skip),
            },
            BatchEvent::Executed(_) => (None, BatchAction::Skip),
        }
    }
}

/// There are no more ascending positions than there are positions.
proof fn lemma_ascending_length(pending: Seq<usize>, n: nat)
    requires
        ascending(pending, n),
    ensures
        pending.len() <= n,
{
    if pending.len() > 0 {
        lemma_ascending_least(pending, n, pending.len() - 1);
    }
}

proof fn lemma_ascending_least(pending: Seq<usize>, n: nat, k: int)
    requires
        ascending(pending, n),
        0 <= k < pending.len(),
    ensures
        k <= pending[k] < n,
    decreases k,
{
    if k > 0 {
        lemma_ascending_least(pending, n, k - 1);
        assert(pending[k - 1] < pending[k]);
    }
}

// ---------------------------------------------------------------------------
// Laws
// ---------------------------------------------------------------------------

/// A tensor that was realized has a buffer and nothing left to run: to realize
/// it again does nothing.
pub proof fn law_realized_tensors_are_done(before: &Tensor, after: &Tensor, uop: &Uop, output: &Buffer, id: u64)
    requires
        realized_as(before, after, uop, output, id),
    ensures
        after.uop.has_buffer_identity,
        after.buffer == Some(*output),
        !is_pending(after),
{
}

/// A tensor that was realized has the shape and the type of what was computed,
/// and realizing it again does nothing more than look its buffer up: its graph
/// is small enough to begin with, nothing is prepared or run, and the tensor is
/// left as it is.
pub proof fn law_realizing_again_does_nothing(
    before: &Tensor,
    realized: &Tensor,
    after: &Tensor,
    uop: &Uop,
    output: &Buffer,
    id: u64,
    second_id: u64,
    next: u64,
    state: Option<RealizeState>,
    action: RealizeAction,
)
    requires
        realized_as(before, realized, uop, output, id),
        realize_begins(realized, after, second_id, next, state, action),
    ensures
        realized.uop.has_buffer_identity,
        same_shape(realized.uop.shape, uop.shape),
        realized.uop.dtype == uop.dtype,
        realized.wf() && realized.uop.graph.nodes@.len() < usize::MAX - 2,
        *after == *realized,
        next == second_id,
        state is None,
        action is Adopt,
{
}

/// Once a batch is finished, none of its tensors has anything left to run, and
/// those that had nothing to run are as they were.
pub proof fn law_finished_batches_leave_nothing_pending(
    before: Seq<Tensor>,
    after: Seq<Tensor>,
    pending: Seq<usize>,
    outputs: Seq<Buffer>,
    start: u64,
)
    requires
        picks(before, pending, pending_to_realize()),
        wired_upto(before, after, pending, outputs, start, pending.len() as int),
        before.len() <= usize::MAX,
    ensures
        forall|i: int| #![trigger after[i]] 0 <= i < after.len() ==> !is_pending(&after[i]),
        forall|i: int| #![trigger after[i]] 0 <= i < after.len() && !is_pending(&before[i]) ==> after[i] == before[i],
{
    assert(pending.subrange(0, pending.len() as int) =~= pending);
    assert forall|i: int| #![trigger after[i]] 0 <= i < after.len() implies !is_pending(&after[i]) && (!is_pending(
        &before[i],
    ) ==> after[i] == before[i]) by {
        if pending.contains(i as usize) {
            let j = choose|j: int| 0 <= j < pending.len() && pending[j] == i as usize;
            assert(pending_to_realize()(before[pending[j] as int]));
            assert(i as usize as int == i);
        } else {
            assert(after[i] == before[i]);
            if is_pending(&before[i]) {
                assert(pending_to_realize()(before[i]));
            }
        }
    }
}

} // verus!
