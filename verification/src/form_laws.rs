//! What a cached form says of the graph that it stands for, and what putting a run's
//! buffers and identities back gives.

use vstd::prelude::*;
use vstd::set_lib::lemma_subset_equality;

use crate::graph::{gathered, has_source, is_source, rebinds, term, AddrSpace, BufferArg, Graph, Node, Op, ParamArg, Term};
use crate::graph_laws::{binds, introduces, lemma_gathered_from, lemma_gathered_holds};
use crate::schedule_cache::{
    allocated, dropped_at, is_schedule_buffer, normalized, restores, ScheduleCacheNormalization,
};
use crate::schedule_laws::{law_restored_ids_are_fresh, lemma_same_names, no_placeholders, unbound};
use crate::slots::{
    buffer_slots, extended, is_run_buffer, lemma_slot_somewhere, lemma_slots, picked, run_buffer_id, slots_of,
    unique_slots, walked, walked_sources,
};

verus! {

// ---------------------------------------------------------------------------
// Parameters of a form
// ---------------------------------------------------------------------------

/// An operation stands somewhere in a term.
pub open spec fn holds(t: Term, op: Op) -> bool
    decreases t,
{
    t.op == op || exists|j: int| #![trigger t.srcs[j]] 0 <= j < t.srcs.len() && holds(t.srcs[j], op)
}

/// A parameter takes the place of a buffer: it has the buffer's type, its device and
/// its size, and stands for global memory.
pub open spec fn stands_for(arg: ParamArg, buffer: BufferArg) -> bool {
    &&& arg.schedule_cache
    &&& arg.dtype == buffer.dtype
    &&& arg.device == buffer.device
    &&& arg.size == buffer.size
    &&& arg.addrspace == Some(AddrSpace::Global)
    &&& arg.name is None
    &&& arg.bounds is None
}

/// The run buffer of slot `j`, at a node of the graph.
proof fn lemma_slot_buffer(graph: &Graph, normalization: ScheduleCacheNormalization, j: int) -> (at: int)
    requires
        graph.wf(),
        normalization.normalizes(graph.nodes@),
        0 <= j < normalization.param_values@.len(),
    ensures
        0 <= at < graph.nodes@.len(),
        is_run_buffer(graph.nodes@[at].op),
        graph.nodes@[at].op == (Op::Buffer { arg: normalization.param_values@[j] }),
        buffer_slots(graph.nodes@).index_of(normalization.param_values@[j].id) == j,
{
    let nodes = graph.nodes@;
    let params = normalization.param_values@;
    let at = lemma_slot_somewhere(graph, run_buffer_id(), j);
    lemma_slots(graph, run_buffer_id());
    let other = choose|other: int|
        #![trigger nodes[other]]
        0 <= other < nodes.len() && nodes[other].op == (Op::Buffer { arg: params[j] });
    assert(nodes[at].op->Buffer_arg == nodes[other].op->Buffer_arg);
    let slots = buffer_slots(nodes);
    assert(slots[j] == params[j].id);
    let found = slots.index_of(params[j].id);
    assert(0 <= found < slots.len() && slots[found] == params[j].id);
    at
}

/// The normal form of a node holds what those of its sources do, but for a value that
/// is bound.
proof fn lemma_source_held(graph: &Graph, k: int, j: int, op: Op)
    requires
        graph.wf(),
        0 <= k < graph.nodes@.len(),
        0 <= j < graph.nodes@[k].srcs@.len(),
        !(op is Const),
        holds(
            normalized(
                term(graph.nodes@, graph.nodes@[k].srcs@[j] as int),
                buffer_slots(graph.nodes@),
                unique_slots(graph.nodes@),
            ),
            op,
        ),
    ensures
        holds(normalized(term(graph.nodes@, k), buffer_slots(graph.nodes@), unique_slots(graph.nodes@)), op),
{
    let nodes = graph.nodes@;
    let (p, q) = (buffer_slots(nodes), unique_slots(nodes));
    let t = term(nodes, k);
    assert(nodes[k].srcs@[j] < k);
    assert(t.srcs[j] == term(nodes, nodes[k].srcs@[j] as int));
    assert(!nodes[k].op.is_leaf());
    let nt = normalized(t, p, q);
    if dropped_at(nodes)(k) is Some {
        if j == 1 {
            let value = nodes[k].srcs@[1] as int;
            let ns = normalized(t.srcs[1], p, q);
            assert(ns.op.const_int() is Some);
            assert(t.srcs[1].op is Const) by {
                lemma_constants_stay(t.srcs[1], p, q);
            }
            assert(nodes[value].op.is_leaf());
            assert(nodes[value].srcs@.len() == 0);
            assert(ns.srcs.len() == 0);
            assert(ns.op == op || exists|i: int| #![trigger ns.srcs[i]] 0 <= i < ns.srcs.len() && holds(ns.srcs[i], op));
        }
        assert(nt == normalized(t.srcs[0], p, q));
    } else {
        assert(nt.srcs[j] == normalized(t.srcs[j], p, q));
    }
}

/// What is a constant in normal form is one.
proof fn lemma_constants_stay(t: Term, p: Seq<u64>, q: Seq<u64>)
    requires
        normalized(t, p, q).op.const_int() is Some,
    ensures
        t.op is Const,
{
}

proof fn lemma_held_from(graph: &Graph, i: int, op: Op)
    requires
        graph.wf(),
        0 <= i < graph.nodes@.len(),
        !(op is Const),
        holds(normalized(term(graph.nodes@, i), buffer_slots(graph.nodes@), unique_slots(graph.nodes@)), op),
    ensures
        holds(normalized(graph.root(), buffer_slots(graph.nodes@), unique_slots(graph.nodes@)), op),
    decreases graph.nodes@.len() - i,
{
    let nodes = graph.nodes@;
    if i < nodes.len() - 1 {
        assert(is_source(nodes, i));
        let (k, j) = choose|k: int, j: int| has_source(nodes, k, j, i);
        assert(nodes[k].srcs@[j] < k);
        lemma_source_held(graph, k, j, op);
        lemma_held_from(graph, k, op);
    }
}

/// For each buffer that a run supplies, the form holds a parameter of the buffer's
/// slot, with the buffer's type, device and size.
pub proof fn law_every_buffer_has_its_parameter(graph: &Graph, normalization: ScheduleCacheNormalization, j: int)
    requires
        graph.wf(),
        normalization.normalizes(graph.nodes@),
        0 <= j < normalization.param_values@.len(),
    ensures
        exists|arg: ParamArg| #[trigger]
            holds(normalization.normalized.root(), Op::Param { arg }) && arg.slot == j && stands_for(
                arg,
                normalization.param_values@[j],
            ),
{
    let nodes = graph.nodes@;
    let buffer = normalization.param_values@[j];
    let at = lemma_slot_buffer(graph, normalization, j);
    let nt = normalized(term(nodes, at), buffer_slots(nodes), unique_slots(nodes));
    let arg = nt.op->Param_arg;
    assert(j as u64 as int == j) by {
        assert(normalization.param_values.len() <= u64::MAX);
    }
    assert(nt.op == (Op::Param { arg }) && arg.slot == j && stands_for(arg, buffer));
    assert(holds(nt, Op::Param { arg }));
    lemma_held_from(graph, at, Op::Param { arg });
}

proof fn lemma_held_is_parameter(graph: &Graph, normalization: ScheduleCacheNormalization, i: int, arg: ParamArg)
    requires
        graph.wf(),
        no_placeholders(graph.nodes@),
        normalization.normalizes(graph.nodes@),
        0 <= i < graph.nodes@.len(),
        arg.schedule_cache,
        holds(
            normalized(term(graph.nodes@, i), buffer_slots(graph.nodes@), unique_slots(graph.nodes@)),
            Op::Param { arg },
        ),
    ensures
        arg.slot < normalization.param_values@.len(),
        stands_for(arg, normalization.param_values@[arg.slot as int]),
    decreases i,
{
    let nodes = graph.nodes@;
    let (p, q) = (buffer_slots(nodes), unique_slots(nodes));
    let params = normalization.param_values@;
    let t = term(nodes, i);
    let nt = normalized(t, p, q);
    let op = Op::Param { arg };
    assert(nodes[i].op == t.op);
    lemma_slots(graph, run_buffer_id());
    if is_run_buffer(t.op) {
        let own = t.op->Buffer_arg;
        assert(run_buffer_id()(nodes[i].op) == Some(own.id));
        let slot = p.index_of(own.id);
        assert(p.contains(own.id));
        assert(0 <= slot < p.len() && p[slot] == own.id);
        assert(params[slot].id == own.id);
        let at = choose|at: int|
            #![trigger nodes[at]]
            0 <= at < nodes.len() && nodes[at].op == (Op::Buffer { arg: params[slot] });
        assert(nodes[at].op->Buffer_arg == nodes[i].op->Buffer_arg);
        assert(nt.srcs.len() == 0);
        assert(slot as u64 as int == slot) by {
            assert(normalization.param_values.len() <= u64::MAX);
        }
    } else if t.op is Unique {
        assert(nt.srcs.len() == 0);
    } else if dropped_at(nodes)(i) is Some {
        assert(nodes[i].srcs@[0] < i);
        assert(nt == normalized(t.srcs[0], p, q));
        lemma_held_is_parameter(graph, normalization, nodes[i].srcs@[0] as int, arg);
    } else {
        assert(nt.op == t.op);
        if nt.op != op {
            let j = choose|j: int| #![trigger nt.srcs[j]] 0 <= j < nt.srcs.len() && holds(nt.srcs[j], op);
            assert(nodes[i].srcs@[j] < i);
            assert(nt.srcs[j] == normalized(t.srcs[j], p, q));
            lemma_held_is_parameter(graph, normalization, nodes[i].srcs@[j] as int, arg);
        }
    }
}

/// A parameter of a form stands for the buffer of its slot: it has that buffer's
/// type, device and size.
pub proof fn law_parameters_stand_for_their_buffers(
    graph: &Graph,
    normalization: ScheduleCacheNormalization,
    arg: ParamArg,
)
    requires
        graph.wf(),
        no_placeholders(graph.nodes@),
        normalization.normalizes(graph.nodes@),
        arg.schedule_cache,
        holds(normalization.normalized.root(), Op::Param { arg }),
    ensures
        arg.slot < normalization.param_values@.len(),
        stands_for(arg, normalization.param_values@[arg.slot as int]),
{
    lemma_held_is_parameter(graph, normalization, graph.nodes@.len() - 1, arg);
}

/// Graphs that share a form, and with it a schedule, have as many buffers, and slot by
/// slot buffers of one type, one device and one size.
pub proof fn law_one_form_one_layout(
    a: &Graph,
    b: &Graph,
    cached_a: ScheduleCacheNormalization,
    cached_b: ScheduleCacheNormalization,
    j: int,
)
    requires
        a.wf(),
        b.wf(),
        no_placeholders(a.nodes@),
        no_placeholders(b.nodes@),
        cached_a.normalizes(a.nodes@),
        cached_b.normalizes(b.nodes@),
        cached_a.normalized.root() == cached_b.normalized.root(),
    ensures
        cached_a.param_values@.len() == cached_b.param_values@.len(),
        0 <= j < cached_a.param_values@.len() ==> ({
            let (x, y) = (cached_a.param_values@[j], cached_b.param_values@[j]);
            x.dtype == y.dtype && x.device == y.device && x.size == y.size
        }),
{
    let (m, n) = (cached_a.param_values@.len(), cached_b.param_values@.len());
    if m > 0 {
        lemma_slot_of_other(a, b, cached_a, cached_b, m - 1);
    }
    if n > 0 {
        lemma_slot_of_other(b, a, cached_b, cached_a, n - 1);
    }
    if 0 <= j < m {
        lemma_slot_of_other(a, b, cached_a, cached_b, j);
    }
}

proof fn lemma_slot_of_other(
    a: &Graph,
    b: &Graph,
    cached_a: ScheduleCacheNormalization,
    cached_b: ScheduleCacheNormalization,
    j: int,
)
    requires
        a.wf(),
        b.wf(),
        no_placeholders(b.nodes@),
        cached_a.normalizes(a.nodes@),
        cached_b.normalizes(b.nodes@),
        cached_a.normalized.root() == cached_b.normalized.root(),
        0 <= j < cached_a.param_values@.len(),
    ensures
        j < cached_b.param_values@.len(),
        cached_a.param_values@[j].dtype == cached_b.param_values@[j].dtype,
        cached_a.param_values@[j].device == cached_b.param_values@[j].device,
        cached_a.param_values@[j].size == cached_b.param_values@[j].size,
{
    law_every_buffer_has_its_parameter(a, cached_a, j);
    let arg = choose|arg: ParamArg| #[trigger]
        holds(cached_a.normalized.root(), Op::Param { arg }) && arg.slot == j && stands_for(
            arg,
            cached_a.param_values@[j],
        );
    law_parameters_stand_for_their_buffers(b, cached_b, arg);
}

/// The buffers of a form are listed once more by their ids: each of them, in ascending
/// order, under its own id.
pub proof fn law_buffers_are_listed_by_id(
    graph: &Graph,
    normalization: ScheduleCacheNormalization,
    a: int,
    b: int,
    j: int,
)
    requires
        graph.wf(),
        normalization.normalizes(graph.nodes@),
    ensures
        normalization.param_buffers@.len() == normalization.param_values@.len(),
        0 <= a < b < normalization.param_buffers@.len() ==> normalization.param_buffers@[a].0
            < normalization.param_buffers@[b].0,
        0 <= j < normalization.param_values@.len() ==> normalization.param_buffers@.contains(
            (normalization.param_values@[j].id, normalization.param_values@[j]),
        ),
{
    let nodes = graph.nodes@;
    let list = normalization.param_buffers@;
    let params = normalization.param_values@;
    let slots = buffer_slots(nodes);
    lemma_slots(graph, run_buffer_id());
    if 0 <= j < params.len() {
        let ids = Seq::new(list.len(), |i: int| list[i].0);
        assert(ids.no_duplicates()) by {
            assert forall|x: int, y: int| 0 <= x < ids.len() && 0 <= y < ids.len() && x != y implies ids[x] != ids[y] by {
                if x < y {
                    assert(list[x].0 < list[y].0);
                } else {
                    assert(list[y].0 < list[x].0);
                }
            }
        }
        ids.unique_seq_to_set();
        slots.unique_seq_to_set();
        assert(ids.to_set().subset_of(slots.to_set())) by {
            assert forall|id: u64| ids.to_set().contains(id) implies slots.to_set().contains(id) by {
                let x = choose|x: int| 0 <= x < ids.len() && ids[x] == id;
                assert(params.contains(list[x].1));
                let y = choose|y: int| 0 <= y < params.len() && params[y] == list[x].1;
                assert(params[y].id == slots[y]);
            }
        }
        lemma_subset_equality(ids.to_set(), slots.to_set());
        assert(params[j].id == slots[j]);
        assert(slots.to_set().contains(slots[j]));
        assert(ids.to_set().contains(slots[j]));
        let x = choose|x: int| 0 <= x < ids.len() && ids[x] == slots[j];
        assert(params.contains(list[x].1));
        let y = choose|y: int| 0 <= y < params.len() && params[y] == list[x].1;
        assert(slots[y] == slots[j]);
        assert(y == j);
        assert(list[x] == (params[j].id, params[j]));
    }
}

proof fn lemma_no_run_in_form(graph: &Graph, i: int, op: Op)
    requires
        graph.wf(),
        0 <= i < graph.nodes@.len(),
        holds(normalized(term(graph.nodes@, i), buffer_slots(graph.nodes@), unique_slots(graph.nodes@)), op),
    ensures
        !is_run_buffer(op),
        !(op is Unique),
    decreases i,
{
    let nodes = graph.nodes@;
    let (p, q) = (buffer_slots(nodes), unique_slots(nodes));
    let t = term(nodes, i);
    let nt = normalized(t, p, q);
    if is_run_buffer(t.op) || t.op is Unique {
        assert(nt.srcs.len() == 0);
    } else if dropped_at(nodes)(i) is Some {
        assert(nodes[i].srcs@[0] < i);
        assert(nt == normalized(t.srcs[0], p, q));
        lemma_no_run_in_form(graph, nodes[i].srcs@[0] as int, op);
    } else {
        assert(nt.op == t.op);
        if nt.op != op {
            let j = choose|j: int| #![trigger nt.srcs[j]] 0 <= j < nt.srcs.len() && holds(nt.srcs[j], op);
            assert(nodes[i].srcs@[j] < i);
            assert(nt.srcs[j] == normalized(t.srcs[j], p, q));
            lemma_no_run_in_form(graph, nodes[i].srcs@[j] as int, op);
        }
    }
}

/// A form holds nothing of a run: no buffer that the run supplies, and no identity.
pub proof fn law_forms_hold_nothing_of_a_run(graph: &Graph, normalization: ScheduleCacheNormalization, op: Op)
    requires
        graph.wf(),
        normalization.normalizes(graph.nodes@),
        holds(normalization.normalized.root(), op),
    ensures
        !(op matches Op::Buffer { arg } && arg.addrspace == Some(AddrSpace::Global) && arg.size is Some),
        !(op is Unique),
{
    lemma_no_run_in_form(graph, graph.nodes@.len() - 1, op);
}

/// A form keeps every operation that is not a run's: storage that is internal to a kernel,
/// or has no constant size, variables, parameters and whatever computes. Only a binding and
/// the constant that it binds may be gone.
pub proof fn law_forms_keep_everything_else(graph: &Graph, normalization: ScheduleCacheNormalization, i: int)
    requires
        graph.wf(),
        normalization.normalizes(graph.nodes@),
        0 <= i < graph.nodes@.len(),
        !(graph.nodes@[i].op is Unique),
        !(graph.nodes@[i].op is Bind),
        !(graph.nodes@[i].op is Const),
        graph.nodes@[i].op matches Op::Buffer { arg } ==> arg.addrspace != Some(AddrSpace::Global) || arg.size is None,
    ensures
        holds(normalization.normalized.root(), graph.nodes@[i].op),
{
    let nodes = graph.nodes@;
    let nt = normalized(term(nodes, i), buffer_slots(nodes), unique_slots(nodes));
    assert(nt.op == nodes[i].op);
    lemma_held_from(graph, i, nodes[i].op);
}

/// An operation that binds nothing keeps its sources, each in its place, constants among
/// them.
pub proof fn law_forms_keep_sources_in_place(
    graph: &Graph,
    normalization: ScheduleCacheNormalization,
    k: int,
    j: int,
)
    requires
        graph.wf(),
        normalization.normalizes(graph.nodes@),
        0 <= k < graph.nodes@.len(),
        0 <= j < graph.nodes@[k].srcs@.len(),
        !(graph.nodes@[k].op is Bind),
    ensures
        ({
            let nodes = graph.nodes@;
            let (p, q) = (buffer_slots(nodes), unique_slots(nodes));
            normalized(term(nodes, k), p, q).op == nodes[k].op && normalized(term(nodes, k), p, q).srcs[j] == normalized(
                term(nodes, nodes[k].srcs@[j] as int),
                p,
                q,
            )
        }),
{
    let nodes = graph.nodes@;
    assert(nodes[k].srcs@[j] < k);
    assert(!nodes[k].op.is_leaf());
}

// ---------------------------------------------------------------------------
// Slots of a form
// ---------------------------------------------------------------------------

proof fn lemma_walk_of_first(t: Term, k: nat, pick: spec_fn(Op) -> Option<u64>, m: nat)
    requires
        m <= k <= t.srcs.len(),
    ensures
        walked_sources(Term { op: Op::Sink { explicit_opts: false }, srcs: t.srcs.take(k as int) }, m, pick)
            == walked_sources(t, m, pick),
    decreases m,
{
    if m > 0 {
        lemma_walk_of_first(t, k, pick, (m - 1) as nat);
        assert(t.srcs.take(k as int)[m - 1] == t.srcs[m - 1]);
    }
}

proof fn lemma_extended_prefix(ids: Seq<u64>, more: Seq<u64>, rest: Seq<u64>)
    ensures
        extended(ids, more).is_prefix_of(extended(ids, more + rest)),
    decreases rest.len(),
{
    if rest.len() == 0 {
        assert(more + rest =~= more);
    } else {
        lemma_extended_prefix(ids, more, rest.drop_last());
        assert((more + rest).drop_last() =~= more + rest.drop_last());
        assert((more + rest).last() == rest.last());
    }
}

proof fn lemma_more_sources(t: Term, k: nat, n: nat, pick: spec_fn(Op) -> Option<u64>) -> (rest: Seq<u64>)
    requires
        k <= n <= t.srcs.len(),
    ensures
        walked_sources(t, n, pick) == walked_sources(t, k, pick) + rest,
    decreases n - k,
{
    if k == n {
        assert(walked_sources(t, k, pick) + Seq::<u64>::empty() =~= walked_sources(t, k, pick));
        Seq::empty()
    } else {
        let rest = lemma_more_sources(t, k, (n - 1) as nat, pick);
        let all = rest + walked(t.srcs[n - 1], pick);
        assert(walked_sources(t, n, pick) =~= walked_sources(t, k, pick) + all);
        all
    }
}

/// Slots are given in the order of the computation: what the first sources of a term read
/// has the first slots, whatever the sources after them read, and what the term itself is
/// comes last.
pub proof fn law_slots_follow_the_computation(t: Term, k: nat, buffers: bool)
    requires
        k <= t.srcs.len(),
    ensures
        ({
            let pick = picked(buffers);
            let first = Term { op: Op::Sink { explicit_opts: false }, srcs: t.srcs.take(k as int) };
            &&& slots_of(first, pick).is_prefix_of(slots_of(t, pick))
            &&& t.srcs.len() == 1 && pick(t.op) is None ==> slots_of(t, pick) == slots_of(t.srcs[0], pick)
            &&& t.srcs.len() == 0 && pick(t.op) is None ==> slots_of(t, pick).len() == 0
            &&& t.srcs.len() == 0 ==> (pick(t.op) matches Some(id) ==> slots_of(t, pick) == seq![id])
        }),
{
    let pick = picked(buffers);
    let first = Term { op: Op::Sink { explicit_opts: false }, srcs: t.srcs.take(k as int) };
    lemma_walk_of_first(t, k, pick, k);
    assert(walked(first, pick) =~= walked_sources(t, k, pick));
    let rest = lemma_more_sources(t, k, t.srcs.len(), pick);
    let own = crate::slots::own_id(t.op, pick);
    lemma_extended_prefix(Seq::empty(), walked_sources(t, k, pick), rest + own);
    assert(walked(t, pick) =~= walked_sources(t, k, pick) + (rest + own));
    if t.srcs.len() == 1 && pick(t.op) is None {
        assert(walked_sources(t, 0, pick) =~= Seq::<u64>::empty());
        assert(walked_sources(t, 1, pick) =~= walked(t.srcs[0], pick));
        assert(walked(t, pick) =~= walked(t.srcs[0], pick));
    }
    if t.srcs.len() == 0 {
        assert(walked_sources(t, 0, pick) =~= Seq::<u64>::empty());
        assert(walked(t, pick) =~= own);
        if own.len() > 0 {
            assert(own.drop_last() =~= Seq::<u64>::empty());
            assert(extended(Seq::empty(), own.drop_last()) =~= Seq::<u64>::empty());
            assert(extended(Seq::empty(), own) =~= own);
        }
    }
}

/// What has a slot is a buffer in global memory, of constant size, or an identity.
pub proof fn law_only_a_runs_own_has_slots(op: Op)
    ensures
        picked(true)(op) == match op {
            Op::Buffer { arg } => if arg.addrspace == Some(AddrSpace::Global) && arg.size is Some {
                Some(arg.id)
            } else {
                None
            },
            _ => None,
        },
        picked(false)(op) is Some <==> op is Unique,
        op matches Op::Unique { id } ==> picked(false)(op) == Some(id),
{
}

// ---------------------------------------------------------------------------
// Values of a form
// ---------------------------------------------------------------------------

/// Node `i` binds `name` to `value`, where the variable may itself be bound.
pub open spec fn binds_through(nodes: Seq<Node>, i: int, name: Seq<char>, value: i64) -> bool {
    &&& 0 <= i < nodes.len()
    &&& nodes[i].op is Bind
    &&& nodes[i].srcs@.len() == 2
    &&& introduces(unbound(term(nodes, nodes[i].srcs@[0] as int)).op, name)
    &&& nodes[nodes[i].srcs@[1] as int].op matches Op::Const { value: Some(own), .. } && own == value
}

pub(crate) proof fn lemma_dropped(graph: &Graph, i: int, name: Seq<char>, value: i64)
    requires
        graph.wf(),
        0 <= i < graph.nodes@.len(),
    ensures
        dropped_at(graph.nodes@)(i) == Some((name, value)) <==> binds_through(graph.nodes@, i, name, value),
        binds(graph.nodes@, i, name, value) ==> binds_through(graph.nodes@, i, name, value),
{
    let nodes = graph.nodes@;
    let (p, q) = (buffer_slots(nodes), unique_slots(nodes));
    if nodes[i].op is Bind && nodes[i].srcs@.len() == 2 {
        assert(nodes[i].srcs@[0] < i && nodes[i].srcs@[1] < i);
        let t = term(nodes, i);
        let (var, val) = (term(nodes, nodes[i].srcs@[0] as int), term(nodes, nodes[i].srcs@[1] as int));
        assert(t.srcs[0] == var && t.srcs[1] == val);
        lemma_same_names(var, p, q);
        lemma_same_names(val, p, q);
        if normalized(val, p, q).op.const_int() is Some {
            lemma_constants_stay(val, p, q);
        }
        if binds(nodes, i, name, value) {
            assert(!(var.op is Bind));
            assert(unbound(var).op == var.op);
        }
    }
}

/// The values that go with a form are those that the graph binds its variables to, and
/// no others.
pub proof fn law_values_go_with_the_form(
    graph: &Graph,
    normalization: ScheduleCacheNormalization,
    name: Seq<char>,
    value: i64,
    i: int,
)
    requires
        graph.wf(),
        normalization.normalizes(graph.nodes@),
    ensures
        normalization.var_vals@.contains_pair(name, value) <==> exists|k: int| #[trigger]
            binds_through(graph.nodes@, k, name, value),
        binds(graph.nodes@, i, name, value) ==> normalization.var_vals@.contains_pair(name, value),
{
    let nodes = graph.nodes@;
    let pair = dropped_at(nodes);
    if normalization.var_vals@.contains_pair(name, value) {
        let k = lemma_gathered_from(pair, nodes.len(), name);
        lemma_dropped(graph, k, name, value);
    }
    if exists|k: int| #[trigger] binds_through(nodes, k, name, value) {
        let k = choose|k: int| #[trigger] binds_through(nodes, k, name, value);
        lemma_dropped(graph, k, name, value);
        lemma_gathered_holds(pair, nodes.len(), k, name, value);
    }
    if binds(nodes, i, name, value) {
        lemma_dropped(graph, i, name, value);
        assert(binds_through(nodes, i, name, value));
    }
}

/// A graph has no form if and only if it binds a variable to two values.
pub proof fn law_contradictions_have_no_form(graph: &Graph)
    requires
        graph.wf(),
    ensures
        (exists|i: int| 0 <= i < graph.nodes@.len() && #[trigger] rebinds(dropped_at(graph.nodes@), i)) <==> exists|
            a: int,
            b: int,
            name: Seq<char>,
            x: i64,
            y: i64,
        | #[trigger]
            binds_through(graph.nodes@, a, name, x) && #[trigger] binds_through(graph.nodes@, b, name, y) && x != y,
{
    let nodes = graph.nodes@;
    let pair = dropped_at(nodes);
    if exists|i: int| 0 <= i < nodes.len() && #[trigger] rebinds(pair, i) {
        let i = choose|i: int| 0 <= i < nodes.len() && #[trigger] rebinds(pair, i);
        let (name, y) = pair(i)->0;
        let x = gathered(pair, i as nat)[name];
        let a = lemma_gathered_from(pair, i as nat, name);
        lemma_dropped(graph, a, name, x);
        lemma_dropped(graph, i, name, y);
        assert(binds_through(nodes, a, name, x) && binds_through(nodes, i, name, y) && x != y);
    }
    if exists|a: int, b: int, name: Seq<char>, x: i64, y: i64| #[trigger]
        binds_through(nodes, a, name, x) && #[trigger] binds_through(nodes, b, name, y) && x != y {
        let (a, b, name, x, y) = choose|a: int, b: int, name: Seq<char>, x: i64, y: i64| #[trigger]
            binds_through(nodes, a, name, x) && #[trigger] binds_through(nodes, b, name, y) && x != y;
        lemma_dropped(graph, a, name, x);
        lemma_dropped(graph, b, name, y);
        if forall|j: int| 0 <= j < nodes.len() ==> !#[trigger] rebinds(pair, j) {
            lemma_gathered_holds(pair, nodes.len(), a, name, x);
            lemma_gathered_holds(pair, nodes.len(), b, name, y);
        }
    }
}

// ---------------------------------------------------------------------------
// Putting a run back
// ---------------------------------------------------------------------------

proof fn lemma_allocated_stays(
    nodes: Seq<Node>,
    params: Seq<BufferArg>,
    uniques: Seq<u64>,
    start: u64,
    k: nat,
    n: nat,
)
    requires
        k <= n,
    ensures
        ({
            let a = allocated(nodes, params, uniques, start, k);
            let b = allocated(nodes, params, uniques, start, n);
            &&& forall|slot: u64| #[trigger]
                a.locals.dom().contains(slot) ==> b.locals.dom().contains(slot) && b.locals[slot] == a.locals[slot]
            &&& forall|slot: u64| #[trigger]
                a.params.dom().contains(slot) ==> b.params.dom().contains(slot) && b.params[slot] == a.params[slot]
            &&& forall|slot: u64| #[trigger]
                a.lost.dom().contains(slot) ==> b.lost.dom().contains(slot) && b.lost[slot] == a.lost[slot]
        }),
    decreases n - k,
{
    if k < n {
        lemma_allocated_stays(nodes, params, uniques, start, k, (n - 1) as nat);
    }
}

/// A buffer is a run's own: like the one that it is made for, but not the cache's.
pub open spec fn made_for(made: BufferArg, kept: BufferArg) -> bool {
    &&& made.dtype == kept.dtype
    &&& made.device == kept.device
    &&& made.size == kept.size
    &&& made.addrspace == Some(AddrSpace::Global)
    &&& !made.schedule_local
}

/// What restoring has allocated is like what it was allocated for.
proof fn lemma_allocated_like(
    nodes: Seq<Node>,
    params: Seq<BufferArg>,
    uniques: Seq<u64>,
    start: u64,
    k: nat,
    slot: u64,
)
    requires
        k <= nodes.len(),
    ensures
        ({
            let state = allocated(nodes, params, uniques, start, k);
            &&& state.params.dom().contains(slot) ==> slot < params.len() && is_schedule_buffer(
                Op::Buffer { arg: params[slot as int] },
            ) && params[slot as int].device is Some && params[slot as int].size is Some && made_for(
                state.params[slot],
                params[slot as int],
            )
            &&& state.locals.dom().contains(slot) ==> exists|i: int|
                #![trigger nodes[i]]
                0 <= i < k && is_schedule_buffer(nodes[i].op) && nodes[i].op->Buffer_arg.slot == slot && made_for(
                    state.locals[slot],
                    nodes[i].op->Buffer_arg,
                )
            &&& state.lost.dom().contains(slot) ==> slot >= uniques.len()
        }),
    decreases k,
{
    if k > 0 {
        lemma_allocated_like(nodes, params, uniques, start, (k - 1) as nat, slot);
        let before = allocated(nodes, params, uniques, start, (k - 1) as nat);
        let state = allocated(nodes, params, uniques, start, k);
        if state.locals.dom().contains(slot) {
            if before.locals.dom().contains(slot) {
                let i = choose|i: int|
                    #![trigger nodes[i]]
                    0 <= i < k - 1 && is_schedule_buffer(nodes[i].op) && nodes[i].op->Buffer_arg.slot == slot && made_for(
                        before.locals[slot],
                        nodes[i].op->Buffer_arg,
                    );
                assert(is_schedule_buffer(nodes[i].op));
                assert(state.locals[slot] == before.locals[slot]);
            } else {
                assert(is_schedule_buffer(nodes[k - 1].op));
            }
        }
    }
}

/// Restoring keeps every edge of a cached graph, and every operation that is no
/// placeholder. A cache parameter becomes the buffer of its slot, and a local identity
/// the one of its slot.
pub proof fn law_placeholders_are_put_back(
    nodes: Seq<Node>,
    restored: Seq<Node>,
    params: Seq<BufferArg>,
    uniques: Seq<u64>,
    start: u64,
    i: int,
)
    requires
        restores(nodes, restored, params, uniques, start),
        0 <= i < nodes.len(),
    ensures
        restored.len() == nodes.len(),
        restored[i].srcs@ == nodes[i].srcs@,
        nodes[i].op matches Op::Param { arg } ==> {
            &&& !arg.schedule_cache || arg.slot >= params.len() ==> restored[i].op == nodes[i].op
            &&& arg.schedule_cache && arg.slot < params.len() && !params[arg.slot as int].schedule_local ==> restored[i].op
                == (Op::Buffer { arg: params[arg.slot as int] })
            &&& arg.schedule_cache && arg.slot < params.len() && params[arg.slot as int].schedule_local
                && params[arg.slot as int].addrspace == Some(AddrSpace::Global) && params[arg.slot as int].device is Some
                && params[arg.slot as int].size is Some ==> (restored[i].op matches Op::Buffer { arg: made } && made_for(
                made,
                params[arg.slot as int],
            ))
        },
        nodes[i].op matches Op::LUnique { slot } ==> {
            &&& slot < uniques.len() ==> restored[i].op == (Op::Unique { id: uniques[slot as int] })
            &&& slot >= uniques.len() ==> restored[i].op is Unique
        },
        nodes[i].op matches Op::Buffer { arg } ==> {
            &&& !arg.schedule_local || arg.addrspace != Some(AddrSpace::Global) ==> restored[i].op == nodes[i].op
            &&& arg.schedule_local && arg.addrspace == Some(AddrSpace::Global) && arg.device is Some && arg.size is Some
                ==> (restored[i].op matches Op::Buffer { arg: made } && !made.schedule_local)
        },
        !(nodes[i].op is Param) && !(nodes[i].op is LUnique) && !(nodes[i].op is Buffer) ==> restored[i].op
            == nodes[i].op,
{
    let _ = restored[i];
    match nodes[i].op {
        Op::Param { arg } => lemma_allocated_like(nodes, params, uniques, start, (i + 1) as nat, arg.slot),
        Op::Buffer { arg } => lemma_allocated_like(nodes, params, uniques, start, (i + 1) as nat, arg.slot),
        _ => {},
    }
}

/// Nodes that name one schedule buffer read one buffer after restoring, and so do
/// parameters and identities of one slot; what is allocated is like what it is allocated
/// for, and new.
pub proof fn law_one_slot_one_allocation(
    nodes: Seq<Node>,
    restored: Seq<Node>,
    normalization: ScheduleCacheNormalization,
    start: u64,
    i: int,
    j: int,
)
    requires
        restores(nodes, restored, normalization.param_values@, normalization.unique_values@, start),
        start + nodes.len() <= u64::MAX,
        0 <= i < j < nodes.len(),
    ensures
        nodes[i].op is LUnique && nodes[j].op == nodes[i].op ==> restored[j].op == restored[i].op,
        nodes[i].op is Param && nodes[j].op == nodes[i].op ==> restored[j].op == restored[i].op,
        is_schedule_buffer(nodes[i].op) && is_schedule_buffer(nodes[j].op) && nodes[i].op->Buffer_arg.device is Some
            && nodes[i].op->Buffer_arg.size is Some ==> ({
            let (x, y) = (nodes[i].op->Buffer_arg, nodes[j].op->Buffer_arg);
            &&& x.slot == y.slot ==> restored[j].op == restored[i].op
            &&& restored[i].op matches Op::Buffer { arg } && start <= arg.id && !arg.schedule_local
            &&& x.slot != y.slot && y.device is Some && y.size is Some ==> restored[j].op->Buffer_arg.id
                != restored[i].op->Buffer_arg.id
            &&& (forall|k: int|
                #![trigger nodes[k]]
                0 <= k < i && is_schedule_buffer(nodes[k].op) ==> nodes[k].op->Buffer_arg.slot != x.slot) ==> made_for(
                restored[i].op->Buffer_arg,
                x,
            )
        }),
{
    let params = normalization.param_values@;
    let uniques = normalization.unique_values@;
    let _ = (restored[i], restored[j]);
    let (m, n) = ((i + 1) as nat, (j + 1) as nat);
    lemma_allocated_stays(nodes, params, uniques, start, m, n);
    law_restored_ids_are_fresh(nodes, normalization, start, m);
    law_restored_ids_are_fresh(nodes, normalization, start, n);
    let a = allocated(nodes, params, uniques, start, m);
    let b = allocated(nodes, params, uniques, start, n);
    match nodes[i].op {
        Op::LUnique { slot } => {
            if slot >= uniques.len() {
                assert(a.lost.dom().contains(slot));
            }
        },
        Op::Param { arg } => {
            lemma_allocated_like(nodes, params, uniques, start, m, arg.slot);
            lemma_allocated_like(nodes, params, uniques, start, n, arg.slot);
        },
        Op::Buffer { arg } => {
            if is_schedule_buffer(nodes[i].op) && is_schedule_buffer(nodes[j].op) && arg.device is Some && arg.size is Some {
                assert(a.locals.dom().contains(arg.slot));
                let other = nodes[j].op->Buffer_arg;
                if other.device is Some && other.size is Some {
                    assert(b.locals.dom().contains(other.slot));
                }
                lemma_allocated_like(nodes, params, uniques, start, m, arg.slot);
                if forall|k: int|
                    #![trigger nodes[k]]
                    0 <= k < i && is_schedule_buffer(nodes[k].op) ==> nodes[k].op->Buffer_arg.slot != arg.slot {
                    let k = choose|k: int|
                        #![trigger nodes[k]]
                        0 <= k < m && is_schedule_buffer(nodes[k].op) && nodes[k].op->Buffer_arg.slot == arg.slot
                            && made_for(a.locals[arg.slot], nodes[k].op->Buffer_arg);
                    assert(k == i);
                }
            }
        },
        _ => {},
    }
}

} // verus!
