//! What normalizing a graph and restoring it keep.

use vstd::prelude::*;

use crate::graph::{has_source, is_source, term, BufferArg, Graph, Node, Op, Term};
use crate::schedule_cache::{allocated, dropped_at, normalized, restored_op, restores, ScheduleCacheNormalization};
use crate::slots::{
    buffer_slots, extended, is_run_buffer, lemma_slot_somewhere, lemma_slots, run_buffer_id, unique_id,
    unique_slots, walked, walked_sources,
};

verus! {

/// A term without the values bound to its variables.
pub open spec fn unbound(t: Term) -> Term
    decreases t,
{
    let srcs = Seq::new(
        t.srcs.len(),
        |j: int|
            if 0 <= j < t.srcs.len() {
                unbound(t.srcs[j])
            } else {
                arbitrary()
            },
    );
    if t.op is Bind && srcs.len() == 2 && srcs[0].op.var_name() is Some && srcs[1].op.const_int() is Some {
        srcs[0]
    } else {
        Term { op: t.op, srcs }
    }
}

/// No node is one of the placeholders that only cached schedules hold.
pub open spec fn no_placeholders(nodes: Seq<Node>) -> bool {
    forall|i: int|
        #![trigger nodes[i]]
        0 <= i < nodes.len() ==> match nodes[i].op {
            Op::Param { arg } => !arg.schedule_cache,
            Op::Buffer { arg } => !arg.schedule_local,
            Op::LUnique { .. } => false,
            _ => true,
        }
}

pub(crate) proof fn lemma_same_names(t: Term, buffers: Seq<u64>, uniques: Seq<u64>)
    ensures
        normalized(t, buffers, uniques).op.var_name() == unbound(t).op.var_name(),
        normalized(t, buffers, uniques).op.const_int() == unbound(t).op.const_int(),
    decreases t,
{
    if t.op is Bind && t.srcs.len() == 2 {
        lemma_same_names(t.srcs[0], buffers, uniques);
        lemma_same_names(t.srcs[1], buffers, uniques);
    }
}

/// With no schedule buffer among the parameters, none is allocated for one.
proof fn lemma_no_fresh_params(
    nodes: Seq<Node>,
    normalization: ScheduleCacheNormalization,
    start: u64,
    k: nat,
)
    requires
        forall|j: int|
            #![trigger normalization.param_values@[j]]
            0 <= j < normalization.param_values@.len() ==> !normalization.param_values@[j].schedule_local,
    ensures
        allocated(nodes, normalization.param_values@, normalization.unique_values@, start, k).params
            == Map::<u64, BufferArg>::empty(),
    decreases k,
{
    if k > 0 {
        lemma_no_fresh_params(nodes, normalization, start, (k - 1) as nat);
    }
}

/// Restoring the normal form of node `k` gives back what node `k` computes,
/// without bound values.
proof fn lemma_restored_node(
    graph: &Graph,
    normalization: ScheduleCacheNormalization,
    form: &Graph,
    restored: Seq<Node>,
    start: u64,
    k: int,
    i: int,
)
    requires
        graph.wf(),
        no_placeholders(graph.nodes@),
        normalization.normalizes(graph.nodes@),
        form.wf(),
        restores(
            form.nodes@,
            restored,
            normalization.param_values@,
            normalization.unique_values@,
            start,
        ),
        0 <= k < graph.nodes@.len(),
        0 <= i < form.nodes@.len(),
        term(form.nodes@, i) == normalized(
            term(graph.nodes@, k),
            buffer_slots(graph.nodes@),
            unique_slots(graph.nodes@),
        ),
    ensures
        term(restored, i) == unbound(term(graph.nodes@, k)),
    decreases k,
{
    let nodes = graph.nodes@;
    let cached = form.nodes@;
    let buffers = buffer_slots(nodes);
    let uniques = unique_slots(nodes);
    let params = normalization.param_values@;
    let t = term(nodes, k);
    let width = (normalization.param_values.len(), normalization.unique_values.len());
    lemma_slots(graph, run_buffer_id());
    lemma_slots(graph, unique_id());
    assert forall|j: int| #![trigger params[j]] 0 <= j < params.len() implies !params[j].schedule_local by {
        let at = choose|at: int|
            #![trigger nodes[at]]
            0 <= at < nodes.len() && nodes[at].op == (Op::Buffer { arg: params[j] });
    }
    lemma_no_fresh_params(cached, normalization, start, (i + 1) as nat);
    assert(restored[i].op == restored_op(cached, params, normalization.unique_values@, start, i));
    if is_run_buffer(t.op) {
        let arg = t.op->Buffer_arg;
        assert(run_buffer_id()(nodes[k].op) == Some(arg.id));
        let slot = buffers.index_of(arg.id);
        assert(0 <= slot < buffers.len() && buffers[slot] == arg.id);
        assert(params[slot].id == arg.id);
        let at = choose|at: int|
            #![trigger nodes[at]]
            0 <= at < nodes.len() && nodes[at].op == (Op::Buffer { arg: params[slot] });
        assert(nodes[at].op->Buffer_arg == nodes[k].op->Buffer_arg);
        assert(slot as u64 as int == slot);
        assert(restored[i].op == t.op);
        assert(nodes[k].op.is_leaf());
        assert(term(restored, i).srcs =~= unbound(t).srcs);
    } else if t.op is Unique {
        let id = t.op->Unique_id;
        assert(unique_id()(nodes[k].op) == Some(id));
        let slot = uniques.index_of(id);
        assert(0 <= slot < uniques.len() && uniques[slot] == id);
        assert(slot as u64 as int == slot);
        assert(restored[i].op == t.op);
        assert(nodes[k].op.is_leaf());
        assert(term(restored, i).srcs =~= unbound(t).srcs);
    } else if dropped_at(nodes)(k) is Some {
        let var = nodes[k].srcs@[0] as int;
        assert(nodes[k].srcs@[0] < k);
        assert(t.srcs[0] == term(nodes, var));
        lemma_same_names(t.srcs[0], buffers, uniques);
        lemma_same_names(t.srcs[1], buffers, uniques);
        lemma_restored_node(graph, normalization, form, restored, start, var, i);
    } else {
        assert(cached[i].op == t.op);
        assert(restored[i].op == t.op) by {
            assert(nodes[k].op == t.op);
        }
        if t.op is Bind && t.srcs.len() == 2 {
            lemma_same_names(t.srcs[0], buffers, uniques);
            lemma_same_names(t.srcs[1], buffers, uniques);
        }
        assert(cached[i].srcs@.len() == t.srcs.len()) by {
            assert(term(cached, i).srcs.len() == t.srcs.len());
        }
        assert forall|j: int| 0 <= j < t.srcs.len() implies #[trigger] term(restored, i).srcs[j] == unbound(t).srcs[j] by {
            let src = nodes[k].srcs@[j] as int;
            assert(nodes[k].srcs@[j] < k);
            let out = cached[i].srcs@[j] as int;
            assert(cached[i].srcs@[j] < i);
            assert(term(cached, i).srcs[j] == normalized(t.srcs[j], buffers, uniques));
            lemma_restored_node(graph, normalization, form, restored, start, src, out);
        }
        assert(term(restored, i).srcs =~= unbound(t).srcs);
    }
}

/// Restoring the cached form of a graph gives the graph back: every buffer and
/// every identity of the run stands where it stood, and only the values bound
/// to variables are gone (they are in the normalization's `var_vals`).
pub proof fn law_restore_undoes_normalize(
    graph: &Graph,
    normalization: ScheduleCacheNormalization,
    restored: Graph,
    start: u64,
)
    requires
        graph.wf(),
        no_placeholders(graph.nodes@),
        normalization.normalizes(graph.nodes@),
        restores(
            normalization.normalized.nodes@,
            restored.nodes@,
            normalization.param_values@,
            normalization.unique_values@,
            start,
        ),
    ensures
        restored.root() == unbound(graph.root()),
{
    lemma_restored_node(
        graph,
        normalization,
        &normalization.normalized,
        restored.nodes@,
        start,
        graph.nodes@.len() - 1,
        normalization.normalized.nodes@.len() - 1,
    );
}

/// What is cached for one run serves every run with the same cached form: put
/// back for another run, it gives that run's graph, without bound values.
pub proof fn law_a_cached_form_serves_its_runs(
    graph: &Graph,
    normalization: ScheduleCacheNormalization,
    form: &Graph,
    restored: Graph,
    start: u64,
)
    requires
        graph.wf(),
        no_placeholders(graph.nodes@),
        normalization.normalizes(graph.nodes@),
        form.wf(),
        form.root() == normalization.normalized.root(),
        restores(
            form.nodes@,
            restored.nodes@,
            normalization.param_values@,
            normalization.unique_values@,
            start,
        ),
    ensures
        restored.root() == unbound(graph.root()),
{
    lemma_restored_node(
        graph,
        normalization,
        form,
        restored.nodes@,
        start,
        graph.nodes@.len() - 1,
        form.nodes@.len() - 1,
    );
}

/// A term binds a variable to an integer constant.
pub open spec fn binds_integer(t: Term) -> bool {
    &&& t.op is Bind
    &&& t.srcs.len() == 2
    &&& unbound(t.srcs[0]).op.var_name() is Some
    &&& t.srcs[1].op.const_int() is Some
    &&& t.srcs[1].srcs.len() == 0
}

/// The operation that another run has in the place of this one: run buffers and
/// identities are replaced, and anything else is kept.
pub open spec fn rerun_op(op: Op, rename: spec_fn(u64) -> BufferArg, renumber: spec_fn(u64) -> u64) -> Op {
    match op {
        Op::Buffer { arg } => if is_run_buffer(op) {
            Op::Buffer { arg: rename(arg.id) }
        } else {
            op
        },
        Op::Unique { id } => Op::Unique { id: renumber(id) },
        _ => op,
    }
}

/// A run buffer can take the place of another: it differs in its identity
/// alone.
pub open spec fn fits(op: Op, other: Op) -> bool {
    op matches Op::Buffer { arg } && other matches Op::Buffer { arg: replaced } && is_run_buffer(other) && arg.dtype
        == replaced.dtype && arg.device == replaced.device && arg.size == replaced.size
}

/// `u` is the term `t` of another run: each run buffer is replaced by the one
/// that `rename` gives for its id, each identity by the one that `renumber`
/// gives, and each integer that a variable is bound to by any other.
pub open spec fn reruns(
    t: Term,
    u: Term,
    rename: spec_fn(u64) -> BufferArg,
    renumber: spec_fn(u64) -> u64,
) -> bool
    decreases t,
{
    if binds_integer(t) {
        &&& binds_integer(u)
        &&& reruns(t.srcs[0], u.srcs[0], rename, renumber)
    } else {
        &&& u.op == rerun_op(t.op, rename, renumber)
        &&& is_run_buffer(t.op) ==> fits(t.op, u.op)
        &&& u.srcs.len() == t.srcs.len()
        &&& forall|j: int|
            #![trigger t.srcs[j]]
            0 <= j < t.srcs.len() ==> reruns(t.srcs[j], u.srcs[j], rename, renumber)
    }
}

/// Run buffers and identities are replaced one to one.
pub open spec fn one_to_one(rename: spec_fn(u64) -> BufferArg, renumber: spec_fn(u64) -> u64) -> bool {
    &&& forall|x: u64, y: u64| (#[trigger] rename(x)).id == (#[trigger] rename(y)).id ==> x == y
    &&& forall|x: u64, y: u64| #[trigger] renumber(x) == #[trigger] renumber(y) ==> x == y
}

/// The ids that take the place of these.
pub open spec fn renamed(ids: Seq<u64>, f: spec_fn(u64) -> u64) -> Seq<u64> {
    Seq::new(ids.len(), |j: int| f(ids[j]))
}

/// The id of the buffer that `rename` gives.
pub open spec fn new_id(rename: spec_fn(u64) -> BufferArg) -> spec_fn(u64) -> u64 {
    |id: u64| rename(id).id
}

/// The slots of two graphs hold their run buffers, and their identities, in one
/// order.
spec fn listed_alike(
    a: Seq<Node>,
    b: Seq<Node>,
    rename: spec_fn(u64) -> BufferArg,
    renumber: spec_fn(u64) -> u64,
) -> bool {
    &&& buffer_slots(b) == renamed(buffer_slots(a), new_id(rename))
    &&& unique_slots(b) == renamed(unique_slots(a), renumber)
}

proof fn lemma_same_slot(ids: Seq<u64>, f: spec_fn(u64) -> u64, id: u64)
    requires
        ids.no_duplicates(),
        renamed(ids, f).no_duplicates(),
        ids.contains(id),
    ensures
        0 <= ids.index_of(id) < ids.len(),
        renamed(ids, f).index_of(f(id)) == ids.index_of(id),
{
    let j = ids.index_of(id);
    assert(0 <= j < ids.len() && ids[j] == id);
    assert(renamed(ids, f)[j] == f(id));
    assert(renamed(ids, f).contains(f(id)));
    let l = renamed(ids, f).index_of(f(id));
    assert(0 <= l < ids.len() && renamed(ids, f)[l] == f(id));
}

/// Terms of two runs have one normal form.
proof fn lemma_rerun_normal(
    a: &Graph,
    b: &Graph,
    i: int,
    u: Term,
    rename: spec_fn(u64) -> BufferArg,
    renumber: spec_fn(u64) -> u64,
)
    requires
        a.wf(),
        b.wf(),
        listed_alike(a.nodes@, b.nodes@, rename, renumber),
        0 <= i < a.nodes@.len(),
        reruns(term(a.nodes@, i), u, rename, renumber),
    ensures
        normalized(term(a.nodes@, i), buffer_slots(a.nodes@), unique_slots(a.nodes@)) == normalized(
            u,
            buffer_slots(b.nodes@),
            unique_slots(b.nodes@),
        ),
    decreases i,
{
    let x = a.nodes@;
    let t = term(x, i);
    let (p, q) = (buffer_slots(x), unique_slots(x));
    let (v, w) = (buffer_slots(b.nodes@), unique_slots(b.nodes@));
    let (nt, nu) = (normalized(t, p, q), normalized(u, v, w));
    lemma_slots(a, run_buffer_id());
    lemma_slots(a, unique_id());
    lemma_slots(b, run_buffer_id());
    lemma_slots(b, unique_id());
    if binds_integer(t) {
        let var = x[i].srcs@[0] as int;
        assert(x[i].srcs@[0] < i);
        assert(t.srcs[0] == term(x, var));
        lemma_rerun_normal(a, b, var, u.srcs[0], rename, renumber);
        lemma_same_names(t.srcs[0], p, q);
        lemma_same_names(t.srcs[1], p, q);
        lemma_same_names(u.srcs[0], v, w);
        lemma_same_names(u.srcs[1], v, w);
    } else if is_run_buffer(t.op) {
        let id = t.op->Buffer_arg.id;
        assert(run_buffer_id()(x[i].op) == Some(id));
        lemma_same_slot(p, new_id(rename), id);
    } else if t.op is Unique {
        let id = t.op->Unique_id;
        assert(unique_id()(x[i].op) == Some(id));
        lemma_same_slot(q, renumber, id);
    } else {
        assert(u.op == t.op);
        assert forall|j: int| 0 <= j < t.srcs.len() implies normalized(#[trigger] t.srcs[j], p, q) == normalized(
            u.srcs[j],
            v,
            w,
        ) by {
            let src = x[i].srcs@[j] as int;
            assert(x[i].srcs@[j] < i);
            assert(t.srcs[j] == term(x, src));
            assert(reruns(t.srcs[j], u.srcs[j], rename, renumber));
            lemma_rerun_normal(a, b, src, u.srcs[j], rename, renumber);
        }
        if t.op is Bind && t.srcs.len() == 2 {
            assert(normalized(t.srcs[0], p, q) == normalized(u.srcs[0], v, w));
            assert(normalized(t.srcs[1], p, q) == normalized(u.srcs[1], v, w));
        }
        let ts = Seq::new(t.srcs.len(), |j: int| normalized(t.srcs[j], p, q));
        let us = Seq::new(u.srcs.len(), |j: int| normalized(u.srcs[j], v, w));
        assert(ts =~= us);
        assert(nt.srcs =~= nu.srcs || nt == nu);
    }
}

/// What stands in the place of a node, in the graph of another run.
proof fn lemma_rerun_node(
    a: &Graph,
    b: &Graph,
    i: int,
    rename: spec_fn(u64) -> BufferArg,
    renumber: spec_fn(u64) -> u64,
) -> (at: int)
    requires
        a.wf(),
        b.wf(),
        reruns(a.root(), b.root(), rename, renumber),
        0 <= i < a.nodes@.len(),
        !(a.nodes@[i].op is Const),
    ensures
        0 <= at < b.nodes@.len(),
        reruns(term(a.nodes@, i), term(b.nodes@, at), rename, renumber),
    decreases a.nodes@.len() - i,
{
    let x = a.nodes@;
    let y = b.nodes@;
    if i == x.len() - 1 {
        y.len() - 1
    } else {
        assert(is_source(x, i));
        let (k, j) = choose|k: int, j: int| has_source(x, k, j, i);
        assert(x[k].srcs@[j] < k);
        assert(!(x[k].op is Const)) by {
            if x[k].op is Const {
                assert(x[k].op.is_leaf());
            }
        }
        let at = lemma_rerun_node(a, b, k, rename, renumber);
        let t = term(x, k);
        let u = term(y, at);
        assert(t.srcs[j] == term(x, i));
        if binds_integer(t) {
            assert(j == 0) by {
                if j == 1 {
                    assert(t.srcs[1].op.const_int() is Some);
                }
            }
        } else {
            assert(reruns(t.srcs[j], u.srcs[j], rename, renumber));
        }
        assert(y[at].srcs@[j] < at);
        assert(u.srcs[j] == term(y, y[at].srcs@[j] as int));
        y[at].srcs@[j] as int
    }
}

/// Graphs that differ only in which buffers and identities a run supplies, and
/// in the values it binds to variables, have one cached form: they share one
/// schedule. And what a slot stands for in one run takes the place of what it
/// stands for in the other.
pub proof fn law_cached_form_ignores_the_run(
    a: &Graph,
    b: &Graph,
    cached_a: ScheduleCacheNormalization,
    cached_b: ScheduleCacheNormalization,
    rename: spec_fn(u64) -> BufferArg,
    renumber: spec_fn(u64) -> u64,
)
    requires
        a.wf(),
        b.wf(),
        cached_a.normalizes(a.nodes@),
        cached_b.normalizes(b.nodes@),
        reruns(a.root(), b.root(), rename, renumber),
        one_to_one(rename, renumber),
    ensures
        cached_a.normalized.root() == cached_b.normalized.root(),
        cached_a.param_values@.len() == cached_b.param_values@.len(),
        forall|j: int|
            #![trigger cached_b.param_values@[j]]
            0 <= j < cached_b.param_values@.len() ==> cached_b.param_values@[j] == rename(
                cached_a.param_values@[j].id,
            ),
        cached_b.unique_values@ == renamed(cached_a.unique_values@, renumber),
{
    let root = a.nodes@.len() - 1;
    lemma_runs_have_one_order(a, b, rename, renumber);
    lemma_rerun_normal(a, b, root, b.root(), rename, renumber);
    assert forall|j: int|
        #![trigger cached_b.param_values@[j]]
        0 <= j < cached_b.param_values@.len() implies cached_b.param_values@[j] == rename(
        cached_a.param_values@[j].id,
    ) by {
        let old = cached_a.param_values@[j];
        let i = choose|i: int|
            #![trigger a.nodes@[i]]
            0 <= i < a.nodes@.len() && a.nodes@[i].op == (Op::Buffer { arg: old });
        let k = choose|k: int|
            #![trigger b.nodes@[k]]
            0 <= k < b.nodes@.len() && b.nodes@[k].op == (Op::Buffer { arg: cached_b.param_values@[j] });
        let at = lemma_slot_somewhere(a, run_buffer_id(), j);
        assert(a.nodes@[at].op->Buffer_arg == a.nodes@[i].op->Buffer_arg);
        let there = lemma_rerun_node(a, b, at, rename, renumber);
        assert(b.nodes@[there].op == (Op::Buffer { arg: rename(old.id) }));
        assert(b.nodes@[there].op->Buffer_arg == b.nodes@[k].op->Buffer_arg);
    }
}

proof fn lemma_rerun_walk(
    t: Term,
    u: Term,
    pick: spec_fn(Op) -> Option<u64>,
    f: spec_fn(u64) -> u64,
    rename: spec_fn(u64) -> BufferArg,
    renumber: spec_fn(u64) -> u64,
)
    requires
        reruns(t, u, rename, renumber),
        (pick == run_buffer_id() && f == new_id(rename)) || (pick == unique_id() && f == renumber),
    ensures
        walked(u, pick) == renamed(walked(t, pick), f),
    decreases t, t.srcs.len() + 1,
{
    lemma_rerun_sources(t, u, t.srcs.len(), pick, f, rename, renumber);
    assert(walked(u, pick) =~= renamed(walked(t, pick), f));
}

proof fn lemma_rerun_sources(
    t: Term,
    u: Term,
    k: nat,
    pick: spec_fn(Op) -> Option<u64>,
    f: spec_fn(u64) -> u64,
    rename: spec_fn(u64) -> BufferArg,
    renumber: spec_fn(u64) -> u64,
)
    requires
        reruns(t, u, rename, renumber),
        (pick == run_buffer_id() && f == new_id(rename)) || (pick == unique_id() && f == renumber),
        k <= t.srcs.len(),
    ensures
        u.srcs.len() == t.srcs.len(),
        walked_sources(u, k, pick) == renamed(walked_sources(t, k, pick), f),
    decreases t, k,
{
    if k > 0 {
        lemma_rerun_sources(t, u, (k - 1) as nat, pick, f, rename, renumber);
        if binds_integer(t) && k == 2 {
            lemma_leaf_walk(t.srcs[1], pick);
            lemma_leaf_walk(u.srcs[1], pick);
        } else {
            assert(reruns(t.srcs[k - 1], u.srcs[k - 1], rename, renumber));
            lemma_rerun_walk(t.srcs[k - 1], u.srcs[k - 1], pick, f, rename, renumber);
        }
    }
    assert(walked_sources(u, k, pick) =~= renamed(walked_sources(t, k, pick), f));
}

/// A walk over an integer constant meets nothing.
proof fn lemma_leaf_walk(t: Term, pick: spec_fn(Op) -> Option<u64>)
    requires
        t.op.const_int() is Some,
        t.srcs.len() == 0,
        pick == run_buffer_id() || pick == unique_id(),
    ensures
        walked(t, pick) == Seq::<u64>::empty(),
{
    assert(walked(t, pick) =~= Seq::<u64>::empty());
}

proof fn lemma_distinct_renamed(ids: Seq<u64>, f: spec_fn(u64) -> u64)
    requires
        forall|x: u64, y: u64| #[trigger] f(x) == #[trigger] f(y) ==> x == y,
    ensures
        extended(Seq::empty(), renamed(ids, f)) == renamed(extended(Seq::empty(), ids), f),
    decreases ids.len(),
{
    if ids.len() > 0 {
        let rest = ids.drop_last();
        lemma_distinct_renamed(rest, f);
        assert(renamed(ids, f).drop_last() =~= renamed(rest, f));
        let (x, y) = (extended(Seq::empty(), rest), extended(Seq::empty(), renamed(rest, f)));
        let id = ids.last();
        assert(renamed(ids, f).last() == f(id));
        assert(x.contains(id) <==> y.contains(f(id))) by {
            if x.contains(id) {
                let j = choose|j: int| 0 <= j < x.len() && x[j] == id;
                assert(y[j] == f(id));
            }
            if y.contains(f(id)) {
                let j = choose|j: int| 0 <= j < y.len() && y[j] == f(id);
                assert(f(x[j]) == f(id));
                assert(x[j] == id);
            }
        }
    }
    assert(extended(Seq::empty(), renamed(ids, f)) =~= renamed(extended(Seq::empty(), ids), f));
}

/// The slots of a graph follow those of another run of it.
proof fn lemma_runs_have_one_order(
    a: &Graph,
    b: &Graph,
    rename: spec_fn(u64) -> BufferArg,
    renumber: spec_fn(u64) -> u64,
)
    requires
        reruns(a.root(), b.root(), rename, renumber),
        one_to_one(rename, renumber),
    ensures
        listed_alike(a.nodes@, b.nodes@, rename, renumber),
{
    let ids = new_id(rename);
    lemma_rerun_walk(a.root(), b.root(), run_buffer_id(), ids, rename, renumber);
    lemma_rerun_walk(a.root(), b.root(), unique_id(), renumber, rename, renumber);
    assert forall|x: u64, y: u64| #[trigger] ids(x) == #[trigger] ids(y) implies x == y by {
        assert(rename(x).id == rename(y).id);
    }
    lemma_distinct_renamed(walked(a.root(), run_buffer_id()), ids);
    lemma_distinct_renamed(walked(a.root(), unique_id()), renumber);
}

/// Ids that restoring takes for a run are new: they lie between the first free
/// id and the first one that is free afterwards, and no two slots share one.
pub proof fn law_restored_ids_are_fresh(
    nodes: Seq<Node>,
    normalization: ScheduleCacheNormalization,
    start: u64,
    k: nat,
)
    requires
        k <= nodes.len(),
        start + nodes.len() <= u64::MAX,
    ensures
        ({
            let state = allocated(
                nodes,
                normalization.param_values@,
                normalization.unique_values@,
                start,
                k,
            );
            &&& start <= state.next <= start + k
            &&& forall|slot: u64| #[trigger]
                state.locals.dom().contains(slot) ==> start <= state.locals[slot].id < state.next
            &&& forall|slot: u64| #[trigger]
                state.params.dom().contains(slot) ==> start <= state.params[slot].id < state.next
            &&& forall|slot: u64| #[trigger]
                state.lost.dom().contains(slot) ==> start <= state.lost[slot] < state.next
            &&& forall|x: u64, y: u64|
                #![trigger state.locals[x], state.locals[y]]
                state.locals.dom().contains(x) && state.locals.dom().contains(y) && x != y
                    ==> state.locals[x].id != state.locals[y].id
            &&& forall|x: u64, y: u64|
                #![trigger state.params[x], state.params[y]]
                state.params.dom().contains(x) && state.params.dom().contains(y) && x != y
                    ==> state.params[x].id != state.params[y].id
            &&& forall|x: u64, y: u64|
                #![trigger state.lost[x], state.lost[y]]
                state.lost.dom().contains(x) && state.lost.dom().contains(y) && x != y ==> state.lost[x]
                    != state.lost[y]
            &&& forall|x: u64, y: u64|
                #![trigger state.locals[x], state.params[y]]
                state.locals.dom().contains(x) && state.params.dom().contains(y) ==> state.locals[x].id
                    != state.params[y].id
        }),
    decreases k,
{
    if k > 0 {
        law_restored_ids_are_fresh(nodes, normalization, start, (k - 1) as nat);
    }
}

} // verus!
