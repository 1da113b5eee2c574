//! The form of a graph under which its schedule is cached, and the way back.
//!
//! Two graphs that differ only in which buffers they read and in the values
//! bound to their variables share one schedule. Normalization replaces each
//! buffer by a parameter slot and each identity by a local slot and drops the
//! bound values; restoring puts the buffers and identities of the current run
//! back.

use std::collections::HashMap;

use vstd::prelude::*;
use vstd::string::*;

use crate::device::copy_device;
use crate::error::Error;
use crate::graph::{
    buffers_agree, first_rebind, gathered, leaves_bare, lemma_term_prefix, ordered, prune, rebinds, term,
    AddrSpace, BufferArg, Graph, Node, Op, ParamArg, Term,
};
use crate::slots::{buffer_slots, is_run_buffer, lemma_slots, picked, slot_table, unique_slots, SlotTable};
use crate::text::{dec_int, dec_int_string};
use crate::vars::{try_bind_var_val, VarVals};

verus! {

/// The parameter that takes the place of buffer `arg`.
pub open spec fn cache_param(arg: BufferArg, slot: u64) -> Op {
    Op::Param {
        arg: ParamArg {
            slot,
            dtype: arg.dtype,
            addrspace: Some(AddrSpace::Global),
            device: arg.device,
            size: arg.size,
            name: None,
            bounds: None,
            schedule_cache: true,
        },
    }
}

/// The normal form of a term: buffers and identities become slots, and a
/// variable bound to an integer stands without its value.
pub open spec fn normalized(t: Term, buffers: Seq<u64>, uniques: Seq<u64>) -> Term
    decreases t,
{
    let srcs = Seq::new(
        t.srcs.len(),
        |j: int|
            if 0 <= j < t.srcs.len() {
                normalized(t.srcs[j], buffers, uniques)
            } else {
                arbitrary()
            },
    );
    match t.op {
        Op::Buffer { arg } => if is_run_buffer(t.op) {
            Term { op: cache_param(arg, buffers.index_of(arg.id) as u64), srcs: Seq::empty() }
        } else {
            Term { op: t.op, srcs }
        },
        Op::Unique { id } => Term {
            op: Op::LUnique { slot: uniques.index_of(id) as u64 },
            srcs: Seq::empty(),
        },
        Op::Bind => if srcs.len() == 2 && srcs[0].op.var_name() is Some && srcs[1].op.const_int() is Some {
            srcs[0]
        } else {
            Term { op: t.op, srcs }
        },
        _ => Term { op: t.op, srcs },
    }
}

/// The variable and the value whose binding the normal form of a term drops.
pub open spec fn dropped_binding(t: Term, buffers: Seq<u64>, uniques: Seq<u64>) -> Option<(Seq<char>, i64)> {
    if t.op is Bind && t.srcs.len() == 2 {
        match (
            normalized(t.srcs[0], buffers, uniques).op.var_name(),
            normalized(t.srcs[1], buffers, uniques).op.const_int(),
        ) {
            (Some(name), Some(value)) => Some((name, value)),
            _ => None,
        }
    } else {
        None
    }
}

/// The binding dropped at each node.
pub open spec fn dropped_at(nodes: Seq<Node>) -> spec_fn(int) -> Option<(Seq<char>, i64)> {
    |i: int| dropped_binding(term(nodes, i), buffer_slots(nodes), unique_slots(nodes))
}

/// The text of a conflict between two values bound to one variable.
pub open spec fn normalization_mismatch(name: Seq<char>, prev: i64, val: i64) -> Seq<char> {
    "bind mismatch on variable "@ + name + ": "@ + dec_int(prev as int) + " vs "@ + dec_int(val as int)
}

/// A graph's cached form, and what was taken out of it.
#[derive(Debug, PartialEq, Eq)]
pub struct ScheduleCacheNormalization {
    pub normalized: Graph,
    /// The buffer of each parameter slot.
    pub param_values: Vec<BufferArg>,
    /// The buffers with their ids, by ascending id.
    pub param_buffers: Vec<(u64, BufferArg)>,
    /// The identity of each local slot.
    pub unique_values: Vec<u64>,
    /// The values whose bindings were dropped.
    pub var_vals: VarVals,
}

impl ScheduleCacheNormalization {
    /// This is what normalizing `nodes` gives.
    pub open spec fn normalizes(&self, nodes: Seq<Node>) -> bool {
        let buffers = buffer_slots(nodes);
        let uniques = unique_slots(nodes);
        &&& self.normalized.wf()
        &&& self.normalized.nodes@.len() <= nodes.len()
        &&& self.normalized.root() == normalized(term(nodes, nodes.len() - 1), buffers, uniques)
        &&& self.param_values@.len() == buffers.len()
        &&& forall|j: int|
            #![trigger self.param_values@[j]]
            0 <= j < buffers.len() ==> self.param_values@[j].id == buffers[j] && exists|i: int|
                #![trigger nodes[i]]
                0 <= i < nodes.len() && nodes[i].op == (Op::Buffer { arg: self.param_values@[j] })
        &&& self.unique_values@ == uniques
        &&& self.param_buffers@.len() == buffers.len()
        &&& forall|a: int, b: int|
            #![trigger self.param_buffers@[a], self.param_buffers@[b]]
            0 <= a < b < self.param_buffers@.len() ==> self.param_buffers@[a].0 < self.param_buffers@[b].0
        &&& forall|a: int|
            #![trigger self.param_buffers@[a]]
            0 <= a < self.param_buffers@.len() ==> self.param_buffers@[a].0 == self.param_buffers@[a].1.id
                && self.param_values@.contains(self.param_buffers@[a].1)
        &&& self.var_vals.wf()
        &&& self.var_vals@ == gathered(dropped_at(nodes), nodes.len())
        &&& forall|i: int| 0 <= i < nodes.len() ==> !#[trigger] rebinds(dropped_at(nodes), i)
    }
}

/// Inserts `arg` into a list ordered by ascending id that does not hold it.
fn insert_by_id(list: &mut Vec<(u64, BufferArg)>, arg: BufferArg)
    requires
        forall|a: int, b: int|
            #![trigger old(list)@[a], old(list)@[b]]
            0 <= a < b < old(list)@.len() ==> old(list)@[a].0 < old(list)@[b].0,
        forall|a: int| #![trigger old(list)@[a]] 0 <= a < old(list)@.len() ==> old(list)@[a].0 != arg.id,
    ensures
        exists|at: int|
            0 <= at <= old(list)@.len() && final(list)@ == #[trigger] old(list)@.insert(at, (arg.id, arg)),
        forall|a: int, b: int|
            #![trigger final(list)@[a], final(list)@[b]]
            0 <= a < b < final(list)@.len() ==> final(list)@[a].0 < final(list)@[b].0,
{
    let mut at: usize = 0;
    while at < list.len() && list[at].0 < arg.id
        invariant
            at <= list@.len(),
            list@ == old(list)@,
            forall|a: int| #![trigger list@[a]] 0 <= a < at ==> list@[a].0 < arg.id,
        decreases list@.len() - at,
    {
        at = at + 1;
    }
    let id = arg.id;
    let ghost before = list@;
    assert(forall|a: int| #![trigger before[a]] at <= a < before.len() ==> before[a].0 > id) by {
        assert forall|a: int| #![trigger before[a]] at <= a < before.len() implies before[a].0 > id by {
            if a > at {
                assert(before[at as int].0 < before[a].0);
            }
        }
    }
    list.insert(at, (id, arg));
    assert(list@ == before.insert(at as int, (id, arg)));
    assert forall|a: int, b: int|
        #![trigger list@[a], list@[b]]
        0 <= a < b < list@.len() implies list@[a].0 < list@[b].0 by {
        let x = if a < at { a } else { a - 1 };
        let y = if b < at { b } else { b - 1 };
        if a != at {
            assert(list@[a] == before[x]);
        }
        if b != at {
            assert(list@[b] == before[y]);
        }
    }
}

/// The buffers of a graph's parameter slots, by slot and by ascending id.
fn slot_buffers(sink: &Graph, params: &SlotTable) -> (lists: (Vec<BufferArg>, Vec<(u64, BufferArg)>))
    requires
        sink.wf(),
        params.wf(),
        forall|j: int|
            #![trigger params.nodes@[j]]
            0 <= j < params.nodes@.len() ==> params.nodes@[j] < sink.nodes@.len() && picked(true)(
                sink.nodes@[params.nodes@[j] as int].op,
            ) == Some(params.ids@[j]),
    ensures
        lists.0@.len() == params.ids@.len(),
        forall|j: int|
            #![trigger lists.0@[j]]
            0 <= j < lists.0@.len() ==> lists.0@[j].id == params.ids@[j] && exists|k: int|
                #![trigger sink.nodes@[k]]
                0 <= k < sink.nodes@.len() && sink.nodes@[k].op == (Op::Buffer { arg: lists.0@[j] }),
        lists.1@.len() == lists.0@.len(),
        forall|a: int, b: int|
            #![trigger lists.1@[a], lists.1@[b]]
            0 <= a < b < lists.1@.len() ==> lists.1@[a].0 < lists.1@[b].0,
        forall|a: int|
            #![trigger lists.1@[a]]
            0 <= a < lists.1@.len() ==> lists.1@[a].0 == lists.1@[a].1.id && lists.0@.contains(lists.1@[a].1),
{
    let nodes = &sink.nodes;
    let mut values: Vec<BufferArg> = Vec::new();
    let mut by_id: Vec<(u64, BufferArg)> = Vec::new();
    let mut slot: usize = 0;
    while slot < params.nodes.len()
        invariant
            nodes@ == sink.nodes@,
            params.wf(),
            forall|j: int|
                #![trigger params.nodes@[j]]
                0 <= j < params.nodes@.len() ==> params.nodes@[j] < nodes@.len() && picked(true)(
                    nodes@[params.nodes@[j] as int].op,
                ) == Some(params.ids@[j]),
            slot <= params.nodes@.len(),
            values@.len() == slot,
            forall|j: int|
                #![trigger values@[j]]
                0 <= j < values@.len() ==> values@[j].id == params.ids@[j] && exists|k: int|
                    #![trigger nodes@[k]]
                    0 <= k < nodes@.len() && nodes@[k].op == (Op::Buffer { arg: values@[j] }),
            by_id@.len() == values@.len(),
            forall|a: int, b: int|
                #![trigger by_id@[a], by_id@[b]]
                0 <= a < b < by_id@.len() ==> by_id@[a].0 < by_id@[b].0,
            forall|a: int|
                #![trigger by_id@[a]]
                0 <= a < by_id@.len() ==> by_id@[a].0 == by_id@[a].1.id && values@.contains(by_id@[a].1),
        decreases params.nodes@.len() - slot,
    {
        let ghost before_values = values@;
        let ghost before = by_id@;
        let at = params.nodes[slot];
        if let Op::Buffer { arg } = &nodes[at].op {
            assert(arg.id == params.ids@[slot as int]);
            proof {
                assert forall|a: int| #![trigger by_id@[a]] 0 <= a < by_id@.len() implies by_id@[a].0 != arg.id by {
                    let v = choose|v: int| 0 <= v < before_values.len() && before_values[v] == by_id@[a].1;
                    assert(before_values[v].id == params.ids@[v]);
                }
            }
            values.push(arg.copy());
            insert_by_id(&mut by_id, arg.copy());
            proof {
                let spot = choose|spot: int|
                    0 <= spot <= before.len() && by_id@ == #[trigger] before.insert(spot, (arg.id, *arg));
                assert(values@[slot as int] == *arg);
                assert(nodes@[at as int].op == (Op::Buffer { arg: values@[slot as int] }));
                assert forall|a: int| #![trigger by_id@[a]] 0 <= a < by_id@.len() implies by_id@[a].0 == by_id@[a].1.id
                    && values@.contains(by_id@[a].1) by {
                    if a != spot {
                        let x = if a < spot { a } else { a - 1 };
                        assert(by_id@[a] == before[x]);
                        let v = choose|v: int| 0 <= v < before_values.len() && before_values[v] == before[x].1;
                        assert(values@[v] == before[x].1);
                    }
                }
                assert forall|j: int| #![trigger values@[j]] 0 <= j < values@.len() implies values@[j].id
                    == params.ids@[j] && exists|k: int|
                    #![trigger nodes@[k]]
                    0 <= k < nodes@.len() && nodes@[k].op == (Op::Buffer { arg: values@[j] }) by {
                    if j < before_values.len() {
                        assert(values@[j] == before_values[j]);
                    }
                }
            }
        }
        slot = slot + 1;
    }
    (values, by_id)
}

/// A normal form taken so far: for each node read, the position of its normal
/// form in `out`.
spec fn mapped(nodes: Seq<Node>, out: Seq<Node>, place: Seq<usize>, k: int) -> bool {
    &&& place.len() == k
    &&& ordered(out)
    &&& forall|i: int|
        #![trigger place[i]]
        0 <= i < k ==> place[i] < out.len() && term(out, place[i] as int) == normalized(
            term(nodes, i),
            buffer_slots(nodes),
            unique_slots(nodes),
        )
}

/// What holds of the nodes of a normal form taken so far.
spec fn out_ok(nodes: Seq<Node>, out: Seq<Node>) -> bool {
    &&& leaves_bare(out)
    &&& forall|o: int|
        #![trigger out[o]]
        0 <= o < out.len() && out[o].op is Buffer ==> exists|i: int|
            #![trigger nodes[i]]
            0 <= i < nodes.len() && nodes[i].op == out[o].op
}

proof fn lemma_out_push(nodes: Seq<Node>, out: Seq<Node>, place: Seq<usize>, k: int, node: Node)
    requires
        mapped(nodes, out, place, k),
        out_ok(nodes, out),
        out.len() < usize::MAX,
        forall|j: int| #![trigger node.srcs@[j]] 0 <= j < node.srcs@.len() ==> node.srcs@[j] < out.len(),
        node.op.is_leaf() ==> node.srcs@.len() == 0,
        node.op is Buffer ==> exists|i: int|
            #![trigger nodes[i]]
            0 <= i < nodes.len() && nodes[i].op == node.op,
        ({
            let t = normalized(term(nodes, k), buffer_slots(nodes), unique_slots(nodes));
            &&& node.op == t.op
            &&& node.srcs@.len() == t.srcs.len()
            &&& forall|j: int|
                #![trigger node.srcs@[j]]
                0 <= j < node.srcs@.len() ==> term(out, node.srcs@[j] as int) == t.srcs[j]
        }),
    ensures
        mapped(nodes, out.push(node), place.push(out.len() as usize), k + 1),
        out_ok(nodes, out.push(node)),
{
    let out2 = out.push(node);
    let place2 = place.push(out.len() as usize);
    assert(ordered(out2)) by {
        assert forall|o: int, j: int|
            #![trigger out2[o].srcs@[j]]
            0 <= o < out2.len() && 0 <= j < out2[o].srcs@.len() implies out2[o].srcs@[j] < o by {
            if o < out.len() {
                assert(out[o].srcs@[j] < o);
            } else {
                assert(node.srcs@[j] < out.len());
            }
        }
    }
    assert forall|i: int| #![trigger place2[i]] 0 <= i < k + 1 implies place2[i] < out2.len() && term(
        out2,
        place2[i] as int,
    ) == normalized(term(nodes, i), buffer_slots(nodes), unique_slots(nodes)) by {
        if i < k {
            assert(place2[i] == place[i]);
            lemma_term_prefix(out, out2, place[i] as int);
        } else {
            let t = normalized(term(nodes, k), buffer_slots(nodes), unique_slots(nodes));
            let at = out.len() as int;
            assert forall|j: int| 0 <= j < node.srcs@.len() implies #[trigger] term(out2, at).srcs[j] == t.srcs[j] by {
                assert(node.srcs@[j] < out.len());
                lemma_term_prefix(out, out2, node.srcs@[j] as int);
            }
            assert(term(out2, at).srcs =~= t.srcs);
        }
    }
}

/// Replaces a graph's run buffers and identities by slots and drops the
/// values bound to its variables. It fails if and only if a variable is bound
/// to two values, at the first node that shows it.
pub fn normalize_for_schedule_cache(sink: &Graph) -> (result: Result<ScheduleCacheNormalization, Error>)
    requires
        sink.wf(),
    ensures
        match result {
            Ok(normalization) => normalization.normalizes(sink.nodes@),
            Err(error) => exists|i: int|
                #![trigger rebinds(dropped_at(sink.nodes@), i)]
                0 <= i < sink.nodes@.len() && first_rebind(dropped_at(sink.nodes@), i) && (dropped_at(sink.nodes@)(
                    i,
                ) matches Some((name, value)) && error matches Error::IrConstruction { details } && details@
                    == normalization_mismatch(
                    name,
                    gathered(dropped_at(sink.nodes@), i as nat)[name],
                    value,
                )),
        },
{
    let nodes = &sink.nodes;
    let n = nodes.len();
    let ghost buffers = buffer_slots(nodes@);
    let ghost uniques = unique_slots(nodes@);
    let params = slot_table(sink, true);
    let uniq = slot_table(sink, false);
    proof {
        lemma_slots(sink, picked(true));
        lemma_slots(sink, picked(false));
    }
    let (param_values, param_buffers) = slot_buffers(sink, &params);
    let mut out: Vec<Node> = Vec::new();
    let mut place: Vec<usize> = Vec::new();
    let mut var_vals = VarVals::new();
    let mut i: usize = 0;
    while i < n
        invariant
            n == nodes@.len(),
            nodes@ == sink.nodes@,
            sink.wf(),
            i <= n,
            out@.len() <= i,
            buffers == buffer_slots(nodes@),
            uniques == unique_slots(nodes@),
            mapped(nodes@, out@, place@, i as int),
            out_ok(nodes@, out@),
            params.wf(),
            params.ids@ == buffers,
            uniq.wf(),
            uniq.ids@ == uniques,
            forall|k: int|
                #![trigger nodes@[k]]
                0 <= k < nodes@.len() ==> (picked(true)(nodes@[k].op) matches Some(id) ==> buffers.contains(id)),
            forall|k: int|
                #![trigger nodes@[k]]
                0 <= k < nodes@.len() ==> (picked(false)(nodes@[k].op) matches Some(id) ==> uniques.contains(id)),
            var_vals.wf(),
            var_vals@ == gathered(dropped_at(nodes@), i as nat),
            forall|j: int| 0 <= j < i ==> !#[trigger] rebinds(dropped_at(nodes@), j),
        decreases n - i,
    {
        let ghost old_out = out@;
        let ghost old_place = place@;
        let ghost t = normalized(term(nodes@, i as int), buffers, uniques);
        let ghost raw = term(nodes@, i as int);
        let at: usize = out.len();
        // The sources of the node in normal form.
        let mut srcs: Vec<usize> = Vec::new();
        let mut j: usize = 0;
        while j < nodes[i].srcs.len()
            invariant
                n == nodes@.len(),
                i < n,
                nodes@ == sink.nodes@,
                sink.wf(),
                buffers == buffer_slots(nodes@),
                uniques == unique_slots(nodes@),
                mapped(nodes@, out@, place@, i as int),
                j <= nodes@[i as int].srcs@.len(),
                srcs@.len() == j,
                raw == term(nodes@, i as int),
                forall|p: int|
                    #![trigger srcs@[p]]
                    0 <= p < j ==> srcs@[p] < out@.len() && srcs@[p] == place@[nodes@[i as int].srcs@[p] as int]
                        && term(out@, srcs@[p] as int) == normalized(raw.srcs[p], buffers, uniques),
            decreases nodes@[i as int].srcs@.len() - j,
        {
            let src = nodes[i].srcs[j];
            assert(nodes@[i as int].srcs@[j as int] < i);
            srcs.push(place[src]);
            j = j + 1;
        }
        assert(raw.srcs.len() == srcs@.len());
        match &nodes[i].op {
            Op::Buffer { arg } => {
                let global = match arg.addrspace {
                    Some(AddrSpace::Global) => true,
                    _ => false,
                };
                let slot = if global && arg.size.is_some() {
                    params.find(arg.id)
                } else {
                    None
                };
                if let Some(slot) = slot {
                    assert(sink.nodes@[i as int].op.is_leaf());
                    let node = Node {
                        op: Op::Param {
                            arg: ParamArg {
                                slot,
                                dtype: arg.dtype,
                                addrspace: Some(AddrSpace::Global),
                                device: copy_device(&arg.device),
                                size: arg.size,
                                name: None,
                                bounds: None,
                                schedule_cache: true,
                            },
                        },
                        srcs: Vec::new(),
                    };
                    proof {
                        lemma_out_push(nodes@, old_out, old_place, i as int, node);
                    }
                    out.push(node);
                } else {
                    let node = Node { op: nodes[i].op.copy(), srcs };
                    proof {
                        assert(picked(true)(nodes@[i as int].op) is None);
                        assert(nodes@[i as int].op == node.op);
                        lemma_out_push(nodes@, old_out, old_place, i as int, node);
                    }
                    out.push(node);
                }
                place.push(at);
            }
            Op::Unique { id } => {
                assert(picked(false)(nodes@[i as int].op) == Some(*id));
                if let Some(slot) = uniq.find(*id) {
                    let node = Node { op: Op::LUnique { slot }, srcs: Vec::new() };
                    proof {
                        lemma_out_push(nodes@, old_out, old_place, i as int, node);
                    }
                    out.push(node);
                    place.push(at);
                }
            }
            Op::Bind => {
                let mut stripped = false;
                if srcs.len() == 2 {
                    proof {
                        assert(out@[srcs@[0] as int].op == normalized(raw.srcs[0], buffers, uniques).op);
                        assert(out@[srcs@[1] as int].op == normalized(raw.srcs[1], buffers, uniques).op);
                    }
                    if let Some(val) = out[srcs[1]].op.try_int() {
                        if let Some(name) = out[srcs[0]].op.variable() {
                            assert(dropped_at(nodes@)(i as int) == Some((name@, val)));
                            if let Err((prev, val)) = try_bind_var_val(&mut var_vals, name, val) {
                                assert(first_rebind(dropped_at(nodes@), i as int));
                                let mut details = "bind mismatch on variable ".to_owned();
                                details.append(name);
                                details.append(": ");
                                details.append(dec_int_string(prev).as_str());
                                details.append(" vs ");
                                details.append(dec_int_string(val).as_str());
                                return Err(Error::IrConstruction { details });
                            }
                            stripped = true;
                        }
                    }
                }
                if stripped {
                    proof {
                        assert(t == normalized(raw.srcs[0], buffers, uniques));
                    }
                    place.push(srcs[0]);
                } else {
                    let node = Node { op: Op::Bind, srcs };
                    proof {
                        lemma_out_push(nodes@, old_out, old_place, i as int, node);
                    }
                    out.push(node);
                    place.push(at);
                }
            }
            _ => {
                let node = Node { op: nodes[i].op.copy(), srcs };
                proof {
                    lemma_out_push(nodes@, old_out, old_place, i as int, node);
                }
                out.push(node);
                place.push(at);
            }
        }
        assert(!rebinds(dropped_at(nodes@), i as int));
        i = i + 1;
    }
    let root = place[n - 1];
    let ghost whole = out@;
    out.truncate(root + 1);
    proof {
        assert(ordered(out@)) by {
            assert forall|o: int, j: int|
                #![trigger out@[o].srcs@[j]]
                0 <= o < out@.len() && 0 <= j < out@[o].srcs@.len() implies out@[o].srcs@[j] < o by {
                assert(whole[o].srcs@[j] < o);
            }
        }
        lemma_term_prefix(whole, out@, root as int);
        assert(leaves_bare(out@));
        assert(buffers_agree(out@)) by {
            assert forall|a: int, b: int|
                #![trigger out@[a], out@[b]]
                0 <= a < out@.len() && 0 <= b < out@.len() implies (out@[a].op matches Op::Buffer { arg: x }
                ==> out@[b].op matches Op::Buffer { arg: y } ==> x.id == y.id ==> x == y) by {
                assert(out@[a] == whole[a] && out@[b] == whole[b]);
            }
        }
    }
    Ok(
        ScheduleCacheNormalization {
            normalized: prune(out),
            param_values,
            param_buffers,
            unique_values: uniq.ids,
            var_vals,
        },
    )
}

/// Whether an operation is a buffer of a cached schedule, which each run
/// allocates anew.
pub open spec fn is_schedule_buffer(op: Op) -> bool {
    op matches Op::Buffer { arg } && arg.addrspace == Some(AddrSpace::Global) && arg.schedule_local
}

/// The buffer that a run allocates under `id` for schedule buffer `arg`.
pub open spec fn fresh_buffer(id: u64, arg: BufferArg) -> BufferArg {
    BufferArg {
        id,
        slot: id,
        dtype: arg.dtype,
        addrspace: Some(AddrSpace::Global),
        device: arg.device,
        size: arg.size,
        schedule_local: false,
    }
}

/// What a run has allocated while restoring: schedule buffers by slot, schedule
/// buffers that parameters stand for by parameter slot, and identities of
/// local slots that the normalization does not know. Ids from `next` on are
/// still free.
pub struct Allocated {
    pub locals: Map<u64, BufferArg>,
    pub params: Map<u64, BufferArg>,
    pub lost: Map<u64, u64>,
    pub next: u64,
}

impl Allocated {
    /// After restoring an operation.
    pub open spec fn after(self, op: Op, params: Seq<BufferArg>, uniques: Seq<u64>) -> Allocated {
        match op {
            Op::Param { arg } => if arg.schedule_cache && arg.slot < params.len() && is_schedule_buffer(
                Op::Buffer { arg: params[arg.slot as int] },
            ) && params[arg.slot as int].device is Some && params[arg.slot as int].size is Some
                && !self.params.dom().contains(arg.slot) {
                Allocated {
                    params: self.params.insert(arg.slot, fresh_buffer(self.next, params[arg.slot as int])),
                    next: (self.next + 1) as u64,
                    ..self
                }
            } else {
                self
            },
            Op::Buffer { arg } => if is_schedule_buffer(op) && !self.locals.dom().contains(arg.slot) && arg.device
                is Some && arg.size is Some {
                Allocated {
                    locals: self.locals.insert(arg.slot, fresh_buffer(self.next, arg)),
                    next: (self.next + 1) as u64,
                    ..self
                }
            } else {
                self
            },
            Op::LUnique { slot } => if slot >= uniques.len() && !self.lost.dom().contains(slot) {
                Allocated { lost: self.lost.insert(slot, self.next), next: (self.next + 1) as u64, ..self }
            } else {
                self
            },
            _ => self,
        }
    }

    /// The restored form of an operation, given what is allocated after it.
    pub open spec fn restored(self, op: Op, params: Seq<BufferArg>, uniques: Seq<u64>) -> Op {
        match op {
            Op::Param { arg } => if arg.schedule_cache && arg.slot < params.len() {
                if self.params.dom().contains(arg.slot) {
                    Op::Buffer { arg: self.params[arg.slot] }
                } else {
                    Op::Buffer { arg: params[arg.slot as int] }
                }
            } else {
                op
            },
            Op::Buffer { arg } => if is_schedule_buffer(op) && self.locals.dom().contains(arg.slot) {
                Op::Buffer { arg: self.locals[arg.slot] }
            } else {
                op
            },
            Op::LUnique { slot } => if slot < uniques.len() {
                Op::Unique { id: uniques[slot as int] }
            } else {
                Op::Unique { id: self.lost[slot] }
            },
            _ => op,
        }
    }
}

/// What is allocated after restoring the first `k` nodes with ids from
/// `start` on.
pub open spec fn allocated(
    nodes: Seq<Node>,
    params: Seq<BufferArg>,
    uniques: Seq<u64>,
    start: u64,
    k: nat,
) -> Allocated
    decreases k,
{
    if k == 0 {
        Allocated { locals: Map::empty(), params: Map::empty(), lost: Map::empty(), next: start }
    } else {
        allocated(nodes, params, uniques, start, (k - 1) as nat).after(nodes[k - 1].op, params, uniques)
    }
}

/// The restored form of node `i`.
pub open spec fn restored_op(
    nodes: Seq<Node>,
    params: Seq<BufferArg>,
    uniques: Seq<u64>,
    start: u64,
    i: int,
) -> Op {
    allocated(nodes, params, uniques, start, (i + 1) as nat).restored(nodes[i].op, params, uniques)
}

/// `restored` is `nodes` with every placeholder put back.
pub open spec fn restores(
    nodes: Seq<Node>,
    restored: Seq<Node>,
    params: Seq<BufferArg>,
    uniques: Seq<u64>,
    start: u64,
) -> bool {
    &&& restored.len() == nodes.len()
    &&& forall|i: int|
        #![trigger restored[i]]
        0 <= i < nodes.len() ==> restored[i].op == restored_op(nodes, params, uniques, start, i)
            && restored[i].srcs@ == nodes[i].srcs@
}

/// The entry of a list of allocations under `slot`.
fn find_allocated(list: &Vec<(u64, BufferArg)>, slot: u64) -> (found: Option<usize>)
    ensures
        match found {
            Some(i) => i < list@.len() && list@[i as int].0 == slot,
            None => forall|i: int| #![trigger list@[i]] 0 <= i < list@.len() ==> list@[i].0 != slot,
        },
{
    let mut i: usize = 0;
    while i < list.len()
        invariant
            i <= list@.len(),
            forall|k: int| #![trigger list@[k]] 0 <= k < i ==> list@[k].0 != slot,
        decreases list@.len() - i,
    {
        if list[i].0 == slot {
            return Some(i);
        }
        i = i + 1;
    }
    None
}

/// A list of allocations holds exactly the entries of `map`.
spec fn lists(list: Seq<(u64, BufferArg)>, map: Map<u64, BufferArg>) -> bool {
    &&& forall|i: int| #![trigger list[i]] 0 <= i < list.len() ==> map.contains_pair(list[i].0, list[i].1)
    &&& forall|slot: u64| #[trigger]
        map.dom().contains(slot) ==> exists|i: int| #![trigger list[i]] 0 <= i < list.len() && list[i].0 == slot
}

proof fn lemma_lists_insert(list: Seq<(u64, BufferArg)>, map: Map<u64, BufferArg>, slot: u64, arg: BufferArg)
    requires
        lists(list, map),
        !map.dom().contains(slot),
    ensures
        lists(list.push((slot, arg)), map.insert(slot, arg)),
{
    let list2 = list.push((slot, arg));
    let map2 = map.insert(slot, arg);
    assert forall|i: int| #![trigger list2[i]] 0 <= i < list2.len() implies map2.contains_pair(
        list2[i].0,
        list2[i].1,
    ) by {
        if i < list.len() {
            assert(list2[i] == list[i]);
        }
    }
    assert forall|s: u64| #[trigger] map2.dom().contains(s) implies exists|i: int|
        #![trigger list2[i]]
        0 <= i < list2.len() && list2[i].0 == s by {
        if s == slot {
            assert(list2[list.len() as int].0 == s);
        } else {
            assert(map.dom().contains(s));
            let i = choose|i: int| #![trigger list[i]] 0 <= i < list.len() && list[i].0 == s;
            assert(list2[i].0 == s);
        }
    }
}

/// The buffer that a run allocates under `id` for schedule buffer `arg`.
fn new_buffer(id: u64, arg: &BufferArg) -> (fresh: BufferArg)
    ensures
        fresh == fresh_buffer(id, *arg),
{
    BufferArg {
        id,
        slot: id,
        dtype: arg.dtype,
        addrspace: Some(AddrSpace::Global),
        device: copy_device(&arg.device),
        size: arg.size,
        schedule_local: false,
    }
}

fn schedule_buffer(arg: &BufferArg) -> (yes: bool)
    ensures
        yes == is_schedule_buffer(Op::Buffer { arg: *arg }),
{
    let global = match arg.addrspace {
        Some(AddrSpace::Global) => true,
        _ => false,
    };
    global && arg.schedule_local
}

/// Puts this run's buffers and identities back into a cached graph: a cache
/// parameter becomes the buffer of its slot, a schedule buffer a fresh one
/// (one for each slot) and a local identity the one of its slot. Fresh ids
/// are taken from `next_id` on.
pub fn restore_post_schedule_cache(
    root: &Graph,
    normalization: &ScheduleCacheNormalization,
    next_id: &mut u64,
) -> (restored: Graph)
    requires
        root.wf(),
        *old(next_id) + root.nodes@.len() <= u64::MAX,
    ensures
        restores(
            root.nodes@,
            restored.nodes@,
            normalization.param_values@,
            normalization.unique_values@,
            *old(next_id),
        ),
        *final(next_id) == allocated(
            root.nodes@,
            normalization.param_values@,
            normalization.unique_values@,
            *old(next_id),
            root.nodes@.len(),
        ).next,
        *old(next_id) <= *final(next_id) <= *old(next_id) + root.nodes@.len(),
        ordered(restored.nodes@),
{
    let nodes = &root.nodes;
    let params = &normalization.param_values;
    let uniques = &normalization.unique_values;
    let start = *next_id;
    let mut out: Vec<Node> = Vec::new();
    let mut locals: Vec<(u64, BufferArg)> = Vec::new();
    let mut fresh_params: Vec<(u64, BufferArg)> = Vec::new();
    let mut lost: HashMap<u64, u64> = HashMap::new();
    let mut next: u64 = start;
    let mut i: usize = 0;
    while i < nodes.len()
        invariant
            i <= nodes@.len(),
            nodes@ == root.nodes@,
            root.wf(),
            params@ == normalization.param_values@,
            uniques@ == normalization.unique_values@,
            start + nodes@.len() <= u64::MAX,
            start <= next <= start + i,
            out@.len() == i,
            forall|k: int|
                #![trigger out@[k]]
                0 <= k < i ==> out@[k].op == restored_op(nodes@, params@, uniques@, start, k) && out@[k].srcs@
                    == nodes@[k].srcs@,
            next == allocated(nodes@, params@, uniques@, start, i as nat).next,
            lists(locals@, allocated(nodes@, params@, uniques@, start, i as nat).locals),
            lists(fresh_params@, allocated(nodes@, params@, uniques@, start, i as nat).params),
            lost@ == allocated(nodes@, params@, uniques@, start, i as nat).lost,
        decreases nodes@.len() - i,
    {
        let ghost before = allocated(nodes@, params@, uniques@, start, i as nat);
        let ghost after = allocated(nodes@, params@, uniques@, start, (i + 1) as nat);
        assert(after == before.after(nodes@[i as int].op, params@, uniques@));
        let op = match &nodes[i].op {
            Op::Param { arg } => {
                if arg.schedule_cache && arg.slot < params.len() as u64 {
                    let original = &params[arg.slot as usize];
                    if schedule_buffer(original) && original.device.is_some() && original.size.is_some() {
                        match find_allocated(&fresh_params, arg.slot) {
                            Some(at) => {
                                assert(before.params.contains_pair(arg.slot, fresh_params@[at as int].1));
                                Op::Buffer { arg: fresh_params[at].1.copy() }
                            }
                            None => {
                                let fresh = new_buffer(next, original);
                                proof {
                                    assert(!before.params.dom().contains(arg.slot));
                                    lemma_lists_insert(fresh_params@, before.params, arg.slot, fresh);
                                }
                                fresh_params.push((arg.slot, fresh.copy()));
                                next = next + 1;
                                Op::Buffer { arg: fresh }
                            }
                        }
                    } else {
                        assert(!before.params.dom().contains(arg.slot)) by {
                            lemma_only_schedule_params(nodes@, params@, uniques@, start, i as nat, arg.slot);
                        }
                        Op::Buffer { arg: original.copy() }
                    }
                } else {
                    nodes[i].op.copy()
                }
            }
            Op::Buffer { arg } => {
                if schedule_buffer(arg) {
                    match find_allocated(&locals, arg.slot) {
                        Some(at) => {
                            assert(before.locals.contains_pair(arg.slot, locals@[at as int].1));
                            Op::Buffer { arg: locals[at].1.copy() }
                        }
                        None => {
                            assert(!before.locals.dom().contains(arg.slot));
                            if arg.device.is_some() && arg.size.is_some() {
                                let fresh = new_buffer(next, arg);
                                proof {
                                    lemma_lists_insert(locals@, before.locals, arg.slot, fresh);
                                }
                                locals.push((arg.slot, fresh.copy()));
                                next = next + 1;
                                Op::Buffer { arg: fresh }
                            } else {
                                nodes[i].op.copy()
                            }
                        }
                    }
                } else {
                    nodes[i].op.copy()
                }
            }
            Op::LUnique { slot } => {
                if *slot < uniques.len() as u64 {
                    Op::Unique { id: uniques[*slot as usize] }
                } else {
                    match lost.get(slot) {
                        Some(id) => Op::Unique { id: *id },
                        None => {
                            let id = next;
                            lost.insert(*slot, id);
                            next = next + 1;
                            Op::Unique { id }
                        }
                    }
                }
            }
            _ => nodes[i].op.copy(),
        };
        let mut srcs: Vec<usize> = Vec::new();
        let mut j: usize = 0;
        while j < nodes[i].srcs.len()
            invariant
                i < nodes@.len(),
                j <= nodes@[i as int].srcs@.len(),
                srcs@ == nodes@[i as int].srcs@.subrange(0, j as int),
            decreases nodes@[i as int].srcs@.len() - j,
        {
            srcs.push(nodes[i].srcs[j]);
            j = j + 1;
        }
        assert(srcs@ =~= nodes@[i as int].srcs@);
        out.push(Node { op, srcs });
        i = i + 1;
    }
    *next_id = next;
    assert(ordered(out@)) by {
        assert forall|k: int, j: int|
            #![trigger out@[k].srcs@[j]]
            0 <= k < out@.len() && 0 <= j < out@[k].srcs@.len() implies out@[k].srcs@[j] < k by {
            assert(nodes@[k].srcs@[j] < k);
        }
    }
    Graph { nodes: out }
}

/// Only parameters that stand for schedule buffers are allocated.
proof fn lemma_only_schedule_params(
    nodes: Seq<Node>,
    params: Seq<BufferArg>,
    uniques: Seq<u64>,
    start: u64,
    k: nat,
    slot: u64,
)
    requires
        slot < params.len(),
        !(is_schedule_buffer(Op::Buffer { arg: params[slot as int] }) && params[slot as int].device is Some
            && params[slot as int].size is Some),
    ensures
        !allocated(nodes, params, uniques, start, k).params.dom().contains(slot),
    decreases k,
{
    if k > 0 {
        lemma_only_schedule_params(nodes, params, uniques, start, (k - 1) as nat, slot);
    }
}

} // verus!
