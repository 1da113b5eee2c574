//! What a graph's bindings, effects and outputs are, whatever reads them.

use vstd::prelude::*;

use crate::graph::{
    binding, binding_of, contiguous_term, effect_node, gathered, rebinds, sink_term, Graph, Node, Op, Term,
};
use crate::vars::lookup;

verus! {

// ---------------------------------------------------------------------------
// Bindings
// ---------------------------------------------------------------------------

/// An operation introduces the variable `name`: it defines it, or it is a parameter
/// of that name that stands for no memory.
pub open spec fn introduces(op: Op, name: Seq<char>) -> bool {
    ||| op matches Op::DefineVar { name: own, .. } && own@ == name
    ||| op matches Op::Param { arg } && arg.addrspace is None && (arg.name matches Some(own) && own@ == name)
}

/// Node `i` binds `name` to `value`: a binding with two sources, of which the first
/// introduces the variable and the second is that integer.
pub open spec fn binds(nodes: Seq<Node>, i: int, name: Seq<char>, value: i64) -> bool {
    &&& 0 <= i < nodes.len()
    &&& nodes[i].op is Bind
    &&& nodes[i].srcs@.len() == 2
    &&& introduces(nodes[nodes[i].srcs@[0] as int].op, name)
    &&& nodes[nodes[i].srcs@[1] as int].op matches Op::Const { value: Some(own), .. } && own == value
}

pub proof fn lemma_gathered_from(pair: spec_fn(int) -> Option<(Seq<char>, i64)>, k: nat, name: Seq<char>) -> (i: int)
    requires
        gathered(pair, k).dom().contains(name),
    ensures
        0 <= i < k,
        pair(i) == Some((name, gathered(pair, k)[name])),
    decreases k,
{
    if gathered(pair, (k - 1) as nat).dom().contains(name) {
        lemma_gathered_from(pair, (k - 1) as nat, name)
    } else {
        k - 1
    }
}

pub proof fn lemma_gathered_holds(
    pair: spec_fn(int) -> Option<(Seq<char>, i64)>,
    k: nat,
    i: int,
    name: Seq<char>,
    value: i64,
)
    requires
        0 <= i < k,
        pair(i) == Some((name, value)),
    ensures
        gathered(pair, k).dom().contains(name),
        (forall|j: int| 0 <= j < k ==> !#[trigger] rebinds(pair, j)) ==> gathered(pair, k)[name] == value,
    decreases k,
{
    if i < k - 1 {
        lemma_gathered_holds(pair, (k - 1) as nat, i, name, value);
    } else {
        assert((forall|j: int| 0 <= j < k ==> !#[trigger] rebinds(pair, j)) ==> !rebinds(pair, i));
    }
}

/// The values of a graph's variables are those that its nodes bind them to, and no
/// others.
pub proof fn law_extracted_values_are_the_bound_ones(graph: &Graph, vars: Map<Seq<char>, i64>, name: Seq<char>, value: i64)
    requires
        vars == gathered(binding_of(graph.nodes@), graph.nodes@.len()),
        forall|i: int| 0 <= i < graph.nodes@.len() ==> !#[trigger] rebinds(binding_of(graph.nodes@), i),
    ensures
        vars.contains_pair(name, value) <==> exists|i: int| #[trigger] binds(graph.nodes@, i, name, value),
{
    let nodes = graph.nodes@;
    let pair = binding_of(nodes);
    if vars.contains_pair(name, value) {
        let i = lemma_gathered_from(pair, nodes.len(), name);
        assert(binding(nodes, i) == Some((name, value)));
        assert(binds(nodes, i, name, value));
    }
    if exists|i: int| #[trigger] binds(nodes, i, name, value) {
        let i = choose|i: int| #[trigger] binds(nodes, i, name, value);
        assert(pair(i) == Some((name, value)));
        lemma_gathered_holds(pair, nodes.len(), i, name, value);
    }
}

/// A graph has no values for its variables if and only if two of its nodes bind one
/// variable to different values.
pub proof fn law_contradictions_are_found(nodes: Seq<Node>)
    ensures
        (exists|i: int| 0 <= i < nodes.len() && #[trigger] rebinds(binding_of(nodes), i)) <==> exists|
            a: int,
            b: int,
            name: Seq<char>,
            x: i64,
            y: i64,
        | #[trigger] binds(nodes, a, name, x) && #[trigger] binds(nodes, b, name, y) && x != y,
{
    let pair = binding_of(nodes);
    if exists|i: int| 0 <= i < nodes.len() && #[trigger] rebinds(pair, i) {
        let i = choose|i: int| 0 <= i < nodes.len() && #[trigger] rebinds(pair, i);
        let (name, y) = pair(i)->0;
        let x = lookup(gathered(pair, i as nat), name)->0;
        let a = lemma_gathered_from(pair, i as nat, name);
        assert(binds(nodes, a, name, x) && binds(nodes, i, name, y) && x != y);
    }
    if exists|a: int, b: int, name: Seq<char>, x: i64, y: i64| #[trigger]
        binds(nodes, a, name, x) && #[trigger] binds(nodes, b, name, y) && x != y {
        let (a, b, name, x, y) = choose|a: int, b: int, name: Seq<char>, x: i64, y: i64| #[trigger]
            binds(nodes, a, name, x) && #[trigger] binds(nodes, b, name, y) && x != y;
        assert(pair(a) == Some((name, x)));
        assert(pair(b) == Some((name, y)));
        if forall|j: int| 0 <= j < nodes.len() ==> !#[trigger] rebinds(pair, j) {
            lemma_gathered_holds(pair, nodes.len(), a, name, x);
            lemma_gathered_holds(pair, nodes.len(), b, name, y);
        }
    }
}

// ---------------------------------------------------------------------------
// Effects and outputs
// ---------------------------------------------------------------------------

/// The runtime acts on a copy or a custom function wherever the root is one, or
/// closes loops around one; otherwise it acts on the root itself.
pub proof fn law_effects_are_found_in_loops(graph: &Graph, node: int)
    requires
        graph.wf(),
        node == effect_node(graph.nodes@, graph.nodes@.len() - 1),
    ensures
        ({
            let root = graph.root();
            let t = crate::graph::term(graph.nodes@, node);
            let inner = root.srcs[0];
            &&& t == root || (root.op is End && root.srcs.len() > 0 && t == inner)
            &&& root.op is Copy || root.op is CustomFunction ==> t == root
            &&& root.op is End && root.srcs.len() > 0 && (inner.op is Copy || inner.op is CustomFunction) ==> t == inner
            &&& t.op is Copy || t.op is CustomFunction || t == root
        }),
{
    let nodes = graph.nodes@;
    let last = nodes.len() - 1;
    if nodes[last].srcs@.len() > 0 {
        assert(nodes[last].srcs@[0] < last);
    }
}

/// A graph of outputs has one output for each computation, in order: the
/// computation, made contiguous. None is left out and none is added.
pub proof fn law_sinks_hold_every_output(terms: Seq<Term>, others: Seq<Term>, k: int)
    requires
        0 <= k < terms.len(),
    ensures
        sink_term(terms).op == (Op::Sink { explicit_opts: false }),
        sink_term(terms).srcs.len() == terms.len(),
        sink_term(terms).srcs[k].op is Contiguous,
        sink_term(terms).srcs[k].srcs == seq![terms[k]],
        sink_term(terms) == sink_term(others) ==> terms == others,
{
    if sink_term(terms) == sink_term(others) {
        assert(sink_term(others).srcs.len() == others.len());
        assert forall|j: int| 0 <= j < terms.len() implies terms[j] == others[j] by {
            assert(sink_term(terms).srcs[j] == sink_term(others).srcs[j]);
            assert(contiguous_term(terms[j]).srcs[0] == contiguous_term(others[j]).srcs[0]);
        }
        assert(terms =~= others);
    }
}

} // verus!
