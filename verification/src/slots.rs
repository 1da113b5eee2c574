//! The slots of a graph's buffers and identities: their order in a walk from the
//! root, whatever the list that holds the graph.

use std::collections::HashMap;

use vstd::prelude::*;

use crate::graph::{has_source, is_source, none_marked, term, AddrSpace, Graph, Node, Op, Term};

verus! {

// ---------------------------------------------------------------------------
// Walks
// ---------------------------------------------------------------------------

/// Whether an operation is a buffer that a run supplies: of constant size and
/// in global memory. Other allocations are internal to a kernel.
pub open spec fn is_run_buffer(op: Op) -> bool {
    op matches Op::Buffer { arg } && arg.addrspace == Some(AddrSpace::Global) && arg.size is Some
}

/// The id of a run buffer.
pub open spec fn run_buffer_id() -> spec_fn(Op) -> Option<u64> {
    |op: Op|
        match op {
            Op::Buffer { arg } => if is_run_buffer(op) {
                Some(arg.id)
            } else {
                None
            },
            _ => None,
        }
}

/// An identity.
pub open spec fn unique_id() -> spec_fn(Op) -> Option<u64> {
    |op: Op|
        match op {
            Op::Unique { id } => Some(id),
            _ => None,
        }
}

/// The ids that a walk over a term meets, of the operations that `pick` gives
/// one for: the sources first, from the first to the last, then the operation.
pub open spec fn walked(t: Term, pick: spec_fn(Op) -> Option<u64>) -> Seq<u64>
    decreases t, t.srcs.len() + 1,
{
    walked_sources(t, t.srcs.len(), pick) + own_id(t.op, pick)
}

/// The ids that a walk over the first `k` sources of a term meets.
pub open spec fn walked_sources(t: Term, k: nat, pick: spec_fn(Op) -> Option<u64>) -> Seq<u64>
    decreases t, k,
{
    if k == 0 || k > t.srcs.len() {
        Seq::empty()
    } else {
        walked_sources(t, (k - 1) as nat, pick) + walked(t.srcs[k - 1], pick)
    }
}

/// The id of an operation, if it has one.
pub open spec fn own_id(op: Op, pick: spec_fn(Op) -> Option<u64>) -> Seq<u64> {
    match pick(op) {
        Some(id) => seq![id],
        None => seq![],
    }
}

/// A list of ids with those of another that it does not hold, in the order in
/// which they first occur.
pub open spec fn extended(ids: Seq<u64>, more: Seq<u64>) -> Seq<u64>
    decreases more.len(),
{
    if more.len() == 0 {
        ids
    } else {
        let earlier = extended(ids, more.drop_last());
        if earlier.contains(more.last()) {
            earlier
        } else {
            earlier.push(more.last())
        }
    }
}

/// The distinct ids that a walk over a term meets, in the order in which it first
/// does; the position of an id is its slot.
pub open spec fn slots_of(t: Term, pick: spec_fn(Op) -> Option<u64>) -> Seq<u64> {
    extended(Seq::empty(), walked(t, pick))
}

/// The run buffers of a graph; the position of a buffer is its slot.
pub open spec fn buffer_slots(nodes: Seq<Node>) -> Seq<u64> {
    slots_of(term(nodes, nodes.len() - 1), run_buffer_id())
}

/// The identities of a graph; the position of an identity is its slot.
pub open spec fn unique_slots(nodes: Seq<Node>) -> Seq<u64> {
    slots_of(term(nodes, nodes.len() - 1), unique_id())
}

pub proof fn lemma_extended_contains(ids: Seq<u64>, more: Seq<u64>)
    ensures
        forall|id: u64| #[trigger] extended(ids, more).contains(id) <==> ids.contains(id) || more.contains(id),
        ids.no_duplicates() ==> extended(ids, more).no_duplicates(),
    decreases more.len(),
{
    if more.len() > 0 {
        let rest = more.drop_last();
        lemma_extended_contains(ids, rest);
        let earlier = extended(ids, rest);
        let last = more.last();
        assert forall|id: u64| #[trigger] extended(ids, more).contains(id) <==> ids.contains(id) || more.contains(id) by {
            if rest.contains(id) {
                let j = choose|j: int| 0 <= j < rest.len() && rest[j] == id;
                assert(more[j] == id);
            }
            if more.contains(id) && id != last {
                let j = choose|j: int| 0 <= j < more.len() && more[j] == id;
                assert(rest[j] == id);
            }
            assert(more[more.len() - 1] == last);
            if !earlier.contains(last) {
                let after = earlier.push(last);
                assert(after[earlier.len() as int] == last);
                if earlier.contains(id) {
                    let j = choose|j: int| 0 <= j < earlier.len() && earlier[j] == id;
                    assert(after[j] == id);
                }
                if after.contains(id) && id != last {
                    let j = choose|j: int| 0 <= j < after.len() && after[j] == id;
                    assert(earlier[j] == id);
                }
            }
        }
    }
}

proof fn lemma_extended_twice(ids: Seq<u64>, a: Seq<u64>, b: Seq<u64>)
    ensures
        extended(ids, a + b) == extended(extended(ids, a), b),
    decreases b.len(),
{
    if b.len() == 0 {
        assert(a + b =~= a);
    } else {
        assert((a + b).drop_last() =~= a + b.drop_last());
        assert((a + b).last() == b.last());
        lemma_extended_twice(ids, a, b.drop_last());
    }
}

proof fn lemma_extended_known(ids: Seq<u64>, more: Seq<u64>)
    requires
        forall|j: int| #![trigger more[j]] 0 <= j < more.len() ==> ids.contains(more[j]),
    ensures
        extended(ids, more) == ids,
    decreases more.len(),
{
    if more.len() > 0 {
        let rest = more.drop_last();
        assert forall|j: int| #![trigger rest[j]] 0 <= j < rest.len() implies ids.contains(rest[j]) by {
            assert(rest[j] == more[j]);
        }
        lemma_extended_known(ids, rest);
        assert(ids.contains(more[more.len() - 1]));
    }
}

/// Every id of a list is in another.
spec fn within(list: Seq<u64>, ids: Seq<u64>) -> bool {
    forall|j: int| #![trigger list[j]] 0 <= j < list.len() ==> ids.contains(list[j])
}

proof fn lemma_within_join(a: Seq<u64>, b: Seq<u64>, ids: Seq<u64>)
    ensures
        within(a + b, ids) <==> within(a, ids) && within(b, ids),
{
    let both = a + b;
    if within(both, ids) {
        assert forall|j: int| #![trigger a[j]] 0 <= j < a.len() implies ids.contains(a[j]) by {
            assert(both[j] == a[j]);
        }
        assert forall|j: int| #![trigger b[j]] 0 <= j < b.len() implies ids.contains(b[j]) by {
            assert(both[a.len() + j] == b[j]);
        }
    }
    if within(a, ids) && within(b, ids) {
        assert forall|j: int| #![trigger both[j]] 0 <= j < both.len() implies ids.contains(both[j]) by {
            if j < a.len() {
                assert(both[j] == a[j]);
            } else {
                assert(both[j] == b[j - a.len()]);
            }
        }
    }
}

/// What a walk over a term meets after its first `k` sources.
spec fn walked_from(t: Term, k: nat, pick: spec_fn(Op) -> Option<u64>) -> Seq<u64>
    decreases t.srcs.len() - k,
{
    if k >= t.srcs.len() {
        own_id(t.op, pick)
    } else {
        walked(t.srcs[k as int], pick) + walked_from(t, k + 1, pick)
    }
}

proof fn lemma_walk_parts(t: Term, k: nat, pick: spec_fn(Op) -> Option<u64>)
    requires
        k <= t.srcs.len(),
    ensures
        walked(t, pick) == walked_sources(t, k, pick) + walked_from(t, k, pick),
    decreases t.srcs.len() - k,
{
    if k < t.srcs.len() {
        lemma_walk_parts(t, k + 1, pick);
        assert(walked_sources(t, k + 1, pick) == walked_sources(t, k, pick) + walked(t.srcs[k as int], pick));
        assert(walked_sources(t, k, pick) + walked_from(t, k, pick) =~= walked_sources(t, k + 1, pick) + walked_from(
            t,
            k + 1,
            pick,
        ));
    }
}

/// A walk over a term meets what a walk over one of its sources does.
proof fn lemma_source_walked(t: Term, k: nat, j: int, pick: spec_fn(Op) -> Option<u64>, ids: Seq<u64>)
    requires
        0 <= j < k <= t.srcs.len(),
        within(walked_sources(t, k, pick), ids),
    ensures
        within(walked(t.srcs[j], pick), ids),
    decreases k,
{
    lemma_within_join(walked_sources(t, (k - 1) as nat, pick), walked(t.srcs[k - 1], pick), ids);
    if j < k - 1 {
        lemma_source_walked(t, (k - 1) as nat, j, pick, ids);
    }
}

/// A walk from the root meets what a walk from any node does.
proof fn lemma_node_walked(graph: &Graph, i: int, pick: spec_fn(Op) -> Option<u64>, ids: Seq<u64>)
    requires
        graph.wf(),
        0 <= i < graph.nodes@.len(),
        within(walked(graph.root(), pick), ids),
    ensures
        within(walked(term(graph.nodes@, i), pick), ids),
    decreases graph.nodes@.len() - i,
{
    let nodes = graph.nodes@;
    if i < nodes.len() - 1 {
        assert(is_source(nodes, i));
        let (k, j) = choose|k: int, j: int| has_source(nodes, k, j, i);
        assert(nodes[k].srcs@[j] < k);
        lemma_node_walked(graph, k, pick, ids);
        let t = term(nodes, k);
        assert(t.srcs[j] == term(nodes, i));
        lemma_within_join(walked_sources(t, t.srcs.len(), pick), own_id(t.op, pick), ids);
        lemma_source_walked(t, t.srcs.len(), j, pick, ids);
    }
}

/// Every id of a graph has a slot, and no two slots hold one id.
pub proof fn lemma_slots(graph: &Graph, pick: spec_fn(Op) -> Option<u64>)
    requires
        graph.wf(),
    ensures
        slots_of(graph.root(), pick).no_duplicates(),
        forall|i: int|
            #![trigger graph.nodes@[i]]
            0 <= i < graph.nodes@.len() ==> (pick(graph.nodes@[i].op) matches Some(id) ==> slots_of(
                graph.root(),
                pick,
            ).contains(id)),
{
    let all = walked(graph.root(), pick);
    let ids = slots_of(graph.root(), pick);
    lemma_extended_contains(Seq::empty(), all);
    assert(within(all, ids)) by {
        assert forall|j: int| #![trigger all[j]] 0 <= j < all.len() implies ids.contains(all[j]) by {
            assert(all.contains(all[j]));
        }
    }
    assert forall|i: int| #![trigger graph.nodes@[i]] 0 <= i < graph.nodes@.len() implies (pick(
        graph.nodes@[i].op,
    ) matches Some(id) ==> ids.contains(id)) by {
        if let Some(id) = pick(graph.nodes@[i].op) {
            lemma_node_walked(graph, i, pick, ids);
            let t = term(graph.nodes@, i);
            lemma_within_join(walked_sources(t, t.srcs.len(), pick), own_id(t.op, pick), ids);
            assert(own_id(t.op, pick)[0] == id);
        }
    }
}

/// What a walk meets stands at a node.
proof fn lemma_walked_somewhere(graph: &Graph, i: int, k: nat, pick: spec_fn(Op) -> Option<u64>, id: u64)
    requires
        graph.wf(),
        0 <= i < graph.nodes@.len(),
        k <= graph.nodes@[i].srcs@.len(),
        walked_sources(term(graph.nodes@, i), k, pick).contains(id) || (k == graph.nodes@[i].srcs@.len() && walked(
            term(graph.nodes@, i),
            pick,
        ).contains(id)),
    ensures
        exists|at: int| #![trigger graph.nodes@[at]] 0 <= at < graph.nodes@.len() && pick(graph.nodes@[at].op) == Some(id),
    decreases i, k,
{
    let nodes = graph.nodes@;
    let t = term(nodes, i);
    let sources = walked_sources(t, k, pick);
    let own = own_id(t.op, pick);
    if sources.contains(id) {
        let j = choose|j: int| 0 <= j < sources.len() && sources[j] == id;
        let earlier = walked_sources(t, (k - 1) as nat, pick);
        let src = nodes[i].srcs@[k - 1];
        assert(nodes[i].srcs@[k - 1] < i);
        assert(t.srcs[k - 1] == term(nodes, src as int));
        if j < earlier.len() {
            assert(earlier[j] == id);
            lemma_walked_somewhere(graph, i, (k - 1) as nat, pick, id);
        } else {
            assert(walked(t.srcs[k - 1], pick)[j - earlier.len()] == id);
            lemma_walked_somewhere(graph, src as int, nodes[src as int].srcs@.len(), pick, id);
        }
    } else {
        let all = walked(t, pick);
        let j = choose|j: int| 0 <= j < all.len() && all[j] == id;
        assert(j >= sources.len()) by {
            if j < sources.len() {
                assert(sources[j] == id);
            }
        }
        assert(own[j - sources.len()] == id);
        assert(pick(nodes[i].op) == Some(id));
    }
}

/// What has a slot stands at a node.
pub proof fn lemma_slot_somewhere(graph: &Graph, pick: spec_fn(Op) -> Option<u64>, j: int) -> (at: int)
    requires
        graph.wf(),
        0 <= j < slots_of(graph.root(), pick).len(),
    ensures
        0 <= at < graph.nodes@.len(),
        pick(graph.nodes@[at].op) == Some(slots_of(graph.root(), pick)[j]),
{
    let id = slots_of(graph.root(), pick)[j];
    lemma_extended_contains(Seq::empty(), walked(graph.root(), pick));
    assert(slots_of(graph.root(), pick).contains(id));
    let root = graph.nodes@.len() - 1;
    lemma_walked_somewhere(graph, root, graph.nodes@[root].srcs@.len(), pick, id);
    choose|at: int| #![trigger graph.nodes@[at]] 0 <= at < graph.nodes@.len() && pick(graph.nodes@[at].op) == Some(id)
}

// ---------------------------------------------------------------------------
// Tables
// ---------------------------------------------------------------------------

/// Ids with the slots given to them, in the order in which they came, and the
/// nodes that they came from.
pub struct SlotTable {
    pub slots: HashMap<u64, u64>,
    pub ids: Vec<u64>,
    pub nodes: Vec<usize>,
}

impl SlotTable {
    pub open spec fn wf(&self) -> bool {
        &&& self.ids@.no_duplicates()
        &&& self.nodes@.len() == self.ids@.len()
        &&& forall|j: int|
            #![trigger self.ids@[j]]
            0 <= j < self.ids@.len() ==> self.slots@.contains_pair(self.ids@[j], j as u64)
        &&& forall|id: u64| #[trigger]
            self.slots@.dom().contains(id) ==> self.slots@[id] < self.ids@.len() && self.ids@[self.slots@[id] as int]
                == id
    }

    fn new() -> (table: SlotTable)
        ensures
            table.wf(),
            table.ids@ == Seq::<u64>::empty(),
            table.nodes@ == Seq::<usize>::empty(),
    {
        SlotTable { slots: HashMap::new(), ids: Vec::new(), nodes: Vec::new() }
    }

    /// The slot of `id`.
    pub fn find(&self, id: u64) -> (slot: Option<u64>)
        requires
            self.wf(),
        ensures
            match slot {
                Some(slot) => slot < self.ids@.len() && self.ids@[slot as int] == id && self.ids@.index_of(id)
                    == slot,
                None => !self.ids@.contains(id),
            },
    {
        match self.slots.get(&id) {
            Some(slot) => {
                proof {
                    assert(self.ids@[self.slots@[id] as int] == id);
                    let at = self.ids@.index_of(id);
                    assert(0 <= at < self.ids@.len() && self.ids@[at] == id);
                }
                Some(*slot)
            }
            None => {
                proof {
                    if self.ids@.contains(id) {
                        let j = choose|j: int| 0 <= j < self.ids@.len() && self.ids@[j] == id;
                        assert(self.slots@.contains_pair(self.ids@[j], j as u64));
                    }
                }
                None
            }
        }
    }

    /// Gives `id` a slot, unless it has one; it came from node `node`.
    fn add_id(&mut self, id: u64, node: usize)
        requires
            old(self).wf(),
        ensures
            final(self).wf(),
            final(self).ids@ == if old(self).ids@.contains(id) {
                old(self).ids@
            } else {
                old(self).ids@.push(id)
            },
            final(self).nodes@ == if old(self).ids@.contains(id) {
                old(self).nodes@
            } else {
                old(self).nodes@.push(node)
            },
    {
        if self.find(id).is_some() {
            return;
        }
        let slot = self.ids.len() as u64;
        self.ids.push(id);
        self.nodes.push(node);
        self.slots.insert(id, slot);
    }
}

/// Which ids are looked for: those of run buffers, or identities.
pub open spec fn picked(buffers: bool) -> spec_fn(Op) -> Option<u64> {
    if buffers {
        run_buffer_id()
    } else {
        unique_id()
    }
}

fn pick_id(op: &Op, buffers: bool) -> (id: Option<u64>)
    ensures
        id == picked(buffers)(*op),
{
    match op {
        Op::Buffer { arg } => {
            let global = match arg.addrspace {
                Some(AddrSpace::Global) => true,
                _ => false,
            };
            if buffers && global && arg.size.is_some() {
                Some(arg.id)
            } else {
                None
            }
        }
        Op::Unique { id } => if buffers { None } else { Some(*id) },
        _ => None,
    }
}

/// What is left of a walk: of each node on the way, from the last back to the
/// root, what comes after the sources that were walked.
spec fn left(nodes: Seq<Node>, path: Seq<(usize, usize)>, pick: spec_fn(Op) -> Option<u64>) -> Seq<u64>
    decreases path.len(),
{
    if path.len() == 0 {
        Seq::empty()
    } else {
        let (i, k) = path.last();
        walked_from(term(nodes, i as int), k as nat, pick) + left(nodes, path.drop_last(), pick)
    }
}

/// The number of nodes among the first `k` that were not walked.
spec fn unseen(seen: Seq<bool>, k: nat) -> nat
    decreases k,
{
    if k == 0 {
        0
    } else {
        unseen(seen, (k - 1) as nat) + if seen[k - 1] {
            0nat
        } else {
            1nat
        }
    }
}

proof fn lemma_unseen_less(seen: Seq<bool>, i: int, k: nat)
    requires
        0 <= i < seen.len(),
        k <= seen.len(),
        !seen[i],
    ensures
        unseen(seen.update(i, true), k) + (if i < k {
            1nat
        } else {
            0nat
        }) == unseen(seen, k),
    decreases k,
{
    if k > 0 {
        lemma_unseen_less(seen, i, (k - 1) as nat);
    }
}

/// What holds of the way from the root to where a walk is.
spec fn path_ok(
    nodes: Seq<Node>,
    path: Seq<(usize, usize)>,
    seen: Seq<bool>,
    ids: Seq<u64>,
    pick: spec_fn(Op) -> Option<u64>,
) -> bool {
    &&& seen.len() == nodes.len()
    &&& forall|a: int|
        #![trigger path[a]]
        0 <= a < path.len() ==> path[a].0 < nodes.len() && path[a].1 <= nodes[path[a].0 as int].srcs@.len()
            && !seen[path[a].0 as int] && within(
            walked_sources(term(nodes, path[a].0 as int), path[a].1 as nat, pick),
            ids,
        )
    &&& forall|a: int, b: int|
        #![trigger path[a], path[b]]
        0 <= a < b < path.len() ==> path[b].0 < path[a].0
    &&& forall|i: int|
        #![trigger seen[i]]
        0 <= i < nodes.len() && seen[i] ==> within(walked(term(nodes, i), pick), ids)
}

proof fn lemma_within_grows(list: Seq<u64>, ids: Seq<u64>, more: Seq<u64>)
    requires
        within(list, ids),
        forall|id: u64| #[trigger] ids.contains(id) ==> more.contains(id),
    ensures
        within(list, more),
{
}

/// The slots of a graph's run buffers, or of its identities: the ids that a walk
/// from the root meets, each once, with a node that it stands at.
pub fn slot_table(graph: &Graph, buffers: bool) -> (table: SlotTable)
    requires
        graph.wf(),
    ensures
        table.wf(),
        table.ids@ == slots_of(graph.root(), picked(buffers)),
        table.nodes@.len() == table.ids@.len(),
        forall|j: int|
            #![trigger table.nodes@[j]]
            0 <= j < table.nodes@.len() ==> table.nodes@[j] < graph.nodes@.len() && picked(buffers)(
                graph.nodes@[table.nodes@[j] as int].op,
            ) == Some(table.ids@[j]),
{
    let nodes = &graph.nodes;
    let n = nodes.len();
    let ghost pick = picked(buffers);
    let ghost target = slots_of(graph.root(), pick);
    let mut table = SlotTable::new();
    let mut seen = none_marked(n);
    let mut path: Vec<(usize, usize)> = Vec::new();
    path.push((n - 1, 0));
    proof {
        lemma_walk_parts(graph.root(), 0, pick);
        assert(walked_sources(graph.root(), 0, pick) =~= Seq::<u64>::empty());
        assert(path@.drop_last() =~= Seq::<(usize, usize)>::empty());
        assert(path@.last() == ((n - 1) as usize, 0usize));
        assert(left(nodes@, path@.drop_last(), pick) =~= Seq::<u64>::empty());
        assert(walked_from(graph.root(), 0, pick) =~= walked(graph.root(), pick));
        assert(left(nodes@, path@, pick) =~= walked(graph.root(), pick));
    }
    while path.len() > 0
        invariant
            n == nodes@.len(),
            n > 0,
            nodes@ == graph.nodes@,
            graph.wf(),
            pick == picked(buffers),
            target == slots_of(graph.root(), pick),
            table.wf(),
            path_ok(nodes@, path@, seen@, table.ids@, pick),
            extended(table.ids@, left(nodes@, path@, pick)) == target,
            table.nodes@.len() == table.ids@.len(),
            forall|j: int|
                #![trigger table.nodes@[j]]
                0 <= j < table.nodes@.len() ==> table.nodes@[j] < nodes@.len() && pick(
                    nodes@[table.nodes@[j] as int].op,
                ) == Some(table.ids@[j]),
        decreases
                unseen(seen@, seen@.len()),
                (if path@.len() > 0 {
                    path@.last().0 as int
                } else {
                    0int
                }),
                (if path@.len() > 0 {
                    nodes@[path@.last().0 as int].srcs@.len() - path@.last().1
                } else {
                    0int
                }),
    {
        let top = path.len() - 1;
        let (i, k) = path[top];
        let ghost t = term(nodes@, i as int);
        let ghost ids = table.ids@;
        let ghost below = path@.drop_last();
        assert(path@[top as int] == (i, k));
        assert(path@.last() == (i, k));
        if k < nodes[i].srcs.len() {
            let src = nodes[i].srcs[k];
            let ghost u = term(nodes@, src as int);
            let ghost rest = walked_from(t, (k + 1) as nat, pick) + left(nodes@, below, pick);
            proof {
                assert(nodes@[i as int].srcs@[k as int] < i);
                assert(t.srcs[k as int] == u);
                assert(left(nodes@, path@, pick) =~= walked(u, pick) + rest);
                lemma_extended_twice(ids, walked(u, pick), rest);
            }
            if seen[src] {
                let ghost before = path@;
                path.set(top, (i, k + 1));
                proof {
                    assert(within(walked(u, pick), ids));
                    lemma_extended_known(ids, walked(u, pick));
                    assert(path@.drop_last() =~= below);
                    assert(left(nodes@, path@, pick) =~= rest);
                    assert(walked_sources(t, (k + 1) as nat, pick) == walked_sources(t, k as nat, pick) + walked(
                        u,
                        pick,
                    ));
                    lemma_within_join(walked_sources(t, k as nat, pick), walked(u, pick), ids);
                    assert forall|a: int| #![trigger path@[a]] 0 <= a < path@.len() implies path@[a].0 < nodes@.len()
                        && path@[a].1 <= nodes@[path@[a].0 as int].srcs@.len() && !seen@[path@[a].0 as int] && within(
                        walked_sources(term(nodes@, path@[a].0 as int), path@[a].1 as nat, pick),
                        ids,
                    ) by {
                        let _ = before[a];
                    }
                    assert forall|a: int, b: int|
                        #![trigger path@[a], path@[b]]
                        0 <= a < b < path@.len() implies path@[b].0 < path@[a].0 by {
                        assert(before[b].0 < before[a].0);
                    }
                }
            } else {
                let ghost before = path@;
                path.push((src, 0));
                proof {
                    lemma_walk_parts(u, 0, pick);
                    assert(walked_sources(u, 0, pick) =~= Seq::<u64>::empty());
                    assert(walked_from(u, 0, pick) =~= walked(u, pick));
                    assert(path@.drop_last() =~= before);
                    assert(left(nodes@, path@, pick) =~= walked(u, pick) + left(nodes@, before, pick));
                    // The source is walked once more on the way back, and adds nothing then.
                    let once = extended(ids, walked(u, pick));
                    lemma_extended_twice(ids, walked(u, pick), left(nodes@, before, pick));
                    lemma_extended_twice(once, walked(u, pick), rest);
                    lemma_extended_contains(ids, walked(u, pick));
                    assert forall|j: int| #![trigger walked(u, pick)[j]] 0 <= j < walked(u, pick).len() implies once.contains(
                        walked(u, pick)[j],
                    ) by {
                        assert(walked(u, pick).contains(walked(u, pick)[j]));
                    }
                    lemma_extended_known(once, walked(u, pick));
                    assert forall|a: int| #![trigger path@[a]] 0 <= a < path@.len() implies path@[a].0 < nodes@.len()
                        && path@[a].1 <= nodes@[path@[a].0 as int].srcs@.len() && !seen@[path@[a].0 as int] && within(
                        walked_sources(term(nodes@, path@[a].0 as int), path@[a].1 as nat, pick),
                        ids,
                    ) by {
                        if a < before.len() {
                            let _ = before[a];
                        }
                    }
                    assert forall|a: int, b: int|
                        #![trigger path@[a], path@[b]]
                        0 <= a < b < path@.len() implies path@[b].0 < path@[a].0 by {
                        if b < before.len() {
                            assert(before[b].0 < before[a].0);
                        } else if a < top {
                            assert(before[top as int].0 < before[a].0);
                        }
                    }
                }
            }
        } else {
            let ghost before = path@;
            let ghost own = own_id(t.op, pick);
            let ghost old_seen = seen@;
            match pick_id(&nodes[i].op, buffers) {
                Some(id) => table.add_id(id, i),
                None => {}
            }
            let _ = path.pop();
            seen.set(i, true);
            proof {
                assert(t.op == nodes@[i as int].op);
                assert(left(nodes@, before, pick) =~= own + left(nodes@, below, pick));
                lemma_extended_twice(ids, own, left(nodes@, below, pick));
                assert(table.ids@ == extended(ids, own)) by {
                    if own.len() > 0 {
                        assert(own.drop_last() =~= Seq::<u64>::empty());
                        assert(extended(ids, own.drop_last()) == ids);
                    }
                }
                lemma_extended_contains(ids, own);
                lemma_unseen_less(old_seen, i as int, old_seen.len());
                let more = table.ids@;
                lemma_walk_parts(t, k as nat, pick);
                assert(walked(t, pick) == walked_sources(t, k as nat, pick) + own);
                assert(within(own, more)) by {
                    assert forall|j: int| #![trigger own[j]] 0 <= j < own.len() implies more.contains(own[j]) by {
                        assert(own.contains(own[j]));
                    }
                }
                lemma_within_grows(walked_sources(t, k as nat, pick), ids, more);
                lemma_within_join(walked_sources(t, k as nat, pick), own, more);
                assert forall|a: int| #![trigger path@[a]] 0 <= a < path@.len() implies path@[a].0 < nodes@.len()
                    && path@[a].1 <= nodes@[path@[a].0 as int].srcs@.len() && !seen@[path@[a].0 as int] && within(
                    walked_sources(term(nodes@, path@[a].0 as int), path@[a].1 as nat, pick),
                    more,
                ) by {
                    assert(path@[a] == before[a]);
                    assert(before[top as int].0 < before[a].0);
                    lemma_within_grows(
                        walked_sources(term(nodes@, path@[a].0 as int), path@[a].1 as nat, pick),
                        ids,
                        more,
                    );
                }
                assert forall|a: int, b: int|
                    #![trigger path@[a], path@[b]]
                    0 <= a < b < path@.len() implies path@[b].0 < path@[a].0 by {
                    assert(before[b].0 < before[a].0);
                }
                assert forall|x: int| #![trigger seen@[x]] 0 <= x < nodes@.len() && seen@[x] implies within(
                    walked(term(nodes@, x), pick),
                    more,
                ) by {
                    if x != i {
                        assert(old_seen[x]);
                        lemma_within_grows(walked(term(nodes@, x), pick), ids, more);
                    }
                }
            }
        }
    }
    assert(left(nodes@, path@, pick) =~= Seq::<u64>::empty());
    table
}

} // verus!
