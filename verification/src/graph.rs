//! Computation graphs as lists of nodes in topological order.

use vstd::prelude::*;
use vstd::string::*;

use crate::device::{copy_device, DeviceSpec, ScalarDType};
use crate::error::Error;
use crate::vars::{bind_mismatch, insert_var_val_checked, lookup, VarVals};

verus! {

/// The memory a buffer is allocated in.
#[derive(Clone, Copy, Debug, PartialEq, Eq, Structural)]
pub enum AddrSpace {
    Global,
    Local,
    Reg,
}

/// A storage allocation.
#[derive(Debug, PartialEq, Eq)]
pub struct BufferArg {
    /// The identity of the allocation: equal buffers have equal ids.
    pub id: u64,
    /// The number under which the allocation was requested.
    pub slot: u64,
    pub dtype: ScalarDType,
    pub addrspace: Option<AddrSpace>,
    pub device: Option<DeviceSpec>,
    /// The number of elements, where it is a constant.
    pub size: Option<usize>,
    /// Whether the allocation belongs to a cached schedule and is made anew
    /// for each run.
    pub schedule_local: bool,
}

impl BufferArg {
    /// The same allocation.
    pub fn copy(&self) -> (copy: BufferArg)
        ensures
            copy == *self,
    {
        BufferArg {
            id: self.id,
            slot: self.slot,
            dtype: self.dtype,
            addrspace: self.addrspace,
            device: copy_device(&self.device),
            size: self.size,
            schedule_local: self.schedule_local,
        }
    }
}

/// A formal parameter: of a kernel, of a cached schedule, or a symbolic
/// variable (then it lies in no memory).
#[derive(Debug, PartialEq, Eq)]
pub struct ParamArg {
    pub slot: u64,
    pub dtype: ScalarDType,
    pub addrspace: Option<AddrSpace>,
    pub device: Option<DeviceSpec>,
    pub size: Option<usize>,
    pub name: Option<String>,
    /// The least and greatest value, where both are integers.
    pub bounds: Option<(i64, i64)>,
    /// Whether the parameter stands for a buffer that was taken out of a
    /// schedule's cache key.
    pub schedule_cache: bool,
}

impl ParamArg {
    /// The same parameter.
    pub fn copy(&self) -> (copy: ParamArg)
        ensures
            copy == *self,
    {
        ParamArg {
            slot: self.slot,
            dtype: self.dtype,
            addrspace: self.addrspace,
            device: copy_device(&self.device),
            size: self.size,
            name: match &self.name {
                Some(name) => Some(name.clone()),
                None => None,
            },
            bounds: self.bounds,
            schedule_cache: self.schedule_cache,
        }
    }
}

/// What a node computes.
#[derive(Debug, PartialEq, Eq)]
pub enum Op {
    Buffer { arg: BufferArg },
    Param { arg: ParamArg },
    DefineVar { name: String, min: i64, max: i64 },
    /// A constant: its value where it is an integer, and its bits.
    Const { value: Option<i64>, bits: u64 },
    /// Binds a variable (the first source) to a value (the second).
    Bind,
    /// An identity.
    Unique { id: u64 },
    /// An identity relative to a cached schedule.
    LUnique { slot: u64 },
    /// The root of a kernel or of several outputs.
    Sink { explicit_opts: bool },
    /// Closes the loops around its first source.
    End,
    Copy,
    CustomFunction { kind: u64 },
    Contiguous,
    Reshape,
    /// A call of a callable; its body is no source.
    Call { body: u64 },
    /// Any other operation.
    Other { code: u64 },
}

impl Op {
    /// The same operation.
    pub fn copy(&self) -> (copy: Op)
        ensures
            copy == *self,
    {
        match self {
            Op::Buffer { arg } => Op::Buffer { arg: arg.copy() },
            Op::Param { arg } => Op::Param { arg: arg.copy() },
            Op::DefineVar { name, min, max } => Op::DefineVar { name: name.clone(), min: *min, max: *max },
            Op::Const { value, bits } => Op::Const { value: *value, bits: *bits },
            Op::Bind => Op::Bind,
            Op::Unique { id } => Op::Unique { id: *id },
            Op::LUnique { slot } => Op::LUnique { slot: *slot },
            Op::Sink { explicit_opts } => Op::Sink { explicit_opts: *explicit_opts },
            Op::End => Op::End,
            Op::Copy => Op::Copy,
            Op::CustomFunction { kind } => Op::CustomFunction { kind: *kind },
            Op::Contiguous => Op::Contiguous,
            Op::Reshape => Op::Reshape,
            Op::Call { body } => Op::Call { body: *body },
            Op::Other { code } => Op::Other { code: *code },
        }
    }

    /// The name of the symbolic variable that this operation introduces.
    pub open spec fn var_name(&self) -> Option<Seq<char>> {
        match self {
            Op::DefineVar { name, .. } => Some(name@),
            Op::Param { arg } => match (arg.addrspace, arg.name) {
                (None, Some(name)) => Some(name@),
                _ => None,
            },
            _ => None,
        }
    }

    /// The name of the symbolic variable that this operation introduces.
    pub fn variable(&self) -> (name: Option<&str>)
        ensures
            match name {
                Some(name) => self.var_name() == Some(name@),
                None => self.var_name() is None,
            },
    {
        match self {
            Op::DefineVar { name, .. } => Some(name.as_str()),
            Op::Param { arg } => {
                if arg.addrspace.is_none() {
                    match &arg.name {
                        Some(name) => Some(name.as_str()),
                        None => None,
                    }
                } else {
                    None
                }
            }
            _ => None,
        }
    }

    /// The value of an integer constant.
    pub open spec fn const_int(&self) -> Option<i64> {
        match self {
            Op::Const { value, .. } => *value,
            _ => None,
        }
    }

    /// The value of an integer constant.
    pub fn try_int(&self) -> (value: Option<i64>)
        ensures
            value == self.const_int(),
    {
        match self {
            Op::Const { value, .. } => *value,
            _ => None,
        }
    }

    /// Whether this operation never has sources.
    pub open spec fn is_leaf(&self) -> bool {
        match self {
            Op::Buffer { arg } => arg.size is Some,
            Op::Param { arg } => arg.schedule_cache,
            Op::DefineVar { .. } | Op::Const { .. } | Op::Unique { .. } | Op::LUnique { .. } => true,
            _ => false,
        }
    }
}

/// An operation and the positions of its sources.
#[derive(Debug, PartialEq, Eq)]
pub struct Node {
    pub op: Op,
    pub srcs: Vec<usize>,
}

/// An operation applied to terms: what a node computes, whatever the list
/// that holds it.
pub struct Term {
    pub op: Op,
    pub srcs: Seq<Term>,
}

/// Every source of every node stands before it.
pub open spec fn ordered(nodes: Seq<Node>) -> bool {
    forall|i: int, j: int|
        #![trigger nodes[i].srcs@[j]]
        0 <= i < nodes.len() && 0 <= j < nodes[i].srcs@.len() ==> nodes[i].srcs@[j] < i
}

/// What node `i` computes.
pub open spec fn term(nodes: Seq<Node>, i: int) -> Term
    decreases i,
{
    Term {
        op: nodes[i].op,
        srcs: Seq::new(
            nodes[i].srcs@.len(),
            |j: int|
                if 0 <= nodes[i].srcs@[j] < i {
                    term(nodes, nodes[i].srcs@[j] as int)
                } else {
                    arbitrary()
                },
        ),
    }
}

/// What a node computes depends on the nodes up to it alone.
pub proof fn lemma_term_prefix(a: Seq<Node>, b: Seq<Node>, i: int)
    requires
        0 <= i < a.len(),
        i < b.len(),
        ordered(a),
        forall|k: int| 0 <= k <= i ==> a[k] == b[k],
    ensures
        term(a, i) == term(b, i),
    decreases i,
{
    assert forall|j: int| 0 <= j < a[i].srcs@.len() implies term(a, a[i].srcs@[j] as int) == term(
        b,
        a[i].srcs@[j] as int,
    ) by {
        lemma_term_prefix(a, b, a[i].srcs@[j] as int);
    }
    assert(term(a, i).srcs =~= term(b, i).srcs);
}

/// Node `k` has node `i` as its source `j`.
pub open spec fn has_source(nodes: Seq<Node>, k: int, j: int, i: int) -> bool {
    0 <= k < nodes.len() && 0 <= j < nodes[k].srcs@.len() && nodes[k].srcs@[j] == i
}

/// Node `i` is a source of some node.
pub open spec fn is_source(nodes: Seq<Node>, i: int) -> bool {
    exists|k: int, j: int| has_source(nodes, k, j, i)
}

/// Every node but the last is a source of some node.
pub open spec fn used(nodes: Seq<Node>) -> bool {
    forall|i: int| 0 <= i < nodes.len() - 1 ==> #[trigger] is_source(nodes, i)
}

/// Leaves have no sources.
pub open spec fn leaves_bare(nodes: Seq<Node>) -> bool {
    forall|i: int|
        #![trigger nodes[i]]
        0 <= i < nodes.len() && nodes[i].op.is_leaf() ==> nodes[i].srcs@.len() == 0
}

/// Buffers with one id are one buffer.
pub open spec fn buffers_agree(nodes: Seq<Node>) -> bool {
    forall|i: int, j: int|
        #![trigger nodes[i], nodes[j]]
        0 <= i < nodes.len() && 0 <= j < nodes.len() ==> (nodes[i].op matches Op::Buffer { arg: a }
            ==> nodes[j].op matches Op::Buffer { arg: b } ==> a.id == b.id ==> a == b)
}

/// A computation graph: the nodes that its root reaches, in topological
/// order, the root last.
#[derive(Debug, PartialEq, Eq)]
pub struct Graph {
    pub nodes: Vec<Node>,
}

impl Graph {
    /// The list is in topological order and not empty, every node but the
    /// last is a source of a later one, leaves have no sources, and buffers
    /// with one id are one buffer.
    pub open spec fn wf(&self) -> bool {
        &&& self.nodes@.len() > 0
        &&& ordered(self.nodes@)
        &&& used(self.nodes@)
        &&& leaves_bare(self.nodes@)
        &&& buffers_agree(self.nodes@)
    }

    /// What the root computes.
    pub open spec fn root(&self) -> Term {
        term(self.nodes@, self.nodes@.len() - 1)
    }
}

/// Node `i` is a source of a node that `keep` marks.
pub open spec fn feeds(nodes: Seq<Node>, keep: Seq<bool>, i: int) -> bool {
    exists|k: int, j: int| has_source(nodes, k, j, i) && keep[k]
}

/// Marks what the nodes marked in `seeds` are computed from: those nodes, and
/// the sources of every node that is marked.
pub fn needed_nodes(nodes: &Vec<Node>, seeds: Vec<bool>) -> (keep: Vec<bool>)
    requires
        ordered(nodes@),
        seeds@.len() == nodes@.len(),
    ensures
        keep@.len() == nodes@.len(),
        forall|i: int| #![trigger keep@[i]] 0 <= i < nodes@.len() && seeds@[i] ==> keep@[i],
        forall|k: int, j: int, i: int| #[trigger] has_source(nodes@, k, j, i) && keep@[k] ==> keep@[i],
        forall|i: int|
            #![trigger keep@[i]]
            0 <= i < nodes@.len() && keep@[i] ==> seeds@[i] || feeds(nodes@, keep@, i),
{
    let n = nodes.len();
    let ghost first = seeds@;
    let mut keep = seeds;
    let mut at: usize = n;
    while at > 0
        invariant
            at <= n,
            n == nodes@.len(),
            ordered(nodes@),
            keep@.len() == n,
            first.len() == n,
            forall|i: int| #![trigger keep@[i]] 0 <= i < n && first[i] ==> keep@[i],
            forall|k: int, j: int, i: int| #[trigger]
                has_source(nodes@, k, j, i) && k >= at && keep@[k] ==> keep@[i],
            forall|i: int| #![trigger keep@[i]] 0 <= i < n && keep@[i] ==> first[i] || feeds(nodes@, keep@, i),
        decreases at,
    {
        let k: usize = at - 1;
        if keep[k] {
            let mut j: usize = 0;
            while j < nodes[k].srcs.len()
                invariant
                    at == k + 1,
                    k < n,
                    n == nodes@.len(),
                    ordered(nodes@),
                    keep@.len() == n,
                    first.len() == n,
                    keep@[k as int],
                    j <= nodes@[k as int].srcs@.len(),
                    forall|i: int| #![trigger keep@[i]] 0 <= i < n && first[i] ==> keep@[i],
                    forall|l: int, p: int, i: int| #[trigger]
                        has_source(nodes@, l, p, i) && l >= at && keep@[l] ==> keep@[i],
                    forall|p: int, i: int| #[trigger]
                        has_source(nodes@, k as int, p, i) && p < j ==> keep@[i],
                    forall|i: int|
                        #![trigger keep@[i]]
                        0 <= i < n && keep@[i] ==> first[i] || feeds(nodes@, keep@, i),
                decreases nodes@[k as int].srcs@.len() - j,
            {
                let src = nodes[k].srcs[j];
                assert(nodes@[k as int].srcs@[j as int] < k);
                let ghost before = keep@;
                keep.set(src, true);
                proof {
                    assert(has_source(nodes@, k as int, j as int, src as int));
                    assert forall|i: int| #![trigger keep@[i]] 0 <= i < n && keep@[i] implies first[i] || feeds(
                        nodes@,
                        keep@,
                        i,
                    ) by {
                        if i == src {
                            assert(has_source(nodes@, k as int, j as int, i) && keep@[k as int]);
                        } else if !first[i] {
                            assert(before[i]);
                            let (l, p) = choose|l: int, p: int| has_source(nodes@, l, p, i) && before[l];
                            assert(has_source(nodes@, l, p, i) && keep@[l]);
                        }
                    }
                    assert forall|l: int, p: int, i: int| #[trigger]
                        has_source(nodes@, l, p, i) && l >= at && keep@[l] implies keep@[i] by {
                        assert(before[l]);
                    }
                }
                j = j + 1;
            }
        }
        at = k;
    }
    keep
}

/// A list of `n` truth values, none of them true.
pub fn none_marked(n: usize) -> (marks: Vec<bool>)
    ensures
        marks@.len() == n,
        forall|i: int| #![trigger marks@[i]] 0 <= i < n ==> !marks@[i],
{
    let mut marks: Vec<bool> = Vec::new();
    let mut m: usize = 0;
    while m < n
        invariant
            m <= n,
            marks@.len() == m,
            forall|i: int| 0 <= i < m ==> !#[trigger] marks@[i],
        decreases n - m,
    {
        marks.push(false);
        m = m + 1;
    }
    marks
}

/// The part of `nodes` that its last node reaches.
pub fn prune(nodes: Vec<Node>) -> (graph: Graph)
    requires
        nodes@.len() > 0,
        ordered(nodes@),
        leaves_bare(nodes@),
        buffers_agree(nodes@),
    ensures
        graph.wf(),
        graph.root() == term(nodes@, nodes@.len() - 1),
        graph.nodes@.len() <= nodes@.len(),
{
    let n = nodes.len();
    let mut seeds = none_marked(n);
    seeds.set(n - 1, true);
    let keep = needed_nodes(&nodes, seeds);
    assert(keep@[n - 1]);
    let mut kept: Vec<Node> = Vec::new();
    let mut place: Vec<usize> = Vec::new();
    let ghost mut from: Seq<int> = Seq::empty();
    let mut i: usize = 0;
    while i < n
        invariant
            n == nodes@.len(),
            n > 0,
            i <= n,
            ordered(nodes@),
            leaves_bare(nodes@),
            keep@.len() == n,
            keep@[n - 1],
            forall|k: int, j: int, s: int| #[trigger] has_source(nodes@, k, j, s) && keep@[k] ==> keep@[s],
            place@.len() == i,
            from.len() == kept@.len(),
            kept@.len() <= i,
            ordered(kept@),
            forall|o: int|
                #![trigger from[o]]
                #![trigger kept@[o]]
                0 <= o < kept@.len() ==> 0 <= from[o] < i && keep@[from[o]] && place@[from[o]] == o
                    && kept@[o].op == nodes@[from[o]].op && kept@[o].srcs@.len() == nodes@[from[o]].srcs@.len(),
            forall|k: int|
                #![trigger place@[k]]
                0 <= k < i && keep@[k] ==> place@[k] < kept@.len() && from[place@[k] as int] == k && term(
                    kept@,
                    place@[k] as int,
                ) == term(nodes@, k),
            forall|k: int, j: int, s: int| #[trigger]
                has_source(nodes@, k, j, s) && k < i && keep@[k] ==> kept@[place@[k] as int].srcs@[j] == place@[s],
            i > 0 && keep@[i - 1] ==> place@[i - 1] == kept@.len() - 1,
        decreases n - i,
    {
        if keep[i] {
            let mut srcs: Vec<usize> = Vec::new();
            let mut j: usize = 0;
            while j < nodes[i].srcs.len()
                invariant
                    n == nodes@.len(),
                    i < n,
                    ordered(nodes@),
                    keep@.len() == n,
                    keep@[i as int],
                    forall|k: int, j: int, s: int| #[trigger]
                        has_source(nodes@, k, j, s) && keep@[k] ==> keep@[s],
                    place@.len() == i,
                    forall|k: int|
                        #![trigger place@[k]]
                        0 <= k < i && keep@[k] ==> place@[k] < kept@.len(),
                    j <= nodes@[i as int].srcs@.len(),
                    srcs@.len() == j,
                    forall|p: int|
                        #![trigger srcs@[p]]
                        0 <= p < j ==> nodes@[i as int].srcs@[p] < i && srcs@[p]
                            == place@[nodes@[i as int].srcs@[p] as int] && srcs@[p] < kept@.len()
                            && keep@[nodes@[i as int].srcs@[p] as int],
                decreases nodes@[i as int].srcs@.len() - j,
            {
                let src = nodes[i].srcs[j];
                assert(nodes@[i as int].srcs@[j as int] < i);
                assert(has_source(nodes@, i as int, j as int, src as int));
                srcs.push(place[src]);
                j = j + 1;
            }
            let ghost old_kept = kept@;
            let ghost old_place = place@;
            let at: usize = kept.len();
            kept.push(Node { op: nodes[i].op.copy(), srcs });
            place.push(at);
            proof {
                from = from.push(i as int);
                assert(ordered(kept@)) by {
                    assert forall|o: int, p: int|
                        #![trigger kept@[o].srcs@[p]]
                        0 <= o < kept@.len() && 0 <= p < kept@[o].srcs@.len() implies kept@[o].srcs@[p] < o by {
                        if o < old_kept.len() {
                            assert(old_kept[o].srcs@[p] < o);
                        } else {
                            assert(srcs@[p] < old_kept.len());
                        }
                    }
                }
                assert forall|k: int|
                    #![trigger place@[k]]
                    0 <= k < i + 1 && keep@[k] implies place@[k] < kept@.len() && from[place@[k] as int] == k
                    && term(kept@, place@[k] as int) == term(nodes@, k) by {
                    if k < i {
                        assert(place@[k] == old_place[k]);
                        lemma_term_prefix(old_kept, kept@, place@[k] as int);
                    } else {
                        assert forall|p: int|
                            0 <= p < nodes@[k].srcs@.len() implies #[trigger] term(kept@, at as int).srcs[p]
                            == term(nodes@, k).srcs[p] by {
                            let s = nodes@[k].srcs@[p] as int;
                            assert(srcs@[p] == old_place[s]);
                            lemma_term_prefix(old_kept, kept@, old_place[s] as int);
                        }
                        assert(term(kept@, at as int).srcs =~= term(nodes@, k).srcs);
                    }
                }
            }
        } else {
            place.push(0);
        }
        i = i + 1;
    }
    proof {
        assert(place@[n - 1] == kept@.len() - 1);
        assert forall|o: int| 0 <= o < kept@.len() - 1 implies #[trigger] is_source(kept@, o) by {
            let s = from[o];
            assert(place@[s] == o);
            assert(s != n - 1);
            assert(keep@[s] && !seeds@[s]);
            let (k, j) = choose|k: int, j: int| has_source(nodes@, k, j, s) && keep@[k];
            assert(has_source(nodes@, k, j, s) && keep@[k]);
            let u = place@[k] as int;
            assert(kept@[u].srcs@[j] == place@[s]);
            assert(from[u] == k);
            assert(has_source(kept@, u, j, o));
        }
        assert(buffers_agree(kept@)) by {
            assert forall|a: int, b: int|
                #![trigger kept@[a], kept@[b]]
                0 <= a < kept@.len() && 0 <= b < kept@.len() implies (kept@[a].op matches Op::Buffer { arg: x }
                ==> kept@[b].op matches Op::Buffer { arg: y } ==> x.id == y.id ==> x == y) by {
                let p = nodes@[from[a]];
                let q = nodes@[from[b]];
            }
        }
        assert(leaves_bare(kept@));
    }
    Graph { nodes: kept }
}

/// The variable and the value that node `i` binds to one another.
pub open spec fn binding(nodes: Seq<Node>, i: int) -> Option<(Seq<char>, i64)> {
    let srcs = nodes[i].srcs@;
    if nodes[i].op is Bind && srcs.len() == 2 {
        match (nodes[srcs[0] as int].op.var_name(), nodes[srcs[1] as int].op.const_int()) {
            (Some(name), Some(value)) => Some((name, value)),
            _ => None,
        }
    } else {
        None
    }
}

/// The bindings that nodes `0..k` make, where node `i` makes `pair(i)`: the
/// first binding of a name holds.
pub open spec fn gathered(pair: spec_fn(int) -> Option<(Seq<char>, i64)>, k: nat) -> Map<Seq<char>, i64>
    decreases k,
{
    if k == 0 {
        Map::empty()
    } else {
        let earlier = gathered(pair, (k - 1) as nat);
        match pair(k - 1) {
            Some((name, value)) => if earlier.dom().contains(name) {
                earlier
            } else {
                earlier.insert(name, value)
            },
            None => earlier,
        }
    }
}

/// Node `i` binds a variable to another value than an earlier node did.
pub open spec fn rebinds(pair: spec_fn(int) -> Option<(Seq<char>, i64)>, i: int) -> bool {
    match pair(i) {
        Some((name, value)) => lookup(gathered(pair, i as nat), name) matches Some(prev) && prev != value,
        None => false,
    }
}

/// Node `i` is the first that binds a variable to another value than an
/// earlier node did.
pub open spec fn first_rebind(pair: spec_fn(int) -> Option<(Seq<char>, i64)>, i: int) -> bool {
    &&& rebinds(pair, i)
    &&& forall|j: int| 0 <= j < i ==> !#[trigger] rebinds(pair, j)
}

/// What each node binds.
pub open spec fn binding_of(nodes: Seq<Node>) -> spec_fn(int) -> Option<(Seq<char>, i64)> {
    |i: int| binding(nodes, i)
}

/// The values that the graph binds its variables to. It fails if and only if
/// a variable is bound to two values, at the first node that shows it.
pub fn extract_var_vals(root: &Graph) -> (extracted: Result<VarVals, Error>)
    requires
        root.wf(),
    ensures
        match extracted {
            Ok(vars) => {
                &&& vars.wf()
                &&& vars@ == gathered(binding_of(root.nodes@), root.nodes@.len())
                &&& forall|i: int|
                    0 <= i < root.nodes@.len() ==> !#[trigger] rebinds(binding_of(root.nodes@), i)
            },
            Err(error) => exists|i: int|
                #![trigger rebinds(binding_of(root.nodes@), i)]
                0 <= i < root.nodes@.len() && first_rebind(binding_of(root.nodes@), i) && (binding(
                    root.nodes@,
                    i,
                ) matches Some((name, value)) && error matches Error::IrConstruction { details } && details@
                    == bind_mismatch(
                    name,
                    gathered(binding_of(root.nodes@), i as nat)[name],
                    value,
                    "bind extraction"@,
                )),
        },
{
    let mut var_vals = VarVals::new();
    let mut i: usize = 0;
    let nodes = &root.nodes;
    while i < nodes.len()
        invariant
            i <= nodes@.len(),
            nodes@ == root.nodes@,
            root.wf(),
            var_vals.wf(),
            var_vals@ == gathered(binding_of(nodes@), i as nat),
            forall|j: int| 0 <= j < i ==> !#[trigger] rebinds(binding_of(nodes@), j),
        decreases nodes@.len() - i,
    {
        if let Op::Bind = nodes[i].op {
            if nodes[i].srcs.len() == 2 {
                let var = nodes[i].srcs[0];
                let value = nodes[i].srcs[1];
                assert(nodes@[i as int].srcs@[0] < i && nodes@[i as int].srcs@[1] < i);
                if let Some(val) = nodes[value].op.try_int() {
                    if let Some(name) = nodes[var].op.variable() {
                        assert(binding(nodes@, i as int) == Some((name@, val)));
                        if let Err(error) = insert_var_val_checked(&mut var_vals, name, val, "bind extraction") {
                            assert(first_rebind(binding_of(nodes@), i as int));
                            return Err(error);
                        }
                    }
                }
            }
        }
        assert(!rebinds(binding_of(nodes@), i as int));
        i = i + 1;
    }
    Ok(var_vals)
}

/// The graph without the loops closed around a copy or a custom function, as
/// the position of the node that the runtime acts on.
pub open spec fn effect_node(nodes: Seq<Node>, root: int) -> int {
    let srcs = nodes[root].srcs@;
    if nodes[root].op is End && srcs.len() > 0 && (nodes[srcs[0] as int].op is Copy || nodes[srcs[0] as int].op
        is CustomFunction) {
        srcs[0] as int
    } else {
        root
    }
}

/// The position of the node that the runtime acts on: the copy or custom
/// function inside a closed loop, else the root.
pub fn runtime_effect_ast(ast: &Graph) -> (node: usize)
    requires
        ast.wf(),
    ensures
        node == effect_node(ast.nodes@, ast.nodes@.len() - 1),
        node < ast.nodes@.len(),
{
    let root = ast.nodes.len() - 1;
    if let Op::End = ast.nodes[root].op {
        if ast.nodes[root].srcs.len() > 0 {
            let computation = ast.nodes[root].srcs[0];
            assert(ast.nodes@[root as int].srcs@[0] < root);
            match ast.nodes[computation].op {
                Op::Copy => return computation,
                Op::CustomFunction { .. } => return computation,
                _ => {}
            }
        }
    }
    root
}

// ---------------------------------------------------------------------------
// Building
// ---------------------------------------------------------------------------

/// Two lists have the same nodes.
pub open spec fn same_nodes(a: Seq<Node>, b: Seq<Node>) -> bool {
    &&& a.len() == b.len()
    &&& forall|i: int| #![trigger a[i]] 0 <= i < a.len() ==> a[i].op == b[i].op && a[i].srcs@ == b[i].srcs@
}

/// The same nodes compute the same.
pub proof fn lemma_same_nodes(a: Seq<Node>, b: Seq<Node>, i: int)
    requires
        same_nodes(a, b),
        ordered(b),
        0 <= i < b.len(),
    ensures
        term(a, i) == term(b, i),
    decreases i,
{
    assert(a[i].op == b[i].op);
    assert forall|j: int| 0 <= j < b[i].srcs@.len() implies #[trigger] term(a, i).srcs[j] == term(b, i).srcs[j] by {
        assert(b[i].srcs@[j] < i);
        lemma_same_nodes(a, b, b[i].srcs@[j] as int);
    }
    assert(term(a, i).srcs =~= term(b, i).srcs);
}

proof fn lemma_same_nodes_wf(a: Seq<Node>, b: Seq<Node>)
    requires
        same_nodes(a, b),
        ordered(b),
        used(b),
        leaves_bare(b),
        buffers_agree(b),
    ensures
        ordered(a),
        used(a),
        leaves_bare(a),
        buffers_agree(a),
{
    assert forall|i: int, j: int|
        #![trigger a[i].srcs@[j]]
        0 <= i < a.len() && 0 <= j < a[i].srcs@.len() implies a[i].srcs@[j] < i by {
        assert(b[i].srcs@[j] < i);
    }
    assert forall|i: int| 0 <= i < a.len() - 1 implies #[trigger] is_source(a, i) by {
        assert(is_source(b, i));
        let (k, j) = choose|k: int, j: int| has_source(b, k, j, i);
        assert(a[k].srcs@ == b[k].srcs@);
        assert(has_source(a, k, j, i));
    }
    assert forall|i: int| #![trigger a[i]] 0 <= i < a.len() && a[i].op.is_leaf() implies a[i].srcs@.len() == 0 by {
        let _ = b[i];
    }
    assert forall|i: int, j: int|
        #![trigger a[i], a[j]]
        0 <= i < a.len() && 0 <= j < a.len() implies (a[i].op matches Op::Buffer { arg: x }
        ==> a[j].op matches Op::Buffer { arg: y } ==> x.id == y.id ==> x == y) by {
        let _ = b[i];
        let _ = b[j];
    }
}

fn copy_sources(srcs: &Vec<usize>) -> (copy: Vec<usize>)
    ensures
        copy@ == srcs@,
{
    let mut copy: Vec<usize> = Vec::new();
    let mut i: usize = 0;
    while i < srcs.len()
        invariant
            i <= srcs@.len(),
            copy@ == srcs@.subrange(0, i as int),
        decreases srcs@.len() - i,
    {
        copy.push(srcs[i]);
        i = i + 1;
    }
    assert(copy@ =~= srcs@);
    copy
}

impl Graph {
    /// The same graph.
    pub fn copy(&self) -> (copy: Graph)
        ensures
            same_nodes(copy.nodes@, self.nodes@),
            self.wf() ==> copy.wf() && copy.root() == self.root(),
    {
        let mut nodes: Vec<Node> = Vec::new();
        let mut i: usize = 0;
        while i < self.nodes.len()
            invariant
                i <= self.nodes@.len(),
                nodes@.len() == i,
                forall|k: int|
                    #![trigger nodes@[k]]
                    0 <= k < i ==> nodes@[k].op == self.nodes@[k].op && nodes@[k].srcs@ == self.nodes@[k].srcs@,
            decreases self.nodes@.len() - i,
        {
            nodes.push(Node { op: self.nodes[i].op.copy(), srcs: copy_sources(&self.nodes[i].srcs) });
            i = i + 1;
        }
        proof {
            if self.wf() {
                lemma_same_nodes(nodes@, self.nodes@, self.nodes@.len() - 1);
                lemma_same_nodes_wf(nodes@, self.nodes@);
            }
        }
        Graph { nodes }
    }

    /// The graph whose root is `op`, applied to this one's root.
    pub fn wrap(self, op: Op) -> (wrapped: Graph)
        requires
            self.wf(),
            !op.is_leaf(),
            !(op is Buffer),
            self.nodes@.len() < usize::MAX,
        ensures
            wrapped.wf(),
            wrapped.root() == (Term { op, srcs: seq![self.root()] }),
            wrapped.nodes@.len() == self.nodes@.len() + 1,
            wrapped.nodes@.subrange(0, self.nodes@.len() as int) == self.nodes@,
            wrapped.nodes@.last().op == op,
    {
        let ghost before = self.nodes@;
        let mut nodes = self.nodes;
        let root: usize = nodes.len() - 1;
        let mut srcs: Vec<usize> = Vec::new();
        srcs.push(root);
        nodes.push(Node { op, srcs });
        proof {
            let last = before.len() as int;
            assert(ordered(nodes@)) by {
                assert forall|o: int, p: int|
                    #![trigger nodes@[o].srcs@[p]]
                    0 <= o < nodes@.len() && 0 <= p < nodes@[o].srcs@.len() implies nodes@[o].srcs@[p] < o by {
                    if o < last {
                        assert(before[o].srcs@[p] < o);
                    }
                }
            }
            assert forall|o: int| 0 <= o < nodes@.len() - 1 implies #[trigger] is_source(nodes@, o) by {
                if o < last - 1 {
                    assert(is_source(before, o));
                    let (k, j) = choose|k: int, j: int| has_source(before, k, j, o);
                    assert(has_source(nodes@, k, j, o));
                } else {
                    assert(has_source(nodes@, last, 0, o));
                }
            }
            assert(leaves_bare(nodes@));
            assert(buffers_agree(nodes@)) by {
                assert forall|a: int, b: int|
                    #![trigger nodes@[a], nodes@[b]]
                    0 <= a < nodes@.len() && 0 <= b < nodes@.len() implies (nodes@[a].op matches Op::Buffer { arg: x }
                    ==> nodes@[b].op matches Op::Buffer { arg: y } ==> x.id == y.id ==> x == y) by {
                    if nodes@[a].op is Buffer && nodes@[b].op is Buffer {
                        assert(before[a] == nodes@[a] && before[b] == nodes@[b]);
                    }
                }
            }
            lemma_term_prefix(before, nodes@, last - 1);
            assert(term(nodes@, last).srcs =~= seq![term(before, last - 1)]);
            assert(nodes@.subrange(0, last) =~= before);
        }
        Graph { nodes }
    }

    /// The graph of a single buffer.
    pub fn buffer(arg: BufferArg) -> (graph: Graph)
        requires
            arg.size is Some,
        ensures
            graph.wf(),
            graph.root() == (Term { op: Op::Buffer { arg }, srcs: Seq::empty() }),
            graph.nodes@.len() == 1,
            graph.nodes@[0].op == (Op::Buffer { arg }),
    {
        let mut nodes: Vec<Node> = Vec::new();
        nodes.push(Node { op: Op::Buffer { arg }, srcs: Vec::new() });
        let graph = Graph { nodes };
        assert(graph.root().srcs =~= Seq::empty());
        graph
    }
}

/// A term made contiguous.
pub open spec fn contiguous_term(t: Term) -> Term {
    Term { op: Op::Contiguous, srcs: seq![t] }
}

/// Several terms, made contiguous, as the outputs of one graph.
pub open spec fn sink_term(terms: Seq<Term>) -> Term {
    Term {
        op: Op::Sink { explicit_opts: false },
        srcs: Seq::new(terms.len(), |i: int| contiguous_term(terms[i])),
    }
}

/// What each of a list of graphs computes.
pub open spec fn roots(graphs: Seq<Graph>) -> Seq<Term> {
    Seq::new(graphs.len(), |i: int| graphs[i].root())
}

/// Buffers with one id are one buffer, in all of the graphs.
pub open spec fn graphs_agree(graphs: Seq<Graph>) -> bool {
    forall|g: int, h: int, i: int, j: int|
        #![trigger graphs[g].nodes@[i], graphs[h].nodes@[j]]
        0 <= g < graphs.len() && 0 <= h < graphs.len() && 0 <= i < graphs[g].nodes@.len() && 0 <= j
            < graphs[h].nodes@.len() ==> (graphs[g].nodes@[i].op matches Op::Buffer { arg: a }
            ==> graphs[h].nodes@[j].op matches Op::Buffer { arg: b } ==> a.id == b.id ==> a == b)
}

/// The number of nodes that outputs of the first `k` graphs take.
pub open spec fn sink_size(graphs: Seq<Graph>, k: nat) -> nat
    decreases k,
{
    if k == 0 {
        0
    } else {
        sink_size(graphs, (k - 1) as nat) + graphs[k - 1].nodes@.len() + 1
    }
}

/// The node at `o` is an operation of one of the graphs.
spec fn from_graphs(graphs: Seq<Graph>, op: Op) -> bool {
    exists|g: int, i: int|
        #![trigger graphs[g].nodes@[i]]
        0 <= g < graphs.len() && 0 <= i < graphs[g].nodes@.len() && graphs[g].nodes@[i].op == op
}

/// What holds of a list of nodes that outputs are gathered in.
spec fn gathering(nodes: Seq<Node>, outputs: Seq<usize>, graphs: Seq<Graph>) -> bool {
    &&& ordered(nodes)
    &&& leaves_bare(nodes)
    &&& forall|o: int| 0 <= o < nodes.len() ==> #[trigger] is_source(nodes, o) || outputs.contains(o as usize)
    &&& forall|o: int|
        #![trigger nodes[o]]
        0 <= o < nodes.len() && nodes[o].op is Buffer ==> from_graphs(graphs, nodes[o].op)
    &&& forall|k: int| #![trigger outputs[k]] 0 <= k < outputs.len() ==> outputs[k] < nodes.len()
}

/// Appends a graph to a list of nodes; its root comes last.
fn append_graph(nodes: &mut Vec<Node>, graph: &Graph)
    requires
        ordered(old(nodes)@),
        graph.wf(),
        old(nodes)@.len() + graph.nodes@.len() <= usize::MAX,
    ensures
        final(nodes)@.len() == old(nodes)@.len() + graph.nodes@.len(),
        ordered(final(nodes)@),
        forall|o: int| #![trigger final(nodes)@[o]] 0 <= o < old(nodes)@.len() ==> final(nodes)@[o] == old(nodes)@[o],
        forall|i: int|
            #![trigger graph.nodes@[i]]
            0 <= i < graph.nodes@.len() ==> {
                let node = final(nodes)@[old(nodes)@.len() + i];
                &&& node.op == graph.nodes@[i].op
                &&& node.srcs@.len() == graph.nodes@[i].srcs@.len()
                &&& forall|j: int|
                    #![trigger node.srcs@[j]]
                    0 <= j < node.srcs@.len() ==> node.srcs@[j] == old(nodes)@.len() + graph.nodes@[i].srcs@[j]
                &&& term(final(nodes)@, old(nodes)@.len() + i) == term(graph.nodes@, i)
            },
{
    let base = nodes.len();
    let ghost before = nodes@;
    let mut i: usize = 0;
    while i < graph.nodes.len()
        invariant
            graph.wf(),
            base == before.len(),
            base + graph.nodes@.len() <= usize::MAX,
            i <= graph.nodes@.len(),
            nodes@.len() == base + i,
            ordered(nodes@),
            forall|o: int| #![trigger nodes@[o]] 0 <= o < base ==> nodes@[o] == before[o],
            forall|k: int|
                #![trigger graph.nodes@[k]]
                0 <= k < i ==> {
                    let node = nodes@[base + k];
                    &&& node.op == graph.nodes@[k].op
                    &&& node.srcs@.len() == graph.nodes@[k].srcs@.len()
                    &&& forall|j: int|
                        #![trigger node.srcs@[j]]
                        0 <= j < node.srcs@.len() ==> node.srcs@[j] == base + graph.nodes@[k].srcs@[j]
                    &&& term(nodes@, base + k) == term(graph.nodes@, k)
                },
        decreases graph.nodes@.len() - i,
    {
        let mut srcs: Vec<usize> = Vec::new();
        let mut j: usize = 0;
        while j < graph.nodes[i].srcs.len()
            invariant
                graph.wf(),
                i < graph.nodes@.len(),
                base + graph.nodes@.len() <= usize::MAX,
                j <= graph.nodes@[i as int].srcs@.len(),
                srcs@.len() == j,
                forall|p: int|
                    #![trigger srcs@[p]]
                    0 <= p < j ==> graph.nodes@[i as int].srcs@[p] < i && srcs@[p] == base + graph.nodes@[i as int].srcs@[p],
            decreases graph.nodes@[i as int].srcs@.len() - j,
        {
            assert(graph.nodes@[i as int].srcs@[j as int] < i);
            srcs.push(base + graph.nodes[i].srcs[j]);
            j = j + 1;
        }
        let ghost prior = nodes@;
        nodes.push(Node { op: graph.nodes[i].op.copy(), srcs });
        proof {
            assert(ordered(nodes@)) by {
                assert forall|o: int, p: int|
                    #![trigger nodes@[o].srcs@[p]]
                    0 <= o < nodes@.len() && 0 <= p < nodes@[o].srcs@.len() implies nodes@[o].srcs@[p] < o by {
                    if o < prior.len() {
                        assert(prior[o].srcs@[p] < o);
                    } else {
                        assert(srcs@[p] < base + i);
                    }
                }
            }
            assert forall|k: int| #![trigger graph.nodes@[k]] 0 <= k < i + 1 implies {
                let node = nodes@[base + k];
                &&& node.op == graph.nodes@[k].op
                &&& node.srcs@.len() == graph.nodes@[k].srcs@.len()
                &&& forall|j: int|
                    #![trigger node.srcs@[j]]
                    0 <= j < node.srcs@.len() ==> node.srcs@[j] == base + graph.nodes@[k].srcs@[j]
                &&& term(nodes@, base + k) == term(graph.nodes@, k)
            } by {
                if k < i {
                    assert(nodes@[base + k] == prior[base + k]);
                    lemma_term_prefix(prior, nodes@, base + k);
                } else {
                    let at = base + i;
                    assert forall|p: int| 0 <= p < srcs@.len() implies #[trigger] term(nodes@, at).srcs[p] == term(
                        graph.nodes@,
                        k,
                    ).srcs[p] by {
                        assert(srcs@[p] == base + graph.nodes@[k].srcs@[p]);
                        let s = graph.nodes@[k].srcs@[p] as int;
                        let _ = graph.nodes@[s];
                        lemma_term_prefix(prior, nodes@, base + s);
                    }
                    assert(term(nodes@, at).srcs =~= term(graph.nodes@, k).srcs);
                }
            }
        }
        i = i + 1;
    }
}

proof fn lemma_sink_size_grows(graphs: Seq<Graph>, k: nat, n: nat)
    requires
        k <= n,
    ensures
        sink_size(graphs, k) <= sink_size(graphs, n),
    decreases n - k,
{
    if k < n {
        lemma_sink_size_grows(graphs, k, (n - 1) as nat);
    }
}

/// The graph of several outputs: a sink over all of them, each made contiguous.
pub fn sink_of(graphs: &Vec<Graph>) -> (sink: Graph)
    requires
        graphs@.len() > 0,
        forall|g: int| #![trigger graphs@[g]] 0 <= g < graphs@.len() ==> graphs@[g].wf(),
        graphs_agree(graphs@),
        sink_size(graphs@, graphs@.len()) < usize::MAX,
    ensures
        sink.wf(),
        sink.root() == sink_term(roots(graphs@)),
{
    let mut nodes: Vec<Node> = Vec::new();
    let mut outputs: Vec<usize> = Vec::new();
    let mut g: usize = 0;
    while g < graphs.len()
        invariant
            g <= graphs@.len(),
            forall|h: int| #![trigger graphs@[h]] 0 <= h < graphs@.len() ==> graphs@[h].wf(),
            sink_size(graphs@, graphs@.len()) < usize::MAX,
            nodes@.len() == sink_size(graphs@, g as nat),
            outputs@.len() == g,
            gathering(nodes@, outputs@, graphs@),
            forall|k: int|
                #![trigger outputs@[k]]
                0 <= k < g ==> term(nodes@, outputs@[k] as int) == contiguous_term(graphs@[k].root()),
            g > 0 ==> nodes@.len() > 0,
        decreases graphs@.len() - g,
    {
        proof {
            lemma_sink_size_grows(graphs@, (g + 1) as nat, graphs@.len());
        }
        let ghost before = nodes@;
        let ghost graph = graphs@[g as int];
        let ghost base = before.len() as int;
        append_graph(&mut nodes, &graphs[g]);
        let root: usize = nodes.len() - 1;
        let ghost middle = nodes@;
        let mut srcs: Vec<usize> = Vec::new();
        srcs.push(root);
        nodes.push(Node { op: Op::Contiguous, srcs });
        let ghost old_outputs = outputs@;
        let at: usize = nodes.len() - 1;
        outputs.push(at);
        proof {
            assert(ordered(nodes@)) by {
                assert forall|o: int, p: int|
                    #![trigger nodes@[o].srcs@[p]]
                    0 <= o < nodes@.len() && 0 <= p < nodes@[o].srcs@.len() implies nodes@[o].srcs@[p] < o by {
                    if o < middle.len() {
                        assert(middle[o].srcs@[p] < o);
                    }
                }
            }
            assert(leaves_bare(nodes@)) by {
                assert forall|o: int| #![trigger nodes@[o]] 0 <= o < nodes@.len() && nodes@[o].op.is_leaf() implies nodes@[o].srcs@.len()
                    == 0 by {
                    if o < base {
                        assert(middle[o] == before[o]);
                    } else if o < middle.len() {
                        let _ = graph.nodes@[o - base];
                    }
                }
            }
            assert forall|o: int| 0 <= o < nodes@.len() implies #[trigger] is_source(nodes@, o) || outputs@.contains(
                o as usize,
            ) by {
                if o < base {
                    assert(is_source(before, o) || old_outputs.contains(o as usize));
                    if is_source(before, o) {
                        let (k, j) = choose|k: int, j: int| has_source(before, k, j, o);
                        assert(middle[k] == before[k]);
                        assert(has_source(nodes@, k, j, o));
                    } else {
                        let x = choose|x: int| 0 <= x < old_outputs.len() && old_outputs[x] == o as usize;
                        assert(outputs@[x] == o as usize);
                    }
                } else if o < root {
                    let inside = o - base;
                    assert(is_source(graph.nodes@, inside));
                    let (k, j) = choose|k: int, j: int| has_source(graph.nodes@, k, j, inside);
                    let _ = graph.nodes@[k];
                    assert(middle[base + k].srcs@[j] == base + graph.nodes@[k].srcs@[j]);
                    assert(has_source(nodes@, base + k, j, o));
                } else if o == root {
                    assert(has_source(nodes@, at as int, 0, o));
                } else {
                    assert(outputs@[g as int] == o as usize);
                }
            }
            assert forall|o: int| #![trigger nodes@[o]] 0 <= o < nodes@.len() && nodes@[o].op is Buffer implies from_graphs(
                graphs@,
                nodes@[o].op,
            ) by {
                if o < base {
                    assert(middle[o] == before[o]);
                } else {
                    assert(graphs@[g as int].nodes@[o - base].op == nodes@[o].op);
                }
            }
            assert forall|k: int| #![trigger outputs@[k]] 0 <= k < g + 1 implies term(nodes@, outputs@[k] as int)
                == contiguous_term(graphs@[k].root()) by {
                if k < g {
                    assert(outputs@[k] == old_outputs[k]);
                    assert(forall|o: int| 0 <= o < base ==> #[trigger] nodes@[o] == before[o]) by {
                        assert forall|o: int| 0 <= o < base implies #[trigger] nodes@[o] == before[o] by {
                            assert(middle[o] == before[o]);
                        }
                    }
                    lemma_term_prefix(before, nodes@, old_outputs[k] as int);
                } else {
                    let _ = graph.nodes@[graph.nodes@.len() - 1];
                    assert(term(middle, root as int) == graph.root());
                    lemma_term_prefix(middle, nodes@, root as int);
                    assert(term(nodes@, at as int).srcs =~= seq![graph.root()]);
                }
            }
        }
        g = g + 1;
    }
    let ghost inner = nodes@;
    let ghost tops = outputs@;
    nodes.push(Node { op: Op::Sink { explicit_opts: false }, srcs: outputs });
    proof {
        let last = inner.len() as int;
        assert(ordered(nodes@)) by {
            assert forall|o: int, p: int|
                #![trigger nodes@[o].srcs@[p]]
                0 <= o < nodes@.len() && 0 <= p < nodes@[o].srcs@.len() implies nodes@[o].srcs@[p] < o by {
                if o < last {
                    assert(inner[o].srcs@[p] < o);
                } else {
                    assert(tops[p] < last);
                }
            }
        }
        assert forall|o: int| 0 <= o < nodes@.len() - 1 implies #[trigger] is_source(nodes@, o) by {
            assert(is_source(inner, o) || tops.contains(o as usize));
            if is_source(inner, o) {
                let (k, j) = choose|k: int, j: int| has_source(inner, k, j, o);
                assert(has_source(nodes@, k, j, o));
            } else {
                let x = choose|x: int| 0 <= x < tops.len() && tops[x] == o as usize;
                assert(has_source(nodes@, last, x, o));
            }
        }
        assert(leaves_bare(nodes@));
        assert(buffers_agree(nodes@)) by {
            assert forall|a: int, b: int|
                #![trigger nodes@[a], nodes@[b]]
                0 <= a < nodes@.len() && 0 <= b < nodes@.len() implies (nodes@[a].op matches Op::Buffer { arg: x }
                ==> nodes@[b].op matches Op::Buffer { arg: y } ==> x.id == y.id ==> x == y) by {
                if nodes@[a].op is Buffer && nodes@[b].op is Buffer {
                    assert(inner[a] == nodes@[a] && inner[b] == nodes@[b]);
                    let (g, i) = choose|g: int, i: int|
                        #![trigger graphs@[g].nodes@[i]]
                        0 <= g < graphs@.len() && 0 <= i < graphs@[g].nodes@.len() && graphs@[g].nodes@[i].op
                            == inner[a].op;
                    let (h, j) = choose|h: int, j: int|
                        #![trigger graphs@[h].nodes@[j]]
                        0 <= h < graphs@.len() && 0 <= j < graphs@[h].nodes@.len() && graphs@[h].nodes@[j].op
                            == inner[b].op;
                    assert(graphs@[g].nodes@[i].op == inner[a].op);
                    assert(graphs@[h].nodes@[j].op == inner[b].op);
                }
            }
        }
        assert forall|k: int| 0 <= k < tops.len() implies #[trigger] term(nodes@, last).srcs[k] == sink_term(
            roots(graphs@),
        ).srcs[k] by {
            assert(tops[k] < last);
            lemma_term_prefix(inner, nodes@, tops[k] as int);
        }
        assert(term(nodes@, last).srcs =~= sink_term(roots(graphs@)).srcs);
    }
    Graph { nodes }
}

} // verus!
