//! Cached schedules: what is stored of one, and how a run makes it its own.

use std::collections::HashMap;

use vstd::prelude::*;
use vstd::string::*;

use crate::device::DeviceSpec;
use crate::error::Error;
use crate::graph::{
    feeds, first_rebind, gathered, has_source, needed_nodes, none_marked, ordered, rebinds, same_nodes, BufferArg, Graph,
    Node, Op,
};
use crate::schedule::{copy_u64s, copy_usizes};
use crate::schedule_cache::{
    allocated, dropped_at, normalization_mismatch, normalize_for_schedule_cache, restore_post_schedule_cache,
    restores, ScheduleCacheNormalization,
};
use crate::shared_map::{entry, key_view, CacheKey, CacheKeyView, SharedMap};
use crate::vars::{bind_mismatch, first_conflict, lemma_entries_map, merge_var_vals_checked, VarVals};

verus! {

/// One callable of a schedule, before it is expanded: its sources are nodes of
/// the schedule's graph.
#[derive(Debug, PartialEq, Eq)]
pub struct PreScheduleItem {
    pub kernel: u64,
    pub ast: u64,
    pub sources: Vec<usize>,
    pub dependencies: Vec<u64>,
    pub bound_ranges: Vec<u64>,
}

/// A schedule, before it is expanded for a run.
#[derive(Debug, PartialEq, Eq)]
pub struct PreSchedule {
    /// The graph of all sources and outputs.
    pub graph: Graph,
    pub items: Vec<PreScheduleItem>,
    pub invocations: Vec<u64>,
    pub output_buffers: Vec<usize>,
}

impl PreSchedule {
    /// Sources are nodes of the graph.
    pub open spec fn wf(&self) -> bool {
        &&& self.graph.wf()
        &&& forall|i: int, j: int|
            #![trigger self.items@[i].sources@[j]]
            0 <= i < self.items@.len() && 0 <= j < self.items@[i].sources@.len() ==> self.items@[i].sources@[j]
                < self.graph.nodes@.len()
        &&& forall|j: int|
            #![trigger self.output_buffers@[j]]
            0 <= j < self.output_buffers@.len() ==> self.output_buffers@[j] < self.graph.nodes@.len()
    }

    /// Neither items nor outputs refer to the graph.
    pub open spec fn refers_to_nothing(&self) -> bool {
        &&& forall|i: int| #![trigger self.items@[i]] 0 <= i < self.items@.len() ==> self.items@[i].sources@.len() == 0
        &&& self.output_buffers@.len() == 0
    }
}

/// Two items are the same callable on the same nodes.
pub open spec fn same_item(a: PreScheduleItem, b: PreScheduleItem) -> bool {
    &&& a.kernel == b.kernel
    &&& a.ast == b.ast
    &&& a.sources@ == b.sources@
    &&& a.dependencies@ == b.dependencies@
    &&& a.bound_ranges@ == b.bound_ranges@
}

/// Two schedules differ at most in their graphs.
pub open spec fn same_but_graph(a: &PreSchedule, b: &PreSchedule) -> bool {
    &&& a.items@.len() == b.items@.len()
    &&& forall|i: int| #![trigger a.items@[i]] 0 <= i < a.items@.len() ==> same_item(a.items@[i], b.items@[i])
    &&& a.invocations@ == b.invocations@
    &&& a.output_buffers@ == b.output_buffers@
}

/// `restored` is a cached schedule with this run's buffers and identities, and
/// with fresh ids from `start` up to `next`.
pub open spec fn schedule_restores(
    pre_schedule: &PreSchedule,
    restored: &PreSchedule,
    params: Seq<BufferArg>,
    uniques: Seq<u64>,
    start: u64,
    next: u64,
) -> bool {
    &&& same_but_graph(restored, pre_schedule)
    &&& if pre_schedule.refers_to_nothing() {
        same_nodes(restored.graph.nodes@, pre_schedule.graph.nodes@) && next == start
    } else {
        restores(pre_schedule.graph.nodes@, restored.graph.nodes@, params, uniques, start) && next == allocated(
            pre_schedule.graph.nodes@,
            params,
            uniques,
            start,
            pre_schedule.graph.nodes@.len(),
        ).next
    }
}

/// Makes a cached schedule this run's: its graph is restored, and the items,
/// the invocations and the outputs are kept. A schedule that refers to nothing
/// is kept as it is.
pub fn restore_post_schedule_pre_schedule(
    pre_schedule: &PreSchedule,
    normalization: &ScheduleCacheNormalization,
    next_id: &mut u64,
) -> (restored: PreSchedule)
    requires
        pre_schedule.wf(),
        *old(next_id) + pre_schedule.graph.nodes@.len() <= u64::MAX,
    ensures
        schedule_restores(
            pre_schedule,
            &restored,
            normalization.param_values@,
            normalization.unique_values@,
            *old(next_id),
            *final(next_id),
        ),
{
    let mut items: Vec<PreScheduleItem> = Vec::new();
    let mut refers = pre_schedule.output_buffers.len() > 0;
    let mut i: usize = 0;
    while i < pre_schedule.items.len()
        invariant
            i <= pre_schedule.items@.len(),
            items@.len() == i,
            forall|k: int| #![trigger items@[k]] 0 <= k < i ==> same_item(items@[k], pre_schedule.items@[k]),
            !refers ==> pre_schedule.output_buffers@.len() == 0 && forall|k: int|
                #![trigger pre_schedule.items@[k]]
                0 <= k < i ==> pre_schedule.items@[k].sources@.len() == 0,
            refers ==> pre_schedule.output_buffers@.len() > 0 || exists|k: int|
                #![trigger pre_schedule.items@[k]]
                0 <= k < i && pre_schedule.items@[k].sources@.len() > 0,
        decreases pre_schedule.items@.len() - i,
    {
        let item = &pre_schedule.items[i];
        if item.sources.len() > 0 {
            refers = true;
            assert(pre_schedule.items@[i as int].sources@.len() > 0);
        }
        items.push(
            PreScheduleItem {
                kernel: item.kernel,
                ast: item.ast,
                sources: copy_usizes(&item.sources),
                dependencies: copy_u64s(&item.dependencies),
                bound_ranges: copy_u64s(&item.bound_ranges),
            },
        );
        i = i + 1;
    }
    let graph = if refers {
        restore_post_schedule_cache(&pre_schedule.graph, normalization, next_id)
    } else {
        pre_schedule.graph.copy()
    };
    PreSchedule {
        graph,
        items,
        invocations: copy_u64s(&pre_schedule.invocations),
        output_buffers: copy_usizes(&pre_schedule.output_buffers),
    }
}

// ---------------------------------------------------------------------------
// Input buffers
// ---------------------------------------------------------------------------

/// Node `k` is computed from node `i`, or is node `i`.
pub open spec fn reaches(nodes: Seq<Node>, k: int, i: int) -> bool
    decreases k,
{
    k == i || exists|j: int|
        #![trigger nodes[k].srcs@[j]]
        0 <= j < nodes[k].srcs@.len() && 0 <= nodes[k].srcs@[j] < k && reaches(nodes, nodes[k].srcs@[j] as int, i)
}

/// An item has node `i` as a source.
pub open spec fn is_item_source(pre_schedule: &PreSchedule, i: int) -> bool {
    exists|x: int, y: int|
        #![trigger pre_schedule.items@[x].sources@[y]]
        0 <= x < pre_schedule.items@.len() && 0 <= y < pre_schedule.items@[x].sources@.len()
            && pre_schedule.items@[x].sources@[y] == i
}

/// A source of an item is computed from node `i`.
pub open spec fn is_input(pre_schedule: &PreSchedule, i: int) -> bool {
    exists|s: int|
        #![trigger reaches(pre_schedule.graph.nodes@, s, i)]
        0 <= s < pre_schedule.graph.nodes@.len() && is_item_source(pre_schedule, s) && reaches(
            pre_schedule.graph.nodes@,
            s,
            i,
        )
}

/// One of the first `k` nodes is buffer `id`, and an item is computed from it.
pub open spec fn is_input_buffer(pre_schedule: &PreSchedule, k: int, id: u64) -> bool {
    exists|i: int|
        #![trigger pre_schedule.graph.nodes@[i]]
        0 <= i < k && is_input(pre_schedule, i) && (pre_schedule.graph.nodes@[i].op matches Op::Buffer { arg } && arg.id
            == id)
}

pub(crate) proof fn lemma_reaches_source(nodes: Seq<Node>, s: int, k: int, j: int, i: int)
    requires
        ordered(nodes),
        0 <= s < nodes.len(),
        reaches(nodes, s, k),
        has_source(nodes, k, j, i),
    ensures
        reaches(nodes, s, i),
    decreases s,
{
    if s == k {
        assert(nodes[k].srcs@[j] < k);
        assert(reaches(nodes, nodes[k].srcs@[j] as int, i));
    } else {
        let p = choose|p: int|
            #![trigger nodes[s].srcs@[p]]
            0 <= p < nodes[s].srcs@.len() && 0 <= nodes[s].srcs@[p] < s && reaches(
                nodes,
                nodes[s].srcs@[p] as int,
                k,
            );
        lemma_reaches_source(nodes, nodes[s].srcs@[p] as int, k, j, i);
    }
}

proof fn lemma_marked_reached(nodes: Seq<Node>, keep: Seq<bool>, s: int, i: int)
    requires
        ordered(nodes),
        keep.len() == nodes.len(),
        0 <= s < nodes.len(),
        keep[s],
        reaches(nodes, s, i),
        forall|k: int, j: int, i: int| #[trigger] has_source(nodes, k, j, i) && keep[k] ==> keep[i],
    ensures
        0 <= i < nodes.len() && keep[i],
    decreases s,
{
    if s != i {
        let p = choose|p: int|
            #![trigger nodes[s].srcs@[p]]
            0 <= p < nodes[s].srcs@.len() && 0 <= nodes[s].srcs@[p] < s && reaches(
                nodes,
                nodes[s].srcs@[p] as int,
                i,
            );
        assert(has_source(nodes, s, p, nodes[s].srcs@[p] as int));
        lemma_marked_reached(nodes, keep, nodes[s].srcs@[p] as int, i);
    }
}

proof fn lemma_marked_is_input(pre_schedule: &PreSchedule, seeds: Seq<bool>, keep: Seq<bool>, i: int)
    requires
        pre_schedule.wf(),
        keep.len() == pre_schedule.graph.nodes@.len(),
        seeds.len() == keep.len(),
        forall|s: int| #![trigger seeds[s]] 0 <= s < seeds.len() && seeds[s] ==> is_item_source(pre_schedule, s),
        forall|k: int|
            #![trigger keep[k]]
            0 <= k < keep.len() && keep[k] ==> seeds[k] || feeds(pre_schedule.graph.nodes@, keep, k),
        0 <= i < keep.len(),
        keep[i],
    ensures
        is_input(pre_schedule, i),
    decreases keep.len() - i,
{
    let nodes = pre_schedule.graph.nodes@;
    if seeds[i] {
        assert(reaches(nodes, i, i));
    } else {
        let (k, j) = choose|k: int, j: int| has_source(nodes, k, j, i) && keep[k];
        assert(nodes[k].srcs@[j] < k);
        lemma_marked_is_input(pre_schedule, seeds, keep, k);
        let s = choose|s: int|
            #![trigger reaches(nodes, s, k)]
            0 <= s < nodes.len() && is_item_source(pre_schedule, s) && reaches(nodes, s, k);
        lemma_reaches_source(nodes, s, k, j, i);
    }
}

/// The registered buffers that a schedule's items are computed from, by the id
/// of their nodes.
pub fn build_schedule_input_buffers(
    pre_schedule: &PreSchedule,
    registered: &HashMap<u64, u64>,
) -> (inputs: HashMap<u64, u64>)
    requires
        pre_schedule.wf(),
    ensures
        forall|id: u64| #[trigger]
            inputs@.dom().contains(id) <==> registered@.dom().contains(id) && is_input_buffer(
                pre_schedule,
                pre_schedule.graph.nodes@.len() as int,
                id,
            ),
        forall|id: u64| #[trigger] inputs@.dom().contains(id) ==> inputs@[id] == registered@[id],
{
    let nodes = &pre_schedule.graph.nodes;
    let n = nodes.len();
    let mut seeds = none_marked(n);
    let mut x: usize = 0;
    while x < pre_schedule.items.len()
        invariant
            pre_schedule.wf(),
            n == pre_schedule.graph.nodes@.len(),
            x <= pre_schedule.items@.len(),
            seeds@.len() == n,
            forall|s: int| #![trigger seeds@[s]] 0 <= s < n && seeds@[s] ==> is_item_source(pre_schedule, s),
            forall|a: int, b: int|
                #![trigger pre_schedule.items@[a].sources@[b]]
                0 <= a < x && 0 <= b < pre_schedule.items@[a].sources@.len()
                    ==> seeds@[pre_schedule.items@[a].sources@[b] as int],
        decreases pre_schedule.items@.len() - x,
    {
        let mut y: usize = 0;
        while y < pre_schedule.items[x].sources.len()
            invariant
                pre_schedule.wf(),
                n == pre_schedule.graph.nodes@.len(),
                x < pre_schedule.items@.len(),
                y <= pre_schedule.items@[x as int].sources@.len(),
                seeds@.len() == n,
                forall|s: int| #![trigger seeds@[s]] 0 <= s < n && seeds@[s] ==> is_item_source(pre_schedule, s),
                forall|a: int, b: int|
                    #![trigger pre_schedule.items@[a].sources@[b]]
                    0 <= a < x && 0 <= b < pre_schedule.items@[a].sources@.len()
                        ==> seeds@[pre_schedule.items@[a].sources@[b] as int],
                forall|b: int|
                    #![trigger pre_schedule.items@[x as int].sources@[b]]
                    0 <= b < y ==> seeds@[pre_schedule.items@[x as int].sources@[b] as int],
            decreases pre_schedule.items@[x as int].sources@.len() - y,
        {
            let source = pre_schedule.items[x].sources[y];
            assert(pre_schedule.items@[x as int].sources@[y as int] == source);
            seeds.set(source, true);
            y = y + 1;
        }
        x = x + 1;
    }
    let ghost first = seeds@;
    let keep = needed_nodes(nodes, seeds);
    let mut inputs: HashMap<u64, u64> = HashMap::new();
    proof {
        assert forall|i: int| 0 <= i < n implies (#[trigger] keep@[i] <==> is_input(pre_schedule, i)) by {
            if keep@[i] {
                lemma_marked_is_input(pre_schedule, first, keep@, i);
            }
            if is_input(pre_schedule, i) {
                let s = choose|s: int|
                    #![trigger reaches(pre_schedule.graph.nodes@, s, i)]
                    0 <= s < pre_schedule.graph.nodes@.len() && is_item_source(pre_schedule, s) && reaches(
                        pre_schedule.graph.nodes@,
                        s,
                        i,
                    );
                assert(first[s]);
                assert(keep@[s]);
                lemma_marked_reached(pre_schedule.graph.nodes@, keep@, s, i);
            }
        }
    }
    let mut i: usize = 0;
    while i < n
        invariant
            i <= n,
            n == nodes@.len(),
            nodes@ == pre_schedule.graph.nodes@,
            keep@.len() == n,
            forall|k: int| 0 <= k < n ==> (#[trigger] keep@[k] <==> is_input(pre_schedule, k)),
            forall|id: u64| #[trigger]
                inputs@.dom().contains(id) <==> registered@.dom().contains(id) && is_input_buffer(
                    pre_schedule,
                    i as int,
                    id,
                ),
            forall|id: u64| #[trigger] inputs@.dom().contains(id) ==> inputs@[id] == registered@[id],
        decreases n - i,
    {
        let ghost before = inputs@;
        if keep[i] {
            if let Op::Buffer { arg } = &nodes[i].op {
                if let Some(buffer) = registered.get(&arg.id) {
                    inputs.insert(arg.id, *buffer);
                }
            }
        }
        proof {
            assert forall|id: u64| #[trigger] inputs@.dom().contains(id) <==> registered@.dom().contains(id)
                && is_input_buffer(pre_schedule, i + 1, id) by {
                let here = keep@[i as int] && (nodes@[i as int].op matches Op::Buffer { arg } && arg.id == id);
                if is_input_buffer(pre_schedule, i as int, id) {
                    let k = choose|k: int|
                        #![trigger pre_schedule.graph.nodes@[k]]
                        0 <= k < i && is_input(pre_schedule, k) && (pre_schedule.graph.nodes@[k].op matches Op::Buffer {
                            arg,
                        } && arg.id == id);
                    assert(pre_schedule.graph.nodes@[k].op matches Op::Buffer { arg } && arg.id == id);
                    assert(is_input_buffer(pre_schedule, i + 1, id));
                }
                if here {
                    assert(pre_schedule.graph.nodes@[i as int].op matches Op::Buffer { arg } && arg.id == id);
                    assert(is_input_buffer(pre_schedule, i + 1, id));
                }
                if is_input_buffer(pre_schedule, i + 1, id) && !here {
                    let k = choose|k: int|
                        #![trigger pre_schedule.graph.nodes@[k]]
                        0 <= k < i + 1 && is_input(pre_schedule, k) && (pre_schedule.graph.nodes@[k].op
                            matches Op::Buffer { arg } && arg.id == id);
                    assert(k < i);
                    assert(pre_schedule.graph.nodes@[k].op matches Op::Buffer { arg } && arg.id == id);
                    assert(is_input_buffer(pre_schedule, i as int, id));
                }
                assert(inputs@.dom().contains(id) <==> before.dom().contains(id) || (here && registered@.dom().contains(
                    id,
                )));
            }
        }
        i = i + 1;
    }
    inputs
}

// ---------------------------------------------------------------------------
// Requests
// ---------------------------------------------------------------------------

/// What is needed to schedule a graph: its cached form, and the values of its
/// variables.
#[derive(Debug, PartialEq, Eq)]
pub struct ScheduleRequest {
    pub normalization: ScheduleCacheNormalization,
    pub var_vals: VarVals,
}

/// What a conflict between a run's variables and a graph's is reported under.
pub open spec fn request_context(cached: bool) -> Seq<char> {
    if cached {
        "schedule cache normalization"@
    } else {
        "uncached schedule normalization"@
    }
}

/// `error` tells of the first node that binds a variable to another value than
/// an earlier node did.
pub open spec fn normalization_fault(nodes: Seq<Node>, error: Error) -> bool {
    exists|i: int|
        #![trigger rebinds(dropped_at(nodes), i)]
        0 <= i < nodes.len() && first_rebind(dropped_at(nodes), i) && (dropped_at(nodes)(i) matches Some((name, value))
            && error matches Error::IrConstruction { details } && details@ == normalization_mismatch(
            name,
            gathered(dropped_at(nodes), i as nat)[name],
            value,
        ))
}

/// The graph binds `name` to another value than the caller.
pub open spec fn clashes(nodes: Seq<Node>, var_vals: Map<Seq<char>, i64>, name: Seq<char>) -> bool {
    let bound = gathered(dropped_at(nodes), nodes.len());
    var_vals.dom().contains(name) && bound.dom().contains(name) && var_vals[name] != bound[name]
}

/// The graph binds no variable twice, and `error` tells of one that it binds to
/// another value than the caller.
pub open spec fn merge_fault(
    nodes: Seq<Node>,
    var_vals: Map<Seq<char>, i64>,
    context: Seq<char>,
    error: Error,
) -> bool {
    &&& forall|i: int| 0 <= i < nodes.len() ==> !#[trigger] rebinds(dropped_at(nodes), i)
    &&& exists|name: Seq<char>| #[trigger]
        clashes(nodes, var_vals, name) && (error matches Error::IrConstruction { details } && details@
            == bind_mismatch(name, var_vals[name], gathered(dropped_at(nodes), nodes.len())[name], context))
}

/// What a request to schedule a graph comes to.
pub open spec fn requests(
    sink: &Graph,
    var_vals: Map<Seq<char>, i64>,
    cached: bool,
    request: Result<ScheduleRequest, Error>,
) -> bool {
    match request {
        Ok(request) => {
            &&& request.normalization.normalizes(sink.nodes@)
            &&& var_vals.agrees(request.normalization.var_vals@)
            &&& request.var_vals.wf()
            &&& request.var_vals@ == var_vals.union_prefer_right(request.normalization.var_vals@)
        },
        Err(error) => normalization_fault(sink.nodes@, error) || merge_fault(
            sink.nodes@,
            var_vals,
            request_context(cached),
            error,
        ),
    }
}

/// Normalizes a graph to be scheduled, with the cache or without, and adds the
/// values that it binds to those the caller has. It fails where the graph binds
/// a variable to two values, and where the two disagree.
pub fn schedule_request(sink: &Graph, var_vals: VarVals, cached: bool) -> (request: Result<ScheduleRequest, Error>)
    requires
        sink.wf(),
        var_vals.wf(),
    ensures
        requests(sink, var_vals@, cached, request),
{
    let normalization = match normalize_for_schedule_cache(sink) {
        Ok(normalization) => normalization,
        Err(error) => return Err(error),
    };
    let mut merged = var_vals;
    let context = if cached { "schedule cache normalization" } else { "uncached schedule normalization" };
    match merge_var_vals_checked(&mut merged, &normalization.var_vals, context) {
        Ok(()) => Ok(ScheduleRequest { normalization, var_vals: merged }),
        Err(error) => {
            proof {
                let entries = normalization.var_vals.entries@;
                lemma_entries_map(entries, entries.len());
                let k = choose|k: int|
                    #![trigger entries[k]]
                    first_conflict(var_vals@, entries, k) && (error matches Error::IrConstruction { details } && details@
                        == bind_mismatch(entries[k].0@, var_vals@[entries[k].0@], entries[k].1, context@));
                let name = entries[k].0@;
                assert(normalization.var_vals@.contains_pair(name, entries[k].1));
                assert(clashes(sink.nodes@, var_vals@, name));
            }
            Err(error)
        }
    }
}

/// The first of the first `k` buffers that is registered on a device that
/// computes: that device.
pub open spec fn registered_device(
    buffers: Seq<(u64, BufferArg)>,
    registry: Map<u64, DeviceSpec>,
    k: nat,
) -> Option<DeviceSpec>
    decreases k,
{
    if k == 0 {
        None
    } else {
        match registered_device(buffers, registry, (k - 1) as nat) {
            Some(device) => Some(device),
            None => if registry.dom().contains(buffers[k - 1].0) && !(registry[buffers[k - 1].0] is Disk) {
                Some(registry[buffers[k - 1].0])
            } else {
                None
            },
        }
    }
}

/// The first of the first `k` buffers that asks for a device that computes:
/// that device.
pub open spec fn requested_device(buffers: Seq<(u64, BufferArg)>, k: nat) -> Option<DeviceSpec>
    decreases k,
{
    if k == 0 {
        None
    } else {
        match requested_device(buffers, (k - 1) as nat) {
            Some(device) => Some(device),
            None => match buffers[k - 1].1.device {
                Some(device) => if device is Disk {
                    None
                } else {
                    Some(device)
                },
                None => None,
            },
        }
    }
}

/// The device that a graph is scheduled for.
pub open spec fn codegen_device(
    buffers: Seq<(u64, BufferArg)>,
    registry: Map<u64, DeviceSpec>,
    default_device: DeviceSpec,
) -> DeviceSpec {
    match registered_device(buffers, registry, buffers.len()) {
        Some(device) => device,
        None => match requested_device(buffers, buffers.len()) {
            Some(device) => device,
            None => default_device,
        },
    }
}

proof fn lemma_registered_found(buffers: Seq<(u64, BufferArg)>, registry: Map<u64, DeviceSpec>, k: nat, n: nat)
    requires
        k <= n,
        registered_device(buffers, registry, k) is Some,
    ensures
        registered_device(buffers, registry, n) == registered_device(buffers, registry, k),
    decreases n - k,
{
    if k < n {
        lemma_registered_found(buffers, registry, k, (n - 1) as nat);
    }
}

proof fn lemma_requested_found(buffers: Seq<(u64, BufferArg)>, k: nat, n: nat)
    requires
        k <= n,
        requested_device(buffers, k) is Some,
    ensures
        requested_device(buffers, n) == requested_device(buffers, k),
    decreases n - k,
{
    if k < n {
        lemma_requested_found(buffers, k, (n - 1) as nat);
    }
}

/// The device that a graph with these buffers is scheduled for: the first that
/// computes among those its buffers are registered on, then among those they
/// ask for; else the default one.
pub fn resolve_codegen(
    param_buffers: &Vec<(u64, BufferArg)>,
    registry: &HashMap<u64, DeviceSpec>,
    default_device: &DeviceSpec,
) -> (device: DeviceSpec)
    ensures
        device == codegen_device(param_buffers@, registry@, *default_device),
{
    let mut i: usize = 0;
    while i < param_buffers.len()
        invariant
            i <= param_buffers@.len(),
            registered_device(param_buffers@, registry@, i as nat) is None,
        decreases param_buffers@.len() - i,
    {
        if let Some(spec) = registry.get(&param_buffers[i].0) {
            if !spec.is_disk() {
                let device = spec.copy();
                proof {
                    assert(registered_device(param_buffers@, registry@, (i + 1) as nat) == Some(device));
                    lemma_registered_found(param_buffers@, registry@, (i + 1) as nat, param_buffers@.len());
                }
                return device;
            }
        }
        i = i + 1;
    }
    let mut j: usize = 0;
    while j < param_buffers.len()
        invariant
            j <= param_buffers@.len(),
            requested_device(param_buffers@, j as nat) is None,
            registered_device(param_buffers@, registry@, param_buffers@.len()) is None,
        decreases param_buffers@.len() - j,
    {
        if let Some(spec) = &param_buffers[j].1.device {
            if !spec.is_disk() {
                let device = spec.copy();
                proof {
                    assert(requested_device(param_buffers@, (j + 1) as nat) == Some(device));
                    lemma_requested_found(param_buffers@, (j + 1) as nat, param_buffers@.len());
                }
                return device;
            }
        }
        j = j + 1;
    }
    default_device.copy()
}

/// The schedules that were made, by the hash of the normal form and the
/// compiler they were made for; each is held by its number.
pub struct ScheduleCache {
    map: SharedMap,
}

/// What a schedule depends on.
pub open spec fn schedule_key(content_hash: u64, codegen: Seq<char>) -> CacheKeyView {
    (content_hash, codegen, Seq::empty(), 0, 0)
}

fn to_key(content_hash: u64, codegen: &str) -> (key: CacheKey)
    ensures
        key_view(key) == schedule_key(content_hash, codegen@),
{
    (content_hash, codegen.to_owned(), String::new(), 0, 0)
}

impl View for ScheduleCache {
    type V = Map<CacheKeyView, u64>;

    closed spec fn view(&self) -> Map<CacheKeyView, u64> {
        self.map@
    }
}

impl ScheduleCache {
    /// No schedules.
    pub fn new() -> (cache: ScheduleCache)
        ensures
            cache@ == crate::shared_map::no_entries(),
    {
        ScheduleCache { map: SharedMap::new() }
    }

    /// The schedule of a normal form.
    pub fn get(&self, content_hash: u64, codegen: &str) -> (schedule: Option<u64>)
        ensures
            schedule == entry(self@, schedule_key(content_hash, codegen@)),
    {
        let key = to_key(content_hash, codegen);
        self.map.get(&key)
    }

    /// Keeps the schedule of a normal form.
    pub fn insert(&mut self, content_hash: u64, codegen: &str, schedule: u64)
        ensures
            final(self)@ == old(self)@.insert(schedule_key(content_hash, codegen@), schedule),
    {
        let _ = self.map.insert(to_key(content_hash, codegen), schedule);
    }
}

/// What to do for the schedule of a normal form.
#[derive(Debug, PartialEq, Eq)]
pub enum ScheduleStep {
    /// Make one.
    Create,
    /// Make this one the run's.
    Restore(u64),
    Fail(Error),
}

/// What to do for a schedule, given what is kept and what came of making one.
pub open spec fn schedule_step(
    entries: Map<CacheKeyView, u64>,
    cached: bool,
    key: CacheKeyView,
    created: Option<Result<u64, Error>>,
) -> ScheduleStep {
    match created {
        None => match entry(entries, key) {
            Some(schedule) => if cached {
                ScheduleStep::Restore(schedule)
            } else {
                ScheduleStep::Create
            },
            None => ScheduleStep::Create,
        },
        Some(Ok(schedule)) => ScheduleStep::Restore(schedule),
        Some(Err(error)) => ScheduleStep::Fail(error),
    }
}

/// What is kept after that: a schedule that was made, where schedules are
/// cached.
pub open spec fn kept_after(
    entries: Map<CacheKeyView, u64>,
    cached: bool,
    key: CacheKeyView,
    created: Option<Result<u64, Error>>,
) -> Map<CacheKeyView, u64> {
    match created {
        Some(Ok(schedule)) => if cached {
            entries.insert(key, schedule)
        } else {
            entries
        },
        _ => entries,
    }
}

/// Finds the schedule of a normal form: the one that is kept, where schedules
/// are cached, else one that is made, and then kept where they are. A failure to
/// make one is not kept.
pub fn schedule_result_from_sink_with_cache(
    cache: &mut ScheduleCache,
    cached: bool,
    content_hash: u64,
    codegen: &str,
    created: Option<Result<u64, Error>>,
) -> (step: ScheduleStep)
    ensures
        step == schedule_step(old(cache)@, cached, schedule_key(content_hash, codegen@), created),
        final(cache)@ == kept_after(old(cache)@, cached, schedule_key(content_hash, codegen@), created),
{
    match created {
        None => {
            if cached {
                if let Some(schedule) = cache.get(content_hash, codegen) {
                    return ScheduleStep::Restore(schedule);
                }
            }
            ScheduleStep::Create
        }
        Some(Ok(schedule)) => {
            if cached {
                cache.insert(content_hash, codegen, schedule);
            }
            ScheduleStep::Restore(schedule)
        }
        Some(Err(error)) => ScheduleStep::Fail(error),
    }
}

/// A schedule is made once for its normal form and its compiler: the next run
/// with both is given the same, and a run that turns the cache off neither
/// takes from it nor puts into it.
pub proof fn law_schedules_are_made_once(
    entries: Map<CacheKeyView, u64>,
    key: CacheKeyView,
    schedule: u64,
    created: Option<Result<u64, Error>>,
)
    ensures
        schedule_step(kept_after(entries, true, key, Some(Ok(schedule))), true, key, None) == ScheduleStep::Restore(
            schedule,
        ),
        schedule_step(entries, false, key, None) == ScheduleStep::Create,
        kept_after(entries, false, key, created) == entries,
{
}

/// A schedule that is kept is found under its own key, whatever is kept under
/// others.
pub proof fn law_kept_schedules_are_found(
    entries: Map<CacheKeyView, u64>,
    content_hash: u64,
    codegen: Seq<char>,
    schedule: u64,
    other_hash: u64,
    other_codegen: Seq<char>,
)
    ensures
        ({
            let after = entries.insert(schedule_key(content_hash, codegen), schedule);
            &&& entry(after, schedule_key(content_hash, codegen)) == Some(schedule)
            &&& (content_hash, codegen) != (other_hash, other_codegen) ==> entry(
                after,
                schedule_key(other_hash, other_codegen),
            ) == entry(entries, schedule_key(other_hash, other_codegen))
        }),
{
}

} // verus!
