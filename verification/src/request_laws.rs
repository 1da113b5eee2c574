//! What a request to schedule a graph comes to: its values, the device it is scheduled
//! for, and what a run reads and keeps of a cached schedule.

use vstd::prelude::*;

use crate::device::DeviceSpec;
use crate::error::Error;
use crate::form_laws::{
    binds_through, law_contradictions_have_no_form, law_placeholders_are_put_back, law_values_go_with_the_form,
};
use crate::graph::{has_source, rebinds, BufferArg, Graph, Op};
use crate::pre_schedule::{
    codegen_device, is_input, is_input_buffer, is_item_source, kept_after, reaches, registered_device, requested_device,
    requests, schedule_restores, schedule_step, PreSchedule, ScheduleRequest, ScheduleStep,
};
use crate::schedule_cache::dropped_at;
use crate::shared_map::CacheKeyView;

verus! {

/// A request that is accepted has the caller's values and those that the graph binds,
/// and no others.
pub proof fn law_requests_have_both_their_values(
    sink: &Graph,
    var_vals: Map<Seq<char>, i64>,
    cached: bool,
    request: ScheduleRequest,
    name: Seq<char>,
    value: i64,
)
    requires
        sink.wf(),
        requests(sink, var_vals, cached, Ok(request)),
    ensures
        request.var_vals@.contains_pair(name, value) <==> var_vals.contains_pair(name, value) || exists|k: int| #[trigger]
            binds_through(sink.nodes@, k, name, value),
{
    law_values_go_with_the_form(sink, request.normalization, name, value, 0);
    let own = request.normalization.var_vals@;
    if var_vals.dom().contains(name) && own.dom().contains(name) {
        assert(var_vals[name] == own[name]);
    }
}

/// The graph binds a variable to two values, or to another value than the caller.
pub open spec fn contradicts(sink: &Graph, var_vals: Map<Seq<char>, i64>) -> bool {
    ||| exists|a: int, b: int, name: Seq<char>, x: i64, y: i64| #[trigger]
        binds_through(sink.nodes@, a, name, x) && #[trigger] binds_through(sink.nodes@, b, name, y) && x != y
    ||| exists|a: int, name: Seq<char>, x: i64| #[trigger]
        binds_through(sink.nodes@, a, name, x) && var_vals.dom().contains(name) && var_vals[name] != x
}

/// A request is refused if and only if the graph binds a variable to two values, or to
/// another value than the caller.
pub proof fn law_requests_are_refused_for_contradictions(
    sink: &Graph,
    var_vals: Map<Seq<char>, i64>,
    cached: bool,
    request: Result<ScheduleRequest, Error>,
)
    requires
        sink.wf(),
        requests(sink, var_vals, cached, request),
    ensures
        request is Err <==> contradicts(sink, var_vals),
        request matches Err(error) ==> error is IrConstruction,
{
    let nodes = sink.nodes@;
    law_contradictions_have_no_form(sink);
    match request {
        Ok(accepted) => {
            assert(forall|i: int| 0 <= i < nodes.len() ==> !#[trigger] rebinds(dropped_at(nodes), i));
            if exists|a: int, name: Seq<char>, x: i64| #[trigger]
                binds_through(nodes, a, name, x) && var_vals.dom().contains(name) && var_vals[name] != x {
                let (a, name, x) = choose|a: int, name: Seq<char>, x: i64| #[trigger]
                    binds_through(nodes, a, name, x) && var_vals.dom().contains(name) && var_vals[name] != x;
                law_values_go_with_the_form(sink, accepted.normalization, name, x, 0);
                assert(accepted.normalization.var_vals@.contains_pair(name, x));
                assert(var_vals[name] == accepted.normalization.var_vals@[name]);
            }
        },
        Err(error) => {
            if exists|i: int| 0 <= i < nodes.len() && #[trigger] rebinds(dropped_at(nodes), i) {
            } else {
                let name = choose|name: Seq<char>| #[trigger] crate::pre_schedule::clashes(nodes, var_vals, name);
                let bound = crate::graph::gathered(dropped_at(nodes), nodes.len());
                let a = crate::graph_laws::lemma_gathered_from(dropped_at(nodes), nodes.len(), name);
                crate::form_laws::lemma_dropped(sink, a, name, bound[name]);
                assert(binds_through(nodes, a, name, bound[name]));
            }
        },
    }
}

// ---------------------------------------------------------------------------
// Devices
// ---------------------------------------------------------------------------

/// Buffer `i` is registered on a device that computes.
pub open spec fn is_registered(buffers: Seq<(u64, BufferArg)>, registry: Map<u64, DeviceSpec>, i: int) -> bool {
    registry.dom().contains(buffers[i].0) && !(registry[buffers[i].0] is Disk)
}

/// Buffer `i` asks for a device that computes.
pub open spec fn asks(buffers: Seq<(u64, BufferArg)>, i: int) -> bool {
    buffers[i].1.device matches Some(device) && !(device is Disk)
}

proof fn lemma_registered(buffers: Seq<(u64, BufferArg)>, registry: Map<u64, DeviceSpec>, k: nat, i: int)
    requires
        k <= buffers.len(),
    ensures
        registered_device(buffers, registry, k) is None <==> forall|j: int|
            #![trigger buffers[j]]
            0 <= j < k ==> !is_registered(buffers, registry, j),
        0 <= i < k && is_registered(buffers, registry, i) && (forall|j: int|
            #![trigger buffers[j]]
            0 <= j < i ==> !is_registered(buffers, registry, j)) ==> registered_device(buffers, registry, k) == Some(
            registry[buffers[i].0],
        ),
    decreases k,
{
    if k > 0 {
        lemma_registered(buffers, registry, (k - 1) as nat, i);
    }
}

proof fn lemma_requested(buffers: Seq<(u64, BufferArg)>, k: nat, i: int)
    requires
        k <= buffers.len(),
    ensures
        requested_device(buffers, k) is None <==> forall|j: int|
            #![trigger buffers[j]]
            0 <= j < k ==> !asks(buffers, j),
        0 <= i < k && asks(buffers, i) && (forall|j: int| #![trigger buffers[j]] 0 <= j < i ==> !asks(buffers, j))
            ==> requested_device(buffers, k) == buffers[i].1.device,
    decreases k,
{
    if k > 0 {
        lemma_requested(buffers, (k - 1) as nat, i);
    }
}

/// A graph is scheduled for the device of the first of its buffers that is registered
/// on one that is not a disk. Only where none is, for the first device that a buffer
/// asks for and that is not a disk; and only where none asks, for the default.
pub proof fn law_graphs_are_scheduled_for_their_buffers(
    buffers: Seq<(u64, BufferArg)>,
    registry: Map<u64, DeviceSpec>,
    default_device: DeviceSpec,
    device: DeviceSpec,
    i: int,
)
    requires
        device == codegen_device(buffers, registry, default_device),
    ensures
        0 <= i < buffers.len() && is_registered(buffers, registry, i) && (forall|j: int|
            #![trigger buffers[j]]
            0 <= j < i ==> !is_registered(buffers, registry, j)) ==> device == registry[buffers[i].0],
        (forall|j: int| #![trigger buffers[j]] 0 <= j < buffers.len() ==> !is_registered(buffers, registry, j)) ==> {
            &&& 0 <= i < buffers.len() && asks(buffers, i) && (forall|j: int|
                #![trigger buffers[j]]
                0 <= j < i ==> !asks(buffers, j)) ==> buffers[i].1.device == Some(device)
            &&& (forall|j: int| #![trigger buffers[j]] 0 <= j < buffers.len() ==> !asks(buffers, j)) ==> device
                == default_device
        },
        !(default_device is Disk) ==> !(device is Disk),
{
    lemma_registered(buffers, registry, buffers.len(), i);
    lemma_requested(buffers, buffers.len(), i);
    lemma_never_a_disk(buffers, registry, buffers.len());
}

proof fn lemma_never_a_disk(buffers: Seq<(u64, BufferArg)>, registry: Map<u64, DeviceSpec>, k: nat)
    ensures
        registered_device(buffers, registry, k) matches Some(device) ==> !(device is Disk),
        requested_device(buffers, k) matches Some(device) ==> !(device is Disk),
    decreases k,
{
    if k > 0 {
        lemma_never_a_disk(buffers, registry, (k - 1) as nat);
    }
}

// ---------------------------------------------------------------------------
// Inputs and items
// ---------------------------------------------------------------------------

proof fn lemma_reaches_through(graph: &Graph, s: int, i: int)
    requires
        graph.wf(),
        0 <= s < graph.nodes@.len(),
        reaches(graph.nodes@, s, i),
        s != i,
    ensures
        exists|k: int, j: int| #[trigger] has_source(graph.nodes@, k, j, i) && reaches(graph.nodes@, s, k),
    decreases s,
{
    let nodes = graph.nodes@;
    let p = choose|p: int|
        #![trigger nodes[s].srcs@[p]]
        0 <= p < nodes[s].srcs@.len() && 0 <= nodes[s].srcs@[p] < s && reaches(nodes, nodes[s].srcs@[p] as int, i);
    let q = nodes[s].srcs@[p] as int;
    if q == i {
        assert(has_source(nodes, s, p, i));
        assert(reaches(nodes, s, s));
    } else {
        lemma_reaches_through(graph, q, i);
        let (k, j) = choose|k: int, j: int| #[trigger] has_source(nodes, k, j, i) && reaches(nodes, q, k);
        assert(has_source(nodes, k, j, i));
        assert(reaches(nodes, s, k)) by {
            assert(nodes[s].srcs@[p] == q);
        }
    }
}

/// A schedule reads the sources of its items, and the sources of whatever it reads, and
/// nothing else; a buffer that it reads is an input.
pub proof fn law_schedules_read_what_their_items_need(pre_schedule: &PreSchedule, i: int)
    requires
        pre_schedule.wf(),
        0 <= i < pre_schedule.graph.nodes@.len(),
    ensures
        is_input(pre_schedule, i) <==> is_item_source(pre_schedule, i) || exists|k: int, j: int| #[trigger]
            has_source(pre_schedule.graph.nodes@, k, j, i) && is_input(pre_schedule, k),
        is_item_source(pre_schedule, i) <==> exists|x: int, y: int|
            #![trigger pre_schedule.items@[x].sources@[y]]
            0 <= x < pre_schedule.items@.len() && 0 <= y < pre_schedule.items@[x].sources@.len()
                && pre_schedule.items@[x].sources@[y] == i,
        pre_schedule.graph.nodes@[i].op matches Op::Buffer { arg } ==> is_input(pre_schedule, i) ==> is_input_buffer(
            pre_schedule,
            pre_schedule.graph.nodes@.len() as int,
            arg.id,
        ),
{
    let nodes = pre_schedule.graph.nodes@;
    if is_input(pre_schedule, i) {
        let s = choose|s: int|
            #![trigger reaches(nodes, s, i)]
            0 <= s < nodes.len() && is_item_source(pre_schedule, s) && reaches(nodes, s, i);
        if s != i {
            lemma_reaches_through(&pre_schedule.graph, s, i);
            let (k, j) = choose|k: int, j: int| #[trigger] has_source(nodes, k, j, i) && reaches(nodes, s, k);
            assert(has_source(nodes, k, j, i) && is_input(pre_schedule, k));
        }
    }
    if is_item_source(pre_schedule, i) {
        assert(reaches(nodes, i, i));
    }
    if exists|k: int, j: int| #[trigger] has_source(nodes, k, j, i) && is_input(pre_schedule, k) {
        let (k, j) = choose|k: int, j: int| #[trigger] has_source(nodes, k, j, i) && is_input(pre_schedule, k);
        let s = choose|s: int|
            #![trigger reaches(nodes, s, k)]
            0 <= s < nodes.len() && is_item_source(pre_schedule, s) && reaches(nodes, s, k);
        crate::pre_schedule::lemma_reaches_source(nodes, s, k, j, i);
    }
}

/// The inputs of a schedule are the buffers that it reads, and no others.
pub proof fn law_inputs_are_the_buffers_that_are_read(pre_schedule: &PreSchedule, id: u64)
    ensures
        is_input_buffer(pre_schedule, pre_schedule.graph.nodes@.len() as int, id) <==> exists|i: int, arg: BufferArg|
            0 <= i < pre_schedule.graph.nodes@.len() && #[trigger] is_input(pre_schedule, i)
                && pre_schedule.graph.nodes@[i].op == (#[trigger] buffer_op(arg)) && arg.id == id,
{
    let nodes = pre_schedule.graph.nodes@;
    if is_input_buffer(pre_schedule, nodes.len() as int, id) {
        let i = choose|i: int|
            #![trigger nodes[i]]
            0 <= i < nodes.len() && is_input(pre_schedule, i) && (nodes[i].op matches Op::Buffer { arg } && arg.id == id);
        let arg = nodes[i].op->Buffer_arg;
        assert(is_input(pre_schedule, i) && nodes[i].op == buffer_op(arg));
    }
}

/// The operation that reads a buffer.
pub open spec fn buffer_op(arg: BufferArg) -> Op {
    Op::Buffer { arg }
}

/// A schedule is made where none is kept, or where schedules are not cached; one that was
/// made is the run's, and one that could not be made is its error. Only one that was made,
/// for the cache, is kept, and it takes no other's place.
pub proof fn law_schedules_are_found_or_made(
    entries: Map<CacheKeyView, u64>,
    cached: bool,
    key: CacheKeyView,
    other: CacheKeyView,
    made: Result<u64, Error>,
)
    ensures
        schedule_step(entries, cached, key, None) is Create <==> !cached || !entries.dom().contains(key),
        schedule_step(entries, cached, key, None) matches ScheduleStep::Restore(schedule) ==> entries.contains_pair(
            key,
            schedule,
        ),
        !(schedule_step(entries, cached, key, None) is Fail),
        made matches Ok(schedule) ==> schedule_step(entries, cached, key, Some(made)) == ScheduleStep::Restore(schedule),
        made matches Err(error) ==> schedule_step(entries, cached, key, Some(made)) == ScheduleStep::Fail(error),
        kept_after(entries, cached, key, None) == entries,
        made is Err || !cached ==> kept_after(entries, cached, key, Some(made)) == entries,
        made matches Ok(schedule) ==> cached ==> kept_after(entries, cached, key, Some(made)).contains_pair(key, schedule),
        other != key ==> (kept_after(entries, cached, key, Some(made)).dom().contains(other) <==> entries.dom().contains(
            other,
        )),
        other != key && entries.dom().contains(other) ==> kept_after(entries, cached, key, Some(made))[other]
            == entries[other],
{
}

/// Making a cached schedule a run's keeps its items, its invocations and its outputs,
/// and the edges of its graph. Where an item or an output refers to the graph, each
/// parameter of the cache becomes the run's buffer of its slot.
pub proof fn law_runs_keep_the_cached_schedule(
    pre_schedule: &PreSchedule,
    restored: &PreSchedule,
    params: Seq<BufferArg>,
    uniques: Seq<u64>,
    start: u64,
    next: u64,
    x: int,
    i: int,
)
    requires
        schedule_restores(pre_schedule, restored, params, uniques, start, next),
        0 <= x < pre_schedule.items@.len(),
        0 <= i < pre_schedule.graph.nodes@.len(),
    ensures
        restored.items@.len() == pre_schedule.items@.len(),
        restored.items@[x].kernel == pre_schedule.items@[x].kernel,
        restored.items@[x].ast == pre_schedule.items@[x].ast,
        restored.items@[x].sources@ == pre_schedule.items@[x].sources@,
        restored.items@[x].dependencies@ == pre_schedule.items@[x].dependencies@,
        restored.items@[x].bound_ranges@ == pre_schedule.items@[x].bound_ranges@,
        restored.invocations@ == pre_schedule.invocations@,
        restored.output_buffers@ == pre_schedule.output_buffers@,
        restored.graph.nodes@.len() == pre_schedule.graph.nodes@.len(),
        restored.graph.nodes@[i].srcs@ == pre_schedule.graph.nodes@[i].srcs@,
        pre_schedule.items@[x].sources@.len() > 0 ==> (pre_schedule.graph.nodes@[i].op matches Op::Param { arg }
            ==> arg.schedule_cache && arg.slot < params.len() && !params[arg.slot as int].schedule_local
            ==> restored.graph.nodes@[i].op == (Op::Buffer { arg: params[arg.slot as int] })),
{
    let _ = restored.items@[x];
    let _ = restored.graph.nodes@[i];
    if !pre_schedule.refers_to_nothing() {
        law_placeholders_are_put_back(pre_schedule.graph.nodes@, restored.graph.nodes@, params, uniques, start, i);
    }
}

} // verus!
