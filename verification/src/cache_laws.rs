//! What runs with the schedule cache and runs without it have in common.

use vstd::prelude::*;

use crate::error::Error;
use crate::graph::{first_rebind, gathered, rebinds, BufferArg, Graph, Node, Op, Term};
use crate::pre_schedule::{
    clashes, kept_after, normalization_fault, requests, same_but_graph, same_item, schedule_key, schedule_restores,
    schedule_step, PreSchedule, ScheduleRequest, ScheduleStep,
};
use crate::schedule_cache::{allocated, dropped_at, restored_op, Allocated, ScheduleCacheNormalization};
use crate::schedule_laws::{law_cached_form_ignores_the_run, one_to_one, reruns};
use crate::shared_map::{entry, CacheKeyView};

verus! {

// ---------------------------------------------------------------------------
// Requests
// ---------------------------------------------------------------------------

/// Two normalizations are of one form, with the same behind each slot and the
/// same values of variables.
pub open spec fn same_normalization(a: ScheduleCacheNormalization, b: ScheduleCacheNormalization) -> bool {
    &&& a.normalized.root() == b.normalized.root()
    &&& a.param_values@ == b.param_values@
    &&& a.unique_values@ == b.unique_values@
    &&& a.var_vals@ == b.var_vals@
}

proof fn lemma_one_normalization(sink: &Graph, a: ScheduleCacheNormalization, b: ScheduleCacheNormalization)
    requires
        sink.wf(),
        a.normalizes(sink.nodes@),
        b.normalizes(sink.nodes@),
    ensures
        same_normalization(a, b),
{
    let nodes = sink.nodes@;
    let (p, q) = (a.param_values@, b.param_values@);
    assert forall|j: int| 0 <= j < p.len() implies p[j] == q[j] by {
        let x = choose|x: int|
            #![trigger nodes[x]]
            0 <= x < nodes.len() && nodes[x].op == (Op::Buffer { arg: p[j] });
        let y = choose|y: int|
            #![trigger nodes[y]]
            0 <= y < nodes.len() && nodes[y].op == (Op::Buffer { arg: q[j] });
        assert(nodes[x].op->Buffer_arg == nodes[y].op->Buffer_arg);
    }
    assert(p =~= q);
}

/// With the cache or without it, the same requests are accepted, and they come
/// to the same form, the same buffers and identities behind it, and the same
/// values of variables.
pub proof fn law_the_cache_changes_no_request(
    sink: &Graph,
    var_vals: Map<Seq<char>, i64>,
    with_cache: Result<ScheduleRequest, Error>,
    without: Result<ScheduleRequest, Error>,
)
    requires
        sink.wf(),
        requests(sink, var_vals, true, with_cache),
        requests(sink, var_vals, false, without),
    ensures
        with_cache is Ok <==> without is Ok,
        with_cache matches Ok(a) ==> without matches Ok(b) ==> same_normalization(a.normalization, b.normalization)
            && a.var_vals@ == b.var_vals@,
{
    lemma_accepted_alike(sink, var_vals, true, with_cache, false, without);
    lemma_accepted_alike(sink, var_vals, false, without, true, with_cache);
    if let (Ok(a), Ok(b)) = (with_cache, without) {
        lemma_one_normalization(sink, a.normalization, b.normalization);
    }
}

proof fn lemma_accepted_alike(
    sink: &Graph,
    var_vals: Map<Seq<char>, i64>,
    cached: bool,
    request: Result<ScheduleRequest, Error>,
    other_cached: bool,
    other: Result<ScheduleRequest, Error>,
)
    requires
        sink.wf(),
        requests(sink, var_vals, cached, request),
        requests(sink, var_vals, other_cached, other),
    ensures
        request is Ok ==> other is Ok,
{
    if request is Ok && other is Err {
        let error = other->Err_0;
        let nodes = sink.nodes@;
        let own = request->Ok_0.normalization;
        let bound = gathered(dropped_at(nodes), nodes.len());
        if normalization_fault(nodes, error) {
            let i = choose|i: int|
                #![trigger rebinds(dropped_at(nodes), i)]
                0 <= i < nodes.len() && first_rebind(dropped_at(nodes), i);
            assert(rebinds(dropped_at(nodes), i));
        } else {
            let name = choose|name: Seq<char>| #[trigger] clashes(nodes, var_vals, name);
            assert(own.var_vals@ == bound);
            assert(var_vals.dom().contains(name) && bound.dom().contains(name));
            assert(var_vals[name] == bound[name]);
        }
    }
}

// ---------------------------------------------------------------------------
// Steps
// ---------------------------------------------------------------------------

/// What finding the schedule of a form ends in, where making one comes to
/// `made`.
pub open spec fn schedule_ends(
    entries: Map<CacheKeyView, u64>,
    cached: bool,
    key: CacheKeyView,
    made: Result<u64, Error>,
) -> ScheduleStep {
    match schedule_step(entries, cached, key, None) {
        ScheduleStep::Create => schedule_step(entries, cached, key, Some(made)),
        step => step,
    }
}

/// A run that asked for the schedule of a form, and what making one came to, or
/// would have come to, in that run.
pub struct ScheduleRun {
    pub form: Term,
    pub codegen: Seq<char>,
    pub cached: bool,
    pub made: Result<u64, Error>,
}

impl ScheduleRun {
    /// The key under which the run looks its schedule up.
    pub open spec fn key(self, hash: spec_fn(Term) -> u64) -> CacheKeyView {
        schedule_key(hash(self.form), self.codegen)
    }

    /// What the run is given.
    pub open spec fn ends(self, entries: Map<CacheKeyView, u64>, hash: spec_fn(Term) -> u64) -> ScheduleStep {
        schedule_ends(entries, self.cached, self.key(hash), self.made)
    }
}

/// What is kept after some runs, from when nothing was.
pub open spec fn after_runs(runs: Seq<ScheduleRun>, hash: spec_fn(Term) -> u64) -> Map<CacheKeyView, u64>
    decreases runs.len(),
{
    if runs.len() == 0 {
        Map::empty()
    } else {
        let entries = after_runs(runs.drop_last(), hash);
        let run = runs.last();
        match schedule_step(entries, run.cached, run.key(hash), None) {
            ScheduleStep::Create => kept_after(entries, run.cached, run.key(hash), Some(run.made)),
            _ => entries,
        }
    }
}

/// Run `j` is the one that put `schedule` under `key`: the first to make one for
/// the cache.
pub open spec fn put_by(
    runs: Seq<ScheduleRun>,
    hash: spec_fn(Term) -> u64,
    key: CacheKeyView,
    schedule: u64,
    j: int,
) -> bool {
    &&& 0 <= j < runs.len()
    &&& runs[j].cached
    &&& runs[j].key(hash) == key
    &&& runs[j].made == Ok::<u64, Error>(schedule)
    &&& forall|i: int|
        #![trigger runs[i]]
        0 <= i < j && runs[i].cached && runs[i].key(hash) == key ==> runs[i].made is Err
}

/// Whatever ran before, the cache holds for a key what the first run that made a
/// schedule for it made, and nothing where none did.
pub proof fn law_the_cache_keeps_what_was_first_made(
    runs: Seq<ScheduleRun>,
    hash: spec_fn(Term) -> u64,
    key: CacheKeyView,
)
    ensures
        match entry(after_runs(runs, hash), key) {
            Some(schedule) => exists|j: int| put_by(runs, hash, key, schedule, j),
            None => forall|j: int|
                #![trigger runs[j]]
                0 <= j < runs.len() && runs[j].cached && runs[j].key(hash) == key ==> runs[j].made is Err,
        },
    decreases runs.len(),
{
    if runs.len() > 0 {
        let rest = runs.drop_last();
        let run = runs.last();
        law_the_cache_keeps_what_was_first_made(rest, hash, key);
        let before = entry(after_runs(rest, hash), key);
        let after = entry(after_runs(runs, hash), key);
        if before is Some {
            let j = choose|j: int| put_by(rest, hash, key, before->0, j);
            assert(rest[j] == runs[j]);
            assert forall|i: int|
                #![trigger runs[i]]
                0 <= i < j && runs[i].cached && runs[i].key(hash) == key implies runs[i].made is Err by {
                assert(rest[i] == runs[i]);
            }
            assert(after == before);
            assert(put_by(runs, hash, key, before->0, j));
        } else {
            assert forall|j: int|
                #![trigger runs[j]]
                0 <= j < rest.len() && runs[j].cached && runs[j].key(hash) == key implies runs[j].made is Err by {
                assert(rest[j] == runs[j]);
            }
            if after is Some {
                assert(put_by(runs, hash, key, after->0, runs.len() - 1));
            }
        }
    }
}

/// Making a schedule in a run came to what making one for its form and its
/// compiler comes to; `stored` gives the schedules by their numbers.
pub open spec fn made_as(
    run: ScheduleRun,
    makes: spec_fn(Term, Seq<char>) -> Result<PreSchedule, Error>,
    stored: spec_fn(u64) -> PreSchedule,
) -> bool {
    match (run.made, makes(run.form, run.codegen)) {
        (Ok(n), Ok(schedule)) => stored(n) == schedule,
        (Err(error), Err(expected)) => error == expected,
        _ => false,
    }
}

/// No earlier run had a form that is scheduled otherwise and has the same hash.
pub open spec fn no_collision(
    runs: Seq<ScheduleRun>,
    hash: spec_fn(Term) -> u64,
    makes: spec_fn(Term, Seq<char>) -> Result<PreSchedule, Error>,
    run: ScheduleRun,
) -> bool {
    forall|j: int|
        #![trigger runs[j]]
        0 <= j < runs.len() && runs[j].codegen == run.codegen && hash(runs[j].form) == hash(run.form) ==> makes(
            runs[j].form,
            run.codegen,
        ) == makes(run.form, run.codegen)
}

/// Two runs are given the same schedule, or the same error.
pub open spec fn given_alike(a: ScheduleStep, b: ScheduleStep, stored: spec_fn(u64) -> PreSchedule) -> bool {
    match (a, b) {
        (ScheduleStep::Restore(n), ScheduleStep::Restore(m)) => stored(n) == stored(m),
        (ScheduleStep::Fail(error), ScheduleStep::Fail(other)) => error == other,
        _ => false,
    }
}

/// Whatever ran before, a run with the cache is given the schedule, or the error,
/// that the same run without it is given, unless an earlier form that is
/// scheduled otherwise has the same hash.
pub proof fn law_cached_schedules_are_as_good_as_new(
    runs: Seq<ScheduleRun>,
    hash: spec_fn(Term) -> u64,
    makes: spec_fn(Term, Seq<char>) -> Result<PreSchedule, Error>,
    stored: spec_fn(u64) -> PreSchedule,
    with_cache: ScheduleRun,
    without: ScheduleRun,
)
    requires
        with_cache.cached,
        !without.cached,
        with_cache.form == without.form,
        with_cache.codegen == without.codegen,
        made_as(with_cache, makes, stored),
        made_as(without, makes, stored),
        forall|j: int| #![trigger runs[j]] 0 <= j < runs.len() ==> made_as(runs[j], makes, stored),
        no_collision(runs, hash, makes, with_cache),
    ensures
        given_alike(
            with_cache.ends(after_runs(runs, hash), hash),
            without.ends(after_runs(runs, hash), hash),
            stored,
        ),
{
    let key = with_cache.key(hash);
    law_the_cache_keeps_what_was_first_made(runs, hash, key);
    if let Some(schedule) = entry(after_runs(runs, hash), key) {
        let j = choose|j: int| put_by(runs, hash, key, schedule, j);
        assert(made_as(runs[j], makes, stored));
        assert(makes(runs[j].form, with_cache.codegen) == makes(with_cache.form, with_cache.codegen));
    }
}

/// Whatever ran before, a graph that differs from the last one that was scheduled
/// only in the buffers and identities that its run supplies, and in the values it
/// binds to variables, is given the same schedule: none is made for it.
pub proof fn law_another_run_is_given_the_same_schedule(
    a: &Graph,
    b: &Graph,
    cached_a: ScheduleCacheNormalization,
    cached_b: ScheduleCacheNormalization,
    rename: spec_fn(u64) -> BufferArg,
    renumber: spec_fn(u64) -> u64,
    runs: Seq<ScheduleRun>,
    hash: spec_fn(Term) -> u64,
    first: ScheduleRun,
    second: ScheduleRun,
    schedule: u64,
)
    requires
        a.wf(),
        b.wf(),
        cached_a.normalizes(a.nodes@),
        cached_b.normalizes(b.nodes@),
        reruns(a.root(), b.root(), rename, renumber),
        one_to_one(rename, renumber),
        first.cached,
        second.cached,
        first.form == cached_a.normalized.root(),
        second.form == cached_b.normalized.root(),
        first.codegen == second.codegen,
        first.ends(after_runs(runs, hash), hash) == ScheduleStep::Restore(schedule),
    ensures
        second.ends(after_runs(runs.push(first), hash), hash) == ScheduleStep::Restore(schedule),
        after_runs(runs.push(first).push(second), hash) == after_runs(runs.push(first), hash),
{
    law_cached_form_ignores_the_run(a, b, cached_a, cached_b, rename, renumber);
    assert(runs.push(first).drop_last() =~= runs);
    assert(runs.push(first).push(second).drop_last() =~= runs.push(first));
}

// ---------------------------------------------------------------------------
// Restoring
// ---------------------------------------------------------------------------

/// Two ids are one, or both are fresh and as far from where each run's fresh ids
/// begin.
pub open spec fn same_or_fresh(x: u64, y: u64, start: u64, other: u64) -> bool {
    x == y || (start <= x && other <= y && x - start == y - other)
}

/// Two allocations differ at most in a fresh id.
pub open spec fn same_allocation(x: BufferArg, y: BufferArg, start: u64, other: u64) -> bool {
    &&& same_or_fresh(x.id, y.id, start, other)
    &&& same_or_fresh(x.slot, y.slot, start, other)
    &&& x.dtype == y.dtype
    &&& x.addrspace == y.addrspace
    &&& x.device == y.device
    &&& x.size == y.size
    &&& x.schedule_local == y.schedule_local
}

/// Two operations differ at most in a fresh id.
pub open spec fn same_but_fresh(x: Op, y: Op, start: u64, other: u64) -> bool {
    match (x, y) {
        (Op::Buffer { arg: p }, Op::Buffer { arg: q }) => same_allocation(p, q, start, other),
        (Op::Unique { id: p }, Op::Unique { id: q }) => same_or_fresh(p, q, start, other),
        _ => x == y,
    }
}

/// Two runs have allocated the same, from where each run's fresh ids begin.
spec fn allocated_alike(a: Allocated, b: Allocated, start: u64, other: u64) -> bool {
    &&& a.next - start == b.next - other
    &&& start <= a.next
    &&& other <= b.next
    &&& a.locals.dom() == b.locals.dom()
    &&& a.params.dom() == b.params.dom()
    &&& a.lost.dom() == b.lost.dom()
    &&& forall|slot: u64| #[trigger]
        a.locals.dom().contains(slot) ==> same_allocation(a.locals[slot], b.locals[slot], start, other)
    &&& forall|slot: u64| #[trigger]
        a.params.dom().contains(slot) ==> same_allocation(a.params[slot], b.params[slot], start, other)
    &&& forall|slot: u64| #[trigger]
        a.lost.dom().contains(slot) ==> same_or_fresh(a.lost[slot], b.lost[slot], start, other)
}

proof fn lemma_allocated_alike(
    nodes: Seq<Node>,
    params: Seq<BufferArg>,
    uniques: Seq<u64>,
    start: u64,
    other: u64,
    k: nat,
)
    requires
        k <= nodes.len(),
        start + nodes.len() <= u64::MAX,
        other + nodes.len() <= u64::MAX,
    ensures
        allocated_alike(
            allocated(nodes, params, uniques, start, k),
            allocated(nodes, params, uniques, other, k),
            start,
            other,
        ),
        allocated(nodes, params, uniques, start, k).next <= start + k,
    decreases k,
{
    let a = allocated(nodes, params, uniques, start, k);
    let b = allocated(nodes, params, uniques, other, k);
    if k > 0 {
        lemma_allocated_alike(nodes, params, uniques, start, other, (k - 1) as nat);
    }
    assert(a.locals.dom() =~= b.locals.dom());
    assert(a.params.dom() =~= b.params.dom());
    assert(a.lost.dom() =~= b.lost.dom());
}

/// Once a local slot without an identity was met, it has a fresh one.
proof fn lemma_lost_is_allocated(
    nodes: Seq<Node>,
    params: Seq<BufferArg>,
    uniques: Seq<u64>,
    start: u64,
    i: int,
)
    requires
        0 <= i < nodes.len(),
        nodes[i].op matches Op::LUnique { slot } && slot >= uniques.len(),
    ensures
        allocated(nodes, params, uniques, start, (i + 1) as nat).lost.dom().contains(nodes[i].op->LUnique_slot),
{
}

/// A schedule that is made a run's twice is the same both times, but for the
/// ids of what is allocated anew: items, invocations, outputs and the graph's
/// edges are the same, and so is each operation up to a fresh id.
pub proof fn law_restored_schedules_differ_in_fresh_ids_alone(
    pre_schedule: &PreSchedule,
    a: &PreSchedule,
    b: &PreSchedule,
    params: Seq<BufferArg>,
    uniques: Seq<u64>,
    start: u64,
    next: u64,
    other: u64,
    other_next: u64,
)
    requires
        start + pre_schedule.graph.nodes@.len() <= u64::MAX,
        other + pre_schedule.graph.nodes@.len() <= u64::MAX,
        schedule_restores(pre_schedule, a, params, uniques, start, next),
        schedule_restores(pre_schedule, b, params, uniques, other, other_next),
    ensures
        next - start == other_next - other,
        same_schedule(a, b, start, other),
{
    let nodes = pre_schedule.graph.nodes@;
    assert forall|i: int| #![trigger a.items@[i]] 0 <= i < a.items@.len() implies same_item(
        a.items@[i],
        b.items@[i],
    ) by {
        let _ = b.items@[i];
    }
    lemma_allocated_alike(nodes, params, uniques, start, other, nodes.len());
    assert forall|i: int|
        #![trigger a.graph.nodes@[i]]
        0 <= i < a.graph.nodes@.len() implies a.graph.nodes@[i].srcs@ == b.graph.nodes@[i].srcs@ && same_but_fresh(
        a.graph.nodes@[i].op,
        b.graph.nodes@[i].op,
        start,
        other,
    ) by {
        let _ = b.graph.nodes@[i];
        if !pre_schedule.refers_to_nothing() {
            lemma_allocated_alike(nodes, params, uniques, start, other, (i + 1) as nat);
            assert(a.graph.nodes@[i].op == restored_op(nodes, params, uniques, start, i));
            assert(b.graph.nodes@[i].op == restored_op(nodes, params, uniques, other, i));
            if let Op::LUnique { slot } = nodes[i].op {
                if slot >= uniques.len() {
                    lemma_lost_is_allocated(nodes, params, uniques, start, i);
                }
            }
        }
    }
}

/// Two schedules are the same, but for fresh ids in their graphs.
pub open spec fn same_schedule(a: &PreSchedule, b: &PreSchedule, start: u64, other: u64) -> bool {
    &&& same_but_graph(a, b)
    &&& a.graph.nodes@.len() == b.graph.nodes@.len()
    &&& forall|i: int|
        #![trigger a.graph.nodes@[i]]
        0 <= i < a.graph.nodes@.len() ==> a.graph.nodes@[i].srcs@ == b.graph.nodes@[i].srcs@ && same_but_fresh(
            a.graph.nodes@[i].op,
            b.graph.nodes@[i].op,
            start,
            other,
        )
}

/// A run with the cache and a run without it, of one graph with one choice of
/// variables, come to the same, whatever ran before: they are given one schedule,
/// or one error, and expand the same items, invocations and outputs, in the same
/// order, with the same values, on buffers that differ at most in fresh ids. That
/// is so unless an earlier form that is scheduled otherwise has the same hash.
pub proof fn law_a_run_is_the_same_without_the_cache(
    sink: &Graph,
    var_vals: Map<Seq<char>, i64>,
    request: ScheduleRequest,
    bare_request: ScheduleRequest,
    runs: Seq<ScheduleRun>,
    hash: spec_fn(Term) -> u64,
    makes: spec_fn(Term, Seq<char>) -> Result<PreSchedule, Error>,
    stored: spec_fn(u64) -> PreSchedule,
    with_cache: ScheduleRun,
    without: ScheduleRun,
)
    requires
        sink.wf(),
        requests(sink, var_vals, true, Ok(request)),
        requests(sink, var_vals, false, Ok(bare_request)),
        with_cache.cached,
        !without.cached,
        with_cache.form == request.normalization.normalized.root(),
        without.form == bare_request.normalization.normalized.root(),
        with_cache.codegen == without.codegen,
        made_as(with_cache, makes, stored),
        made_as(without, makes, stored),
        forall|j: int| #![trigger runs[j]] 0 <= j < runs.len() ==> made_as(runs[j], makes, stored),
        no_collision(runs, hash, makes, with_cache),
    ensures
        request.var_vals@ == bare_request.var_vals@,
        ({
            let found = with_cache.ends(after_runs(runs, hash), hash);
            let made = without.ends(after_runs(runs, hash), hash);
            &&& given_alike(found, made, stored)
            &&& found matches ScheduleStep::Restore(n) ==> made matches ScheduleStep::Restore(m)
                ==> restored_alike(stored(n), stored(m), request.normalization, bare_request.normalization)
        }),
{
    law_the_cache_changes_no_request(sink, var_vals, Ok(request), Ok(bare_request));
    law_cached_schedules_are_as_good_as_new(runs, hash, makes, stored, with_cache, without);
    let p = request.normalization;
    let q = bare_request.normalization;
    let found = with_cache.ends(after_runs(runs, hash), hash);
    if let ScheduleStep::Restore(n) = found {
        let kept = stored(n);
        assert forall|a: PreSchedule, b: PreSchedule, start: u64, next: u64, other: u64, other_next: u64|
            room(kept, start) && room(kept, other) && #[trigger] schedule_restores(
                &kept,
                &a,
                p.param_values@,
                p.unique_values@,
                start,
                next,
            ) && #[trigger] schedule_restores(&kept, &b, q.param_values@, q.unique_values@, other, other_next)
            implies same_schedule(&a, &b, start, other) by {
            law_restored_schedules_differ_in_fresh_ids_alone(
                &kept,
                &a,
                &b,
                p.param_values@,
                p.unique_values@,
                start,
                next,
                other,
                other_next,
            );
        }
    }
}

/// There are ids left for what a schedule may allocate.
pub open spec fn room(schedule: PreSchedule, start: u64) -> bool {
    start + schedule.graph.nodes@.len() <= u64::MAX
}

/// However two schedules are made a run's, with what is behind the slots of two
/// normalizations, they come to the same but for fresh ids.
pub open spec fn restored_alike(
    kept: PreSchedule,
    other_kept: PreSchedule,
    p: ScheduleCacheNormalization,
    q: ScheduleCacheNormalization,
) -> bool {
    forall|a: PreSchedule, b: PreSchedule, start: u64, next: u64, other: u64, other_next: u64|
        room(kept, start) && room(other_kept, other) && #[trigger] schedule_restores(
            &kept,
            &a,
            p.param_values@,
            p.unique_values@,
            start,
            next,
        ) && #[trigger] schedule_restores(&other_kept, &b, q.param_values@, q.unique_values@, other, other_next)
            ==> same_schedule(&a, &b, start, other)
}

} // verus!
