//! What a search promises: how many helpers it has and what they are told, which
//! launches it times, and how it ends.

use vstd::arithmetic::mul::{lemma_mul_is_associative, lemma_mul_is_commutative};
use vstd::prelude::*;

use crate::beam::{
    awaits, int_bytes, search_steps, shrunk, volume, worker_count, SearchAction, SearchEvent, SearchJob, SearchState,
};
use crate::device::DeviceSpec;
use crate::error::Error;
use crate::text::{dec, law_only_digits_are_numbers, law_written_numbers_read_back, parsed};

verus! {

/// A number in the setting is the number of helpers, whatever else is asked for; a text
/// that is no number counts as no setting. Without one it is the number that is
/// configured, where one is, and otherwise every thread on GPUs and none elsewhere.
pub proof fn law_helpers_are_as_many_as_asked_for(
    configured: usize,
    device: DeviceSpec,
    threads: usize,
    n: usize,
    text: Seq<char>,
    i: int,
)
    ensures
        worker_count(configured, device, threads, Some(dec(n as nat))) == n,
        0 <= i < text.len() && !('0' <= text[i] <= '9') && text[i] != '+' ==> worker_count(
            configured,
            device,
            threads,
            Some(text),
        ) == worker_count(configured, device, threads, None),
        configured > 0 ==> worker_count(configured, device, threads, None) == configured,
        configured == 0 && (device is Cuda || device is Amd || device is Metal) ==> worker_count(
            configured,
            device,
            threads,
            None,
        ) == threads,
        configured == 0 && (device is Cpu || device is WebGpu || device is Disk) ==> worker_count(
            configured,
            device,
            threads,
            None,
        ) == 0,
{
    law_written_numbers_read_back(n as nat);
    if 0 <= i < text.len() && parsed(text) is Some {
        law_only_digits_are_numbers(text, i);
    }
}

/// The bytes of a number give it back: the low byte comes first, and a negative number
/// is the one that makes 2 to the 32 with its magnitude.
pub proof fn law_bytes_give_the_number_back(n: i32)
    ensures
        int_bytes(n).len() == 4,
        ({
            let b = int_bytes(n);
            let bits = b[0] as int + 256 * (b[1] as int) + 65536 * (b[2] as int) + 16777216 * (b[3] as int);
            &&& n >= 0 ==> bits == n
            &&& n < 0 ==> bits == 4294967296 + n
        }),
{
    let bits = if n >= 0 { n as int } else { n + 0x1_0000_0000 };
    assert(bits == bits % 256 + 256 * (bits / 256 % 256) + 0x1_0000 * (bits / 0x1_0000 % 256) + 0x100_0000 * (bits
        / 0x100_0000 % 256)) by {
        assert(bits / 0x1_0000 == bits / 256 / 256);
        assert(bits / 0x100_0000 == bits / 256 / 256 / 256);
    }
}

// ---------------------------------------------------------------------------
// Timing
// ---------------------------------------------------------------------------

/// A launch is cut for timing only where it has more than 65536 places, and then to no
/// more than that, but not to less than eight seventeenths of it. The last axes are cut
/// first: one is cut only once all after it are at most 16.
pub proof fn law_launches_are_cut_no_more_than_needed(a: nat, b: nat, c: nat)
    ensures
        ({
            let (x, y, z) = shrunk(a, b, c);
            &&& x * y * z <= 65536
            &&& a * b * c <= 65536 ==> (x, y, z) == (a, b, c)
            &&& a * b * c > 65536 ==> 17 * (x * y * z) >= 8 * 65536
            &&& y < b ==> z <= 16
            &&& x < a ==> y <= 16 && z <= 16
        }),
    decreases a + b + c,
{
    let (x, y, z) = shrunk(a, b, c);
    crate::beam::law_timed_launches_are_bounded(a, b, c);
    assert(volume(a as int, b as int, c as int) == a * b * c);
    assert(volume(x as int, y as int, z as int) == x * y * z);
    if a * b * c > 65536 {
        if c > 16 {
            law_launches_are_cut_no_more_than_needed(a, b, c / 2);
            lemma_half(a as int * b as int, c as int);
        } else if b > 16 {
            law_launches_are_cut_no_more_than_needed(a, b / 2, c);
            lemma_half(a as int * c as int, b as int);
            lemma_swap(a as int, b as int, c as int);
            lemma_swap(a as int, b as int / 2, c as int);
        } else if a > 16 {
            law_launches_are_cut_no_more_than_needed(a / 2, b, c);
            lemma_half(b as int * c as int, a as int);
            lemma_swap(a as int, b as int, c as int);
            lemma_swap(a as int / 2, b as int, c as int);
        }
    }
}

/// Half of an axis of more than 16 is no less than eight seventeenths of it.
proof fn lemma_half(rest: int, axis: int)
    requires
        axis > 16,
        rest >= 0,
    ensures
        17 * (rest * (axis / 2)) >= 8 * (rest * axis),
{
    let half = axis / 2;
    assert(17 * half >= 8 * axis);
    assert(17 * (rest * half) >= 8 * (rest * axis)) by (nonlinear_arith)
        requires
            17 * half >= 8 * axis,
            rest >= 0,
    ;
}

proof fn lemma_swap(x: int, y: int, z: int)
    ensures
        x * y * z == (x * z) * y,
        x * y * z == (y * z) * x,
{
    lemma_mul_is_associative(x, y, z);
    lemma_mul_is_commutative(y, z);
    lemma_mul_is_associative(x, z, y);
    lemma_mul_is_commutative(x, y * z);
}

// ---------------------------------------------------------------------------
// Searches
// ---------------------------------------------------------------------------

/// What an event says went wrong.
pub open spec fn complaint(event: SearchEvent) -> Option<Seq<char>> {
    match event {
        SearchEvent::Encoded(Err(why)) => Some(why@),
        SearchEvent::Prepared(Err(why)) => Some(why@),
        SearchEvent::Allocated(Err(why)) => Some(why@),
        SearchEvent::Started(Err(error)) => Some(error.message()),
        SearchEvent::Found(Err(why)) => Some(why@),
        SearchEvent::Finished(Err(why)) => Some(why@),
        _ => None,
    }
}

/// A search goes on if and only if nothing went wrong and it is not over; the first
/// thing that goes wrong ends it, and is what it ends with.
pub proof fn law_searches_end_with_what_went_wrong(
    job: &SearchJob,
    state: SearchState,
    event: SearchEvent,
    step: (Option<SearchState>, SearchAction),
)
    requires
        awaits(state, event),
        search_steps(job, state, event, step),
    ensures
        complaint(event) matches Some(why) ==> step.0 is None && (step.1 matches SearchAction::Done(
            Err(Error::Stage { message, .. }),
        ) && message@ == why),
        complaint(event) is None ==> {
            &&& event matches SearchEvent::Finished(Ok(kernel)) ==> step.0 is None && step.1 == SearchAction::Done(
                Ok(kernel),
            )
            &&& !(event is Finished) ==> step.0 is Some && !(step.1 is Done)
        },
{
}

/// A search prepares its kernel, allocates every buffer in order, starts its helpers,
/// searches and applies what it found, in this order and leaving nothing out.
pub proof fn law_searches_keep_their_order(
    job: &SearchJob,
    state: SearchState,
    event: SearchEvent,
    step: (Option<SearchState>, SearchAction),
)
    requires
        awaits(state, event),
        state matches SearchState::Allocating { next, .. } ==> next < job.buffers,
        search_steps(job, state, event, step),
        complaint(event) is None,
    ensures
        state is Encoding ==> step.1 is Prepare && (step.0 matches Some(SearchState::Preparing { graph }) && event
            == SearchEvent::Encoded(Ok(graph))),
        state is Preparing && job.buffers > 0 ==> step.1 == (SearchAction::Allocate { index: 0 }),
        state is Preparing && job.buffers == 0 ==> step.1 is Start,
        state matches SearchState::Allocating { next, .. } ==> if next + 1 < job.buffers {
            step.1 == (SearchAction::Allocate { index: (next + 1) as usize })
        } else {
            step.1 is Start
        },
        state is Starting ==> step.1 is Search,
        state is Searching ==> step.1 is Finish,
        state is Finishing ==> step.1 is Done,
        step.1 matches SearchAction::Allocate { index } ==> (step.0 matches Some(
            SearchState::Allocating { next, .. },
        ) && next == index),
{
}

/// Helpers are told the kernel that was encoded, with the number of optimizations that
/// it was prepared with, the device and settings of the job, and how many they are; at
/// least one is started.
pub proof fn law_helpers_are_told_of_the_job(
    job: &SearchJob,
    state: SearchState,
    event: SearchEvent,
    step: (Option<SearchState>, SearchAction),
)
    requires
        awaits(state, event),
        state matches SearchState::Allocating { next, .. } ==> next < job.buffers,
        search_steps(job, state, event, step),
    ensures
        step.1 matches SearchAction::Start { init, workers } ==> {
            &&& job.workers > 0 ==> workers == job.workers
            &&& job.workers == 0 ==> workers == 1
            &&& init.device == job.resolved.device
            &&& init.gpu_arch == job.resolved.gpu_arch
            &&& init.transcendental == job.config.transcendental
            &&& init.disable_fast_idiv == job.config.disable_fast_idiv
            &&& init.log_surpass == job.log_surpass
            &&& init.beam.compile_workers == job.workers
            &&& init.beam.behavior() == job.config.beam.behavior()
            &&& init.beam.max_tasks_per_child == job.config.beam.max_tasks_per_child
            &&& init.beam.disable_cache == job.config.beam.disable_cache
            &&& state matches SearchState::Preparing { graph } ==> init.graph == graph && event == SearchEvent::Prepared(
                Ok(init.base_opt_count),
            )
            &&& state matches SearchState::Allocating { graph, base_opt_count, .. } ==> init.graph == graph
                && init.base_opt_count == base_opt_count
        },
        step.0 matches Some(SearchState::Allocating { graph, base_opt_count, .. }) ==> {
            &&& state matches SearchState::Preparing { graph: kept } ==> graph == kept && event == SearchEvent::Prepared(
                Ok(base_opt_count),
            )
            &&& state matches SearchState::Allocating { graph: kept, base_opt_count: count, .. } ==> graph == kept
                && base_opt_count == count
        },
{
}

} // verus!
