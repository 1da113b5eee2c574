//! Building the kernels that a plan misses: what is optimized, named and compiled,
//! in which order, and what comes of it.

use vstd::prelude::*;

use crate::error::Error;
use crate::kernels::{
    comes_to, compile_missing_kernels, compile_threads, first_error, in_keys, is_missing,
    law_each_missing_kernel_is_compiled_once, lists_missing, missing_sites, optimized_jobs, part_optimized, published,
    site_key, KernelSite, OptimizerConfig,
};
use crate::opt_cache::OptCacheState;
use crate::schedule::copy_usizes;
use crate::shared_map::{copy_key, key_view, CacheKey, CacheKeyView};

verus! {

// ---------------------------------------------------------------------------
// Steps
// ---------------------------------------------------------------------------

/// What building the missing kernels of a plan waits for.
#[derive(Debug, PartialEq, Eq)]
pub enum BuildState {
    Starting,
    /// What optimizing the kernels of these sites comes to.
    Optimizing { jobs: Vec<usize> },
    /// The name of the next kernel. `kept` are the jobs that were optimized, with
    /// their kernels, and `named` the kernels that have names.
    Naming { jobs: Vec<usize>, kept: Vec<(usize, u64)>, named: Vec<u64>, failed: Option<Error> },
    /// What compiling the named kernels comes to.
    Compiling { jobs: Vec<usize>, kept: Vec<(usize, u64)>, named: Vec<u64>, failed: Option<Error> },
}

/// What came of the last action.
#[derive(Debug, PartialEq, Eq)]
pub enum BuildEvent {
    Begin,
    Optimized(Vec<Result<u64, Error>>),
    Named(u64),
    Compiled(Vec<Result<u64, Error>>),
}

/// What building does next.
#[derive(Debug, PartialEq, Eq)]
pub enum BuildAction {
    /// Optimize the kernels of these sites, on so many threads.
    Optimize { sites: Vec<usize>, threads: usize },
    /// Give an optimized kernel its name.
    Name { kernel: u64 },
    /// Compile these kernels, each for its site, on so many threads.
    Compile { kernels: Vec<(usize, u64)>, threads: usize },
    /// Nothing is left to do: the kernels with their keys, or the first failure.
    Done(Result<Vec<(CacheKey, u64)>, Error>),
}

/// The jobs are sites, and what was optimized are jobs.
pub open spec fn jobs_ok(sites: Seq<Option<KernelSite>>, jobs: Seq<usize>, kept: Seq<(usize, u64)>) -> bool {
    &&& forall|k: int| #![trigger jobs[k]] 0 <= k < jobs.len() ==> jobs[k] < sites.len() && sites[jobs[k] as int] is Some
    &&& forall|k: int| #![trigger kept[k]] 0 <= k < kept.len() ==> kept[k].0 < jobs.len()
}

/// A state that building can be in.
pub open spec fn build_ok(sites: Seq<Option<KernelSite>>, state: BuildState) -> bool {
    match state {
        BuildState::Starting => true,
        BuildState::Optimizing { jobs } => jobs_ok(sites, jobs@, Seq::empty()),
        BuildState::Naming { jobs, kept, named, .. } => jobs_ok(sites, jobs@, kept@) && named@.len() < kept@.len(),
        BuildState::Compiling { jobs, kept, named, .. } => jobs_ok(sites, jobs@, kept@) && named@.len() == kept@.len(),
    }
}

/// Whether an event can happen: each job has a result.
pub open spec fn build_awaits(state: BuildState, event: BuildEvent) -> bool {
    match (state, event) {
        (BuildState::Starting, BuildEvent::Begin) => true,
        (BuildState::Optimizing { jobs }, BuildEvent::Optimized(results)) => results@.len() == jobs@.len(),
        (BuildState::Naming { .. }, BuildEvent::Named(_)) => true,
        (BuildState::Compiling { kept, .. }, BuildEvent::Compiled(results)) => results@.len() == kept@.len(),
        _ => false,
    }
}

/// The keys of the jobs that were optimized.
pub open spec fn job_keys(sites: Seq<Option<KernelSite>>, jobs: Seq<usize>, kept: Seq<(usize, u64)>) -> Seq<CacheKey> {
    Seq::new(kept.len(), |k: int| sites[jobs[kept[k].0 as int] as int]->0.key)
}

/// What follows once `named` are the names so far: the next kernel in schedule
/// order is named, and when all are, each is compiled for its site under its name.
pub open spec fn names_on(
    jobs: Seq<usize>,
    kept: Seq<(usize, u64)>,
    named: Seq<u64>,
    failed: Option<Error>,
    threads: usize,
    step: (Option<BuildState>, BuildAction),
) -> bool {
    if named.len() < kept.len() {
        &&& step.0 matches Some(BuildState::Naming { jobs: j, kept: k, named: n, failed: f }) && j@ == jobs && k@ == kept
            && n@ == named && f == failed
        &&& step.1 == (BuildAction::Name { kernel: kept[named.len() as int].1 })
    } else {
        &&& step.0 matches Some(BuildState::Compiling { jobs: j, kept: k, named: n, failed: f }) && j@ == jobs && k@
            == kept && n@ == named && f == failed
        &&& step.1 matches BuildAction::Compile { kernels, threads: on } && on == threads && kernels@.len() == kept.len()
            && forall|k: int|
            #![trigger kernels@[k]]
            0 <= k < kept.len() ==> kernels@[k] == (jobs[kept[k].0 as int], named[k])
    }
}

/// What follows an event.
pub open spec fn build_steps(
    sites: Seq<Option<KernelSite>>,
    in_flight: Seq<CacheKey>,
    threads: usize,
    before: &OptCacheState,
    after: &OptCacheState,
    state: BuildState,
    event: BuildEvent,
    step: (Option<BuildState>, BuildAction),
) -> bool {
    match (state, event) {
        (BuildState::Starting, BuildEvent::Begin) => {
            &&& after.model() == before.model()
            &&& match step.0 {
                Some(BuildState::Optimizing { jobs }) => {
                    &&& jobs@.len() > 0
                    &&& lists_missing(sites, before, in_flight, jobs@)
                    &&& step.1 matches BuildAction::Optimize { sites: todo, threads: on } && todo@ == jobs@ && on
                        == threads
                },
                None => {
                    &&& lists_missing(sites, before, in_flight, Seq::empty())
                    &&& step.1 matches BuildAction::Done(Ok(pairs)) && pairs@.len() == 0
                },
                _ => false,
            }
        },
        (BuildState::Optimizing { jobs }, BuildEvent::Optimized(results)) => {
            &&& after.model() == before.model()
            &&& names_on(
                jobs@,
                optimized_jobs(results@, results@.len()),
                Seq::empty(),
                first_error(results@, results@.len()),
                threads,
                step,
            )
        },
        (BuildState::Naming { jobs, kept, named, failed }, BuildEvent::Named(name)) => {
            &&& after.model() == before.model()
            &&& names_on(jobs@, kept@, named@.push(name), failed, threads, step)
        },
        (BuildState::Compiling { jobs, kept, failed, .. }, BuildEvent::Compiled(results)) => {
            let keys = job_keys(sites, jobs@, kept@);
            &&& step.0 is None
            &&& after.model() == published(before.model(), keys, results@, results@.len(), before.capacity())
            &&& step.1 matches BuildAction::Done(kernels) && comes_to(keys, results@, failed, kernels)
        },
        _ => true,
    }
}

/// Names the next kernel, or compiles those that were named.
fn name_on(
    sites: &Vec<Option<KernelSite>>,
    jobs: Vec<usize>,
    kept: Vec<(usize, u64)>,
    named: Vec<u64>,
    failed: Option<Error>,
    threads: usize,
) -> (step: (Option<BuildState>, BuildAction))
    requires
        jobs_ok(sites@, jobs@, kept@),
        named@.len() <= kept@.len(),
    ensures
        names_on(jobs@, kept@, named@, failed, threads, step),
        step.0 matches Some(next) && build_ok(sites@, next),
{
    if named.len() < kept.len() {
        let kernel = kept[named.len()].1;
        return (Some(BuildState::Naming { jobs, kept, named, failed }), BuildAction::Name { kernel });
    }
    let mut kernels: Vec<(usize, u64)> = Vec::new();
    let mut k: usize = 0;
    while k < kept.len()
        invariant
            jobs_ok(sites@, jobs@, kept@),
            named@.len() == kept@.len(),
            k <= kept@.len(),
            kernels@.len() == k,
            forall|i: int| #![trigger kernels@[i]] 0 <= i < k ==> kernels@[i] == (jobs@[kept@[i].0 as int], named@[i]),
        decreases kept@.len() - k,
    {
        assert(kept@[k as int].0 < jobs@.len());
        kernels.push((jobs[kept[k].0], named[k]));
        k = k + 1;
    }
    (Some(BuildState::Compiling { jobs, kept, named, failed }), BuildAction::Compile { kernels, threads })
}

/// Takes what came of the last action of building the missing kernels of a plan
/// and gives the next.
///
/// The kernels that are neither cached nor being compiled by someone else are
/// optimized, each key once; those that were are named one by one, in schedule
/// order, whatever finished first; then they are compiled and published. A failure
/// stands, but only once the others are published.
pub fn build_missing(
    sites: &Vec<Option<KernelSite>>,
    in_flight: &Vec<CacheKey>,
    config: &OptimizerConfig,
    threads: usize,
    state: BuildState,
    event: BuildEvent,
    cache: &mut OptCacheState,
) -> (step: (Option<BuildState>, BuildAction))
    requires
        old(cache).wf(),
        build_ok(sites@, state),
        build_awaits(state, event),
    ensures
        final(cache).wf(),
        final(cache).capacity() == old(cache).capacity(),
        step.0 matches Some(next) ==> build_ok(sites@, next),
        build_steps(
            sites@,
            in_flight@,
            if config.is_beam() {
                1
            } else {
                threads
            },
            old(cache),
            final(cache),
            state,
            event,
            step,
        ),
{
    let threads = compile_threads(config, threads);
    match (state, event) {
        (BuildState::Starting, BuildEvent::Begin) => {
            let jobs = missing_sites(sites, cache, in_flight);
            if jobs.len() == 0 {
                assert(jobs@ =~= Seq::<usize>::empty());
                return (None, BuildAction::Done(Ok(Vec::new())));
            }
            assert forall|k: int| #![trigger jobs@[k]] 0 <= k < jobs@.len() implies jobs@[k] < sites@.len()
                && sites@[jobs@[k] as int] is Some by {
                assert(is_missing(sites@, cache, in_flight@, jobs@[k] as int));
            }
            let todo = copy_usizes(&jobs);
            (Some(BuildState::Optimizing { jobs }), BuildAction::Optimize { sites: todo, threads })
        }
        (BuildState::Optimizing { jobs }, BuildEvent::Optimized(results)) => {
            let ghost all = results@;
            let count = results.len();
            let (kept, failed) = part_optimized(results);
            proof {
                assert forall|k: int| #![trigger kept@[k]] 0 <= k < kept@.len() implies kept@[k].0 < jobs@.len() by {
                    assert(all.len() == count);
                    lemma_kept_in_range(all, all.len(), k);
                }
            }
            let named: Vec<u64> = Vec::new();
            assert(named@ =~= Seq::<u64>::empty());
            name_on(sites, jobs, kept, named, failed, threads)
        }
        (BuildState::Naming { jobs, kept, named, failed }, BuildEvent::Named(name)) => {
            let mut named = named;
            named.push(name);
            name_on(sites, jobs, kept, named, failed, threads)
        }
        (BuildState::Compiling { jobs, kept, failed, .. }, BuildEvent::Compiled(results)) => {
            let mut keys: Vec<CacheKey> = Vec::new();
            let mut k: usize = 0;
            while k < kept.len()
                invariant
                    jobs_ok(sites@, jobs@, kept@),
                    k <= kept@.len(),
                    keys@.len() == k,
                    forall|i: int|
                        #![trigger keys@[i]]
                        0 <= i < k ==> keys@[i] == sites@[jobs@[kept@[i].0 as int] as int]->0.key,
                decreases kept@.len() - k,
            {
                assert(kept@[k as int].0 < jobs@.len());
                let at = jobs[kept[k].0];
                assert(sites@[at as int] is Some);
                if let Some(site) = &sites[at] {
                    keys.push(copy_key(&site.key));
                }
                k = k + 1;
            }
            assert(keys@ =~= job_keys(sites@, jobs@, kept@));
            (None, BuildAction::Done(compile_missing_kernels(&keys, results, failed, cache)))
        }
        _ => (None, BuildAction::Done(Ok(Vec::new()))),
    }
}

// ---------------------------------------------------------------------------
// Runs
// ---------------------------------------------------------------------------

/// Two ascending lists with the same members are the same.
proof fn lemma_ascending_unique(a: Seq<usize>, b: Seq<usize>)
    requires
        forall|i: int, j: int| #![trigger a[i], a[j]] 0 <= i < j < a.len() ==> a[i] < a[j],
        forall|i: int, j: int| #![trigger b[i], b[j]] 0 <= i < j < b.len() ==> b[i] < b[j],
        forall|i: int| #![trigger a[i]] 0 <= i < a.len() ==> b.contains(a[i]),
        forall|i: int| #![trigger b[i]] 0 <= i < b.len() ==> a.contains(b[i]),
    ensures
        a == b,
    decreases a.len(),
{
    if a.len() == 0 {
        if b.len() > 0 {
            assert(a.contains(b[0]));
        }
        assert(a =~= b);
    } else {
        assert(b.contains(a.last()));
        assert(a.contains(b.last()));
        let p = choose|p: int| 0 <= p < b.len() && b[p] == a.last();
        let q = choose|q: int| 0 <= q < a.len() && a[q] == b.last();
        assert(a.last() == b.last()) by {
            if p < b.len() - 1 {
                assert(b[p] < b[b.len() - 1]);
                if q < a.len() - 1 {
                    assert(a[q] < a[a.len() - 1]);
                }
            }
        }
        let (x, y) = (a.drop_last(), b.drop_last());
        assert forall|i: int| #![trigger x[i]] 0 <= i < x.len() implies y.contains(x[i]) by {
            assert(b.contains(a[i]));
            let k = choose|k: int| 0 <= k < b.len() && b[k] == a[i];
            assert(a[i] < a[a.len() - 1]);
            assert(y[k] == x[i]);
        }
        assert forall|i: int| #![trigger y[i]] 0 <= i < y.len() implies x.contains(y[i]) by {
            assert(a.contains(b[i]));
            let k = choose|k: int| 0 <= k < a.len() && a[k] == b[i];
            assert(b[i] < b[b.len() - 1]);
            assert(x[k] == y[i]);
        }
        lemma_ascending_unique(x, y);
        assert(a =~= x.push(a.last()));
        assert(b =~= y.push(b.last()));
    }
}

/// What optimizing, naming and compiling the missing kernels of a plan came to.
pub struct BatchRun {
    /// The sites that were compiled.
    pub jobs: Seq<usize>,
    /// What optimizing each of them came to.
    pub optimized: Seq<Result<u64, Error>>,
    /// The names of those that were optimized.
    pub named: Seq<u64>,
    /// The keys of those, and what compiling them came to.
    pub keys: Seq<CacheKeyView>,
    pub compiled: Seq<Result<u64, Error>>,
}

impl BatchRun {
    /// The jobs that were optimized, with their kernels, in order.
    pub open spec fn kept(self) -> Seq<(usize, u64)> {
        optimized_jobs(self.optimized, self.optimized.len())
    }

    /// This is a run over the missing kernels of `sites`: each was optimized as
    /// `optimize` says for its key; names were drawn in schedule order, where
    /// `draw` says which comes after those that were drawn before; and each was
    /// compiled as `compile` says for its key and its name.
    pub open spec fn runs(
        self,
        sites: Seq<Option<KernelSite>>,
        cache: &OptCacheState,
        in_flight: Seq<CacheKey>,
        optimize: spec_fn(Option<CacheKeyView>) -> Result<u64, Error>,
        draw: spec_fn(Seq<u64>, u64) -> u64,
        compile: spec_fn(CacheKeyView, u64) -> Result<u64, Error>,
    ) -> bool {
        let kept = self.kept();
        &&& lists_missing(sites, cache, in_flight, self.jobs)
        &&& self.optimized.len() == self.jobs.len()
        &&& forall|k: int|
            #![trigger self.optimized[k]]
            0 <= k < self.jobs.len() ==> self.optimized[k] == optimize(site_key(sites, self.jobs[k] as int))
        &&& self.named.len() == kept.len()
        &&& self.keys.len() == kept.len()
        &&& self.compiled.len() == kept.len()
        &&& forall|k: int|
            #![trigger self.named[k]]
            0 <= k < kept.len() ==> self.named[k] == draw(self.named.subrange(0, k), kept[k].1)
        &&& forall|k: int|
            #![trigger self.keys[k]]
            0 <= k < kept.len() ==> site_key(sites, self.jobs[kept[k].0 as int] as int) == Some(self.keys[k])
        &&& forall|k: int|
            #![trigger self.compiled[k]]
            0 <= k < kept.len() ==> self.compiled[k] == compile(self.keys[k], self.named[k])
    }
}

proof fn lemma_same_names(a: BatchRun, b: BatchRun, draw: spec_fn(Seq<u64>, u64) -> u64, k: int)
    requires
        a.kept() == b.kept(),
        a.named.len() == a.kept().len(),
        b.named.len() == b.kept().len(),
        forall|i: int|
            #![trigger a.named[i]]
            0 <= i < a.kept().len() ==> a.named[i] == draw(a.named.subrange(0, i), a.kept()[i].1),
        forall|i: int|
            #![trigger b.named[i]]
            0 <= i < b.kept().len() ==> b.named[i] == draw(b.named.subrange(0, i), b.kept()[i].1),
        0 <= k <= a.named.len(),
    ensures
        a.named.subrange(0, k) == b.named.subrange(0, k),
    decreases k,
{
    if k > 0 {
        lemma_same_names(a, b, draw, k - 1);
        assert(a.named[k - 1] == b.named[k - 1]);
        assert(a.named.subrange(0, k) =~= a.named.subrange(0, k - 1).push(a.named[k - 1]));
        assert(b.named.subrange(0, k) =~= b.named.subrange(0, k - 1).push(b.named[k - 1]));
    } else {
        assert(a.named.subrange(0, 0) =~= b.named.subrange(0, 0));
    }
}

/// What is compiled does not depend on how many threads it is compiled on: two
/// runs over the same sites from the same cache compile the same kernels, each
/// key once, under the same names and with the same results, whatever finished
/// first. What is compiled is what is neither cached nor being compiled by
/// someone else.
pub proof fn law_kernels_do_not_depend_on_threads(
    sites: Seq<Option<KernelSite>>,
    cache: &OptCacheState,
    other: &OptCacheState,
    in_flight: Seq<CacheKey>,
    a: BatchRun,
    b: BatchRun,
    optimize: spec_fn(Option<CacheKeyView>) -> Result<u64, Error>,
    draw: spec_fn(Seq<u64>, u64) -> u64,
    compile: spec_fn(CacheKeyView, u64) -> Result<u64, Error>,
)
    requires
        cache.model() == other.model(),
        a.runs(sites, cache, in_flight, optimize, draw, compile),
        b.runs(sites, other, in_flight, optimize, draw, compile),
        sites.len() <= usize::MAX,
    ensures
        a.jobs == b.jobs,
        a.named == b.named,
        a.keys == b.keys,
        a.compiled == b.compiled,
        forall|i: int, j: int|
            #![trigger site_key(sites, a.jobs[i] as int), site_key(sites, a.jobs[j] as int)]
            0 <= i < j < a.jobs.len() ==> site_key(sites, a.jobs[i] as int) != site_key(sites, a.jobs[j] as int),
        forall|k: int|
            #![trigger a.keys[k]]
            0 <= k < a.keys.len() ==> !cache.model().kernels.dom().contains(a.keys[k]) && !in_keys(
                in_flight,
                a.keys[k],
            ),
{
    assert forall|i: int| is_missing(sites, cache, in_flight, i) == is_missing(sites, other, in_flight, i) by {}
    assert forall|i: int| #![trigger a.jobs[i]] 0 <= i < a.jobs.len() implies b.jobs.contains(a.jobs[i]) by {
        assert(is_missing(sites, other, in_flight, a.jobs[i] as int));
    }
    assert forall|i: int| #![trigger b.jobs[i]] 0 <= i < b.jobs.len() implies a.jobs.contains(b.jobs[i]) by {
        assert(is_missing(sites, cache, in_flight, b.jobs[i] as int));
    }
    lemma_ascending_unique(a.jobs, b.jobs);
    if a.jobs.len() > 0 {
        lemma_ascending_floor(a.jobs, a.jobs.len() - 1);
    }
    assert forall|k: int| 0 <= k < a.optimized.len() implies a.optimized[k] == b.optimized[k] by {
        let _ = (a.optimized[k], b.optimized[k]);
    }
    assert(a.optimized =~= b.optimized);
    lemma_same_names(a, b, draw, a.named.len() as int);
    assert(a.named.subrange(0, a.named.len() as int) =~= a.named);
    assert(b.named.subrange(0, b.named.len() as int) =~= b.named);
    assert forall|k: int| 0 <= k < a.keys.len() implies a.keys[k] == b.keys[k] by {
        assert(Some(a.keys[k]) == Some(b.keys[k]));
    }
    assert(a.keys =~= b.keys);
    assert forall|k: int| 0 <= k < a.compiled.len() implies a.compiled[k] == b.compiled[k] by {}
    assert(a.compiled =~= b.compiled);
    assert forall|i: int, j: int|
        #![trigger site_key(sites, a.jobs[i] as int), site_key(sites, a.jobs[j] as int)]
        0 <= i < j < a.jobs.len() implies site_key(sites, a.jobs[i] as int) != site_key(sites, a.jobs[j] as int) by {
        law_each_missing_kernel_is_compiled_once(sites, cache, in_flight, a.jobs[i] as int, a.jobs[j] as int);
    }
    assert forall|k: int| #![trigger a.keys[k]] 0 <= k < a.keys.len() implies !cache.model().kernels.dom().contains(
        a.keys[k],
    ) && !in_keys(in_flight, a.keys[k]) by {
        lemma_kept_in_range(a.optimized, a.optimized.len(), k);
        assert(is_missing(sites, cache, in_flight, a.jobs[a.kept()[k].0 as int] as int));
    }
}

proof fn lemma_ascending_floor(jobs: Seq<usize>, k: int)
    requires
        forall|i: int, j: int| #![trigger jobs[i], jobs[j]] 0 <= i < j < jobs.len() ==> jobs[i] < jobs[j],
        0 <= k < jobs.len(),
    ensures
        k <= jobs[k],
    decreases k,
{
    if k > 0 {
        lemma_ascending_floor(jobs, k - 1);
        assert(jobs[k - 1] < jobs[k]);
    }
}

proof fn lemma_kept_in_range(optimized: Seq<Result<u64, Error>>, n: nat, k: int)
    requires
        n <= optimized.len(),
        n <= usize::MAX,
        0 <= k < optimized_jobs(optimized, n).len(),
    ensures
        0 <= optimized_jobs(optimized, n)[k].0 < n,
    decreases n,
{
    if n > 0 {
        let earlier = optimized_jobs(optimized, (n - 1) as nat);
        if k < earlier.len() {
            lemma_kept_in_range(optimized, (n - 1) as nat, k);
        }
    }
}

// ---------------------------------------------------------------------------
// Steps of runs
// ---------------------------------------------------------------------------

/// What optimizing each of the jobs comes to.
pub open spec fn optimized_as(
    sites: Seq<Option<KernelSite>>,
    jobs: Seq<usize>,
    optimize: spec_fn(Option<CacheKeyView>) -> Result<u64, Error>,
) -> Seq<Result<u64, Error>> {
    Seq::new(jobs.len(), |k: int| optimize(site_key(sites, jobs[k] as int)))
}

/// A state that a run comes to over the kernels that were missing at its start,
/// where they are optimized as `optimize` says and named as `draw` says.
pub open spec fn on_the_way(
    sites: Seq<Option<KernelSite>>,
    cache: &OptCacheState,
    in_flight: Seq<CacheKey>,
    optimize: spec_fn(Option<CacheKeyView>) -> Result<u64, Error>,
    draw: spec_fn(Seq<u64>, u64) -> u64,
    state: BuildState,
) -> bool {
    match state {
        BuildState::Starting => true,
        BuildState::Optimizing { jobs } => lists_missing(sites, cache, in_flight, jobs@),
        BuildState::Naming { jobs, kept, named, failed } => {
            &&& lists_missing(sites, cache, in_flight, jobs@)
            &&& named_as(optimized_as(sites, jobs@, optimize), draw, kept@, named@, failed)
        },
        BuildState::Compiling { jobs, kept, named, failed } => {
            &&& lists_missing(sites, cache, in_flight, jobs@)
            &&& named_as(optimized_as(sites, jobs@, optimize), draw, kept@, named@, failed)
        },
    }
}

/// What was optimized is kept, with the first failure, and names were drawn as
/// `draw` says, in order.
pub open spec fn named_as(
    optimized: Seq<Result<u64, Error>>,
    draw: spec_fn(Seq<u64>, u64) -> u64,
    kept: Seq<(usize, u64)>,
    named: Seq<u64>,
    failed: Option<Error>,
) -> bool {
    &&& kept == optimized_jobs(optimized, optimized.len())
    &&& failed == first_error(optimized, optimized.len())
    &&& named.len() <= kept.len()
    &&& forall|k: int| #![trigger named[k]] 0 <= k < named.len() ==> named[k] == draw(named.subrange(0, k), kept[k].1)
}

/// An event tells what these say of the state's work.
pub open spec fn tells(
    sites: Seq<Option<KernelSite>>,
    optimize: spec_fn(Option<CacheKeyView>) -> Result<u64, Error>,
    draw: spec_fn(Seq<u64>, u64) -> u64,
    compile: spec_fn(CacheKeyView, u64) -> Result<u64, Error>,
    state: BuildState,
    event: BuildEvent,
) -> bool {
    match (state, event) {
        (BuildState::Optimizing { jobs }, BuildEvent::Optimized(results)) => results@ == optimized_as(
            sites,
            jobs@,
            optimize,
        ),
        (BuildState::Naming { kept, named, .. }, BuildEvent::Named(name)) => name == draw(
            named@,
            kept@[named@.len() as int].1,
        ),
        (BuildState::Compiling { jobs, kept, named, .. }, BuildEvent::Compiled(results)) => {
            let keys = job_keys(sites, jobs@, kept@);
            &&& results@.len() == kept@.len()
            &&& forall|k: int|
                #![trigger results@[k]]
                0 <= k < kept@.len() ==> results@[k] == compile(key_view(keys[k]), named@[k])
        },
        _ => true,
    }
}

/// Each step keeps to the run: the kernels that were missing at the start are
/// optimized, those that were are named in schedule order, and the first failure
/// is kept.
pub proof fn law_building_keeps_to_its_run(
    sites: Seq<Option<KernelSite>>,
    in_flight: Seq<CacheKey>,
    threads: usize,
    start: &OptCacheState,
    before: &OptCacheState,
    after: &OptCacheState,
    optimize: spec_fn(Option<CacheKeyView>) -> Result<u64, Error>,
    draw: spec_fn(Seq<u64>, u64) -> u64,
    compile: spec_fn(CacheKeyView, u64) -> Result<u64, Error>,
    state: BuildState,
    event: BuildEvent,
    step: (Option<BuildState>, BuildAction),
)
    requires
        build_ok(sites, state),
        build_awaits(state, event),
        state is Starting ==> before.model() == start.model(),
        on_the_way(sites, start, in_flight, optimize, draw, state),
        tells(sites, optimize, draw, compile, state, event),
        build_steps(sites, in_flight, threads, before, after, state, event, step),
    ensures
        step.0 matches Some(next) ==> on_the_way(sites, start, in_flight, optimize, draw, next),
{
    assert forall|i: int| is_missing(sites, start, in_flight, i) == is_missing(sites, before, in_flight, i)
        || !(state is Starting) by {}
    match (state, event) {
        (BuildState::Starting, BuildEvent::Begin) => {
            if let Some(BuildState::Optimizing { jobs }) = step.0 {
                assert forall|a: int| #![trigger jobs@[a]] 0 <= a < jobs@.len() implies jobs@[a] < sites.len()
                    && is_missing(sites, start, in_flight, jobs@[a] as int) by {
                    assert(is_missing(sites, before, in_flight, jobs@[a] as int));
                }
                assert forall|i: int|
                    0 <= i < sites.len() && #[trigger] is_missing(sites, start, in_flight, i) implies jobs@.contains(
                    i as usize,
                ) by {
                    assert(is_missing(sites, before, in_flight, i));
                }
            }
        },
        (BuildState::Naming { named, kept, .. }, BuildEvent::Named(name)) => {
            let more = named@.push(name);
            assert forall|k: int| #![trigger more[k]] 0 <= k < more.len() implies more[k] == draw(
                more.subrange(0, k),
                kept@[k].1,
            ) by {
                if k < named@.len() {
                    assert(more[k] == named@[k]);
                    assert(more.subrange(0, k) =~= named@.subrange(0, k));
                } else {
                    assert(more.subrange(0, k) =~= named@);
                }
            }
        },
        _ => {},
    }
}

/// Each step asks for what it then waits for: the missing sites are optimized, each once;
/// the kernels that were are named one after the other, from the first on; and each is
/// compiled for its own site, under its own name.
pub proof fn law_builds_ask_for_what_they_wait_for(
    sites: Seq<Option<KernelSite>>,
    in_flight: Seq<CacheKey>,
    threads: usize,
    before: &OptCacheState,
    after: &OptCacheState,
    state: BuildState,
    event: BuildEvent,
    step: (Option<BuildState>, BuildAction),
)
    requires
        build_ok(sites, state),
        build_awaits(state, event),
        build_steps(sites, in_flight, threads, before, after, state, event, step),
    ensures
        step.0 is None <==> step.1 is Done,
        step.0 matches Some(BuildState::Optimizing { jobs }) ==> jobs@.len() > 0 && (step.1 matches BuildAction::Optimize {
            sites: todo,
            threads: on,
        } && todo@ == jobs@ && on == threads),
        step.0 matches Some(BuildState::Naming { kept, named, .. }) ==> named@.len() < kept@.len() && step.1 == (
        BuildAction::Name { kernel: kept@[named@.len() as int].1 }),
        step.0 matches Some(BuildState::Compiling { jobs, kept, named, .. }) ==> named@.len() == kept@.len() && (
        step.1 matches BuildAction::Compile { kernels, threads: on } && on == threads && kernels@.len() == kept@.len()
            && forall|k: int|
            #![trigger kernels@[k]]
            0 <= k < kernels@.len() ==> kernels@[k].0 == jobs@[kept@[k].0 as int] && kernels@[k].1 == named@[k]),
        !(state is Compiling) ==> after.model() == before.model(),
        state is Starting ==> (step.1 is Done <==> forall|i: int|
            0 <= i < sites.len() ==> !#[trigger] is_missing(sites, before, in_flight, i)),
{
    match (state, event) {
        (BuildState::Optimizing { jobs }, BuildEvent::Optimized(results)) => {
            lemma_kept_no_longer(results@, results@.len());
        },
        (BuildState::Starting, BuildEvent::Begin) => {
            if let Some(BuildState::Optimizing { jobs }) = step.0 {
                assert(is_missing(sites, before, in_flight, jobs@[0] as int));
            } else {
                assert forall|i: int| 0 <= i < sites.len() implies !#[trigger] is_missing(sites, before, in_flight, i) by {
                    if is_missing(sites, before, in_flight, i) {
                        assert(Seq::<usize>::empty().contains(i as usize));
                    }
                }
            }
        },
        _ => {},
    }
}

proof fn lemma_kept_no_longer(results: Seq<Result<u64, Error>>, k: nat)
    ensures
        optimized_jobs(results, k).len() <= k,
    decreases k,
{
    if k > 0 {
        lemma_kept_no_longer(results, (k - 1) as nat);
    }
}

/// When the last step is told what compiling came to, the whole was a run: what
/// does not depend on threads of a run does not depend on them here.
pub proof fn law_a_build_is_a_run(
    sites: Seq<Option<KernelSite>>,
    cache: &OptCacheState,
    in_flight: Seq<CacheKey>,
    optimize: spec_fn(Option<CacheKeyView>) -> Result<u64, Error>,
    draw: spec_fn(Seq<u64>, u64) -> u64,
    compile: spec_fn(CacheKeyView, u64) -> Result<u64, Error>,
    jobs: Vec<usize>,
    kept: Vec<(usize, u64)>,
    named: Vec<u64>,
    failed: Option<Error>,
    results: Vec<Result<u64, Error>>,
)
    requires
        build_ok(sites, (BuildState::Compiling { jobs, kept, named, failed })),
        on_the_way(sites, cache, in_flight, optimize, draw, (BuildState::Compiling { jobs, kept, named, failed })),
        tells(
            sites,
            optimize,
            draw,
            compile,
            (BuildState::Compiling { jobs, kept, named, failed }),
            BuildEvent::Compiled(results),
        ),
    ensures
        (BatchRun {
            jobs: jobs@,
            optimized: optimized_as(sites, jobs@, optimize),
            named: named@,
            keys: views_of(job_keys(sites, jobs@, kept@)),
            compiled: results@,
        }).runs(sites, cache, in_flight, optimize, draw, compile),
{
    let keys = views_of(job_keys(sites, jobs@, kept@));
    assert forall|k: int| #![trigger keys[k]] 0 <= k < kept@.len() implies site_key(
        sites,
        jobs@[kept@[k].0 as int] as int,
    ) == Some(keys[k]) by {
        assert(kept@[k].0 < jobs@.len());
        assert(sites[jobs@[kept@[k].0 as int] as int] is Some);
    }
    assert forall|k: int| #![trigger results@[k]] 0 <= k < kept@.len() implies results@[k] == compile(
        keys[k],
        named@[k],
    ) by {
        assert(keys[k] == key_view(job_keys(sites, jobs@, kept@)[k]));
    }
}

/// What a list of keys holds.
pub open spec fn views_of(keys: Seq<CacheKey>) -> Seq<CacheKeyView> {
    Seq::new(keys.len(), |k: int| key_view(keys[k]))
}

} // verus!
