//! Which kernels of a plan have to be compiled, and what comes of it.

use vstd::prelude::*;
use vstd::string::*;

use crate::device::{law_device_names_are_distinct, same_device, DeviceSpec, GpuArch};
use crate::error::Error;
use crate::graph::{Graph, Op};
use crate::beam::law_search_keys_follow_behavior;
use crate::opt::{biased, law_stored_plans_are_distinct, opts_words, Opt};
use crate::opt_cache::{law_inserted_kernels_are_found, lemma_insert_keeps_wf, optimized_kernel_key, CacheModel, OptCacheState};
use crate::renderer::{
    device_profile, flag, flag_word, get_optimizer_renderer, hash_of_words, hash_words, is_bound, retargeted, Profile,
    Renderer, RendererOps, Reported,
};
use crate::schedule::{Buffer, ScheduleItem};
use crate::shared_map::{copy_key, entry, key_view, same_key, CacheKey, CacheKeyView};
use crate::worker::BeamConfig;

verus! {

/// How kernels are optimized.
#[derive(Clone, Copy, Debug, PartialEq, Eq, Structural)]
pub enum OptStrategy {
    /// By rules.
    Heuristic,
    /// By timing candidates, the best `width` of which are kept.
    Beam { width: usize },
}

/// The settings of the optimizer.
#[derive(Debug, PartialEq, Eq)]
pub struct OptimizerConfig {
    pub strategy: OptStrategy,
    /// The optimizations to apply to every kernel, in place of any search.
    pub opts_to_apply: Option<Vec<Opt>>,
    /// A hash of all that the rules are told.
    pub heuristics: u64,
    pub beam: BeamConfig,
    pub transcendental: i32,
    pub disable_fast_idiv: bool,
}

impl OptimizerConfig {
    /// Whether kernels are optimized by timing candidates.
    pub open spec fn is_beam(&self) -> bool {
        self.strategy is Beam
    }

    fn beams(&self) -> (yes: bool)
        ensures
            yes == self.is_beam(),
    {
        match self.strategy {
            OptStrategy::Beam { .. } => true,
            OptStrategy::Heuristic => false,
        }
    }
}

/// A device that an item's kernel is compiled for, and its compiler.
#[derive(Debug, PartialEq, Eq)]
pub struct ResolvedDevice {
    pub device: DeviceSpec,
    pub compiler_key: String,
    pub gpu_arch: Option<GpuArch>,
    /// The target that the code generator reports.
    pub target: Option<String>,
    /// The operations that it renders.
    pub ops: RendererOps,
    /// What the optimizer reports of the device.
    pub reported: Reported,
}

impl ResolvedDevice {
    /// What kernels for this device are optimized for.
    pub open spec fn profile(&self) -> Profile {
        retargeted(device_profile(self.device, self.gpu_arch, self.reported), self.target)
    }
}

/// The compiled-kernel work of a schedule item.
#[derive(Debug, PartialEq, Eq)]
pub struct KernelSite {
    pub key: CacheKey,
    pub renderer: Renderer,
    /// The buffers to time candidates on; none where nothing is timed.
    pub buffers: Vec<Buffer>,
}

/// Whether a kernel is to be optimized by given optimizations: the settings or
/// the kernel itself name them.
pub open spec fn has_explicit_opts(config: &OptimizerConfig, ast: &Graph) -> bool {
    config.opts_to_apply is Some || (ast.nodes@.last().op matches Op::Sink { explicit_opts } && explicit_opts)
}

/// A site is the work of an item on a resolved device.
pub open spec fn is_site(
    site: KernelSite,
    item: &ScheduleItem,
    ast_hash: u64,
    resolved: &ResolvedDevice,
    config: &OptimizerConfig,
    optimizer_fingerprint: u64,
) -> bool {
    &&& key_view(site.key) == (
        ast_hash,
        resolved.device.name(),
        resolved.compiler_key@,
        hash_words(site.renderer.words()),
        optimizer_fingerprint,
    )
    &&& is_bound(site.renderer, resolved.profile(), resolved.ops)
    &&& site.buffers@ == if config.is_beam() {
        item.buffers@
    } else {
        Seq::empty()
    }
}

fn copy_buffers(buffers: &Vec<Buffer>) -> (copy: Vec<Buffer>)
    ensures
        copy@ == buffers@,
{
    let mut copy: Vec<Buffer> = Vec::new();
    let mut i: usize = 0;
    while i < buffers.len()
        invariant
            i <= buffers@.len(),
            copy@ == buffers@.subrange(0, i as int),
        decreases buffers@.len() - i,
    {
        copy.push(buffers[i].copy());
        i = i + 1;
    }
    assert(copy@ =~= buffers@);
    copy
}

impl KernelSite {
    /// The work of an item on a resolved device: the key that its kernel is
    /// cached under, and the buffers to time candidates on under beam search.
    pub fn resolve(
        item: &ScheduleItem,
        ast_hash: u64,
        resolved: &ResolvedDevice,
        config: &OptimizerConfig,
        optimizer_fingerprint: u64,
    ) -> (site: KernelSite)
        ensures
            is_site(site, item, ast_hash, resolved, config, optimizer_fingerprint),
    {
        let target = match &resolved.target {
            Some(target) => Some(target.clone()),
            None => None,
        };
        let renderer = get_optimizer_renderer(
            &resolved.device,
            resolved.gpu_arch,
            target,
            resolved.ops.copy(),
            &resolved.reported,
        );
        let key = optimized_kernel_key(
            ast_hash,
            &resolved.device,
            resolved.compiler_key.as_str(),
            renderer.cache_fingerprint(),
            optimizer_fingerprint,
        );
        let buffers = if config.beams() { copy_buffers(&item.buffers) } else { Vec::new() };
        KernelSite { key, renderer, buffers }
    }

    /// The compiler that the kernel is compiled with.
    pub fn codegen(&self) -> (compiler: &str)
        ensures
            compiler@ == key_view(self.key).2,
    {
        self.key.2.as_str()
    }

    /// The kernel, if it is cached.
    pub fn cached(&self, cache: &OptCacheState) -> (kernel: Option<u64>)
        ensures
            kernel == entry(cache.model().kernels, key_view(self.key)),
    {
        cache.get(&self.key)
    }

    /// The kernel that a plan launches at this site: the one that its batch compiled
    /// under the site's key, else one that is cached meanwhile. There is none where
    /// the kernel was left to someone else who failed; it has to be built then.
    pub fn kernel(&self, compiled: &Vec<(CacheKey, u64)>, cache: &OptCacheState) -> (kernel: Option<u64>)
        ensures
            kernel == match first_of_key(compiled@, key_view(self.key), compiled@.len()) {
                Some(kernel) => Some(kernel),
                None => entry(cache.model().kernels, key_view(self.key)),
            },
    {
        let mut i: usize = 0;
        while i < compiled.len()
            invariant
                i <= compiled@.len(),
                first_of_key(compiled@, key_view(self.key), i as nat) is None,
            decreases compiled@.len() - i,
        {
            if same_key(&compiled[i].0, &self.key) {
                proof {
                    lemma_first_of_key(compiled@, key_view(self.key), (i + 1) as nat, compiled@.len());
                }
                return Some(compiled[i].1);
            }
            i = i + 1;
        }
        self.cached(cache)
    }

    /// Publishes the kernel that was built, where one was.
    pub fn compile(&self, built: Result<u64, Error>, cache: &mut OptCacheState) -> (kernel: Result<u64, Error>)
        requires
            old(cache).wf(),
        ensures
            kernel == built,
            final(cache).wf(),
            final(cache).capacity() == old(cache).capacity(),
            final(cache).model() == match built {
                Ok(kernel) => old(cache).model().with(key_view(self.key), kernel, old(cache).capacity()),
                Err(_) => old(cache).model(),
            },
    {
        match built {
            Ok(kernel) => {
                cache.insert(copy_key(&self.key), kernel);
                Ok(kernel)
            }
            Err(error) => Err(error),
        }
    }

    /// Whether a kernel is optimized by beam search: where the strategy says so
    /// and no optimizations are given for it.
    pub fn searches(ast: &Graph, config: &OptimizerConfig) -> (search: bool)
        requires
            ast.wf(),
        ensures
            search == (!has_explicit_opts(config, ast) && config.is_beam()),
    {
        let own = match ast.nodes[ast.nodes.len() - 1].op {
            Op::Sink { explicit_opts } => explicit_opts,
            _ => false,
        };
        !config.opts_to_apply.is_some() && !own && config.beams()
    }
}

/// The number of threads that kernels are compiled on: one under beam search,
/// which has processes of its own.
pub fn compile_threads(config: &OptimizerConfig, threads: usize) -> (used: usize)
    ensures
        used == if config.is_beam() {
            1
        } else {
            threads
        },
{
    if config.beams() { 1 } else { threads }
}

// ---------------------------------------------------------------------------
// Missing kernels
// ---------------------------------------------------------------------------

/// What the site at `i` is cached under.
pub open spec fn site_key(sites: Seq<Option<KernelSite>>, i: int) -> Option<CacheKeyView> {
    match sites[i] {
        Some(site) => Some(key_view(site.key)),
        None => None,
    }
}

/// One of the first `k` sites has this key.
pub open spec fn seen_before(sites: Seq<Option<KernelSite>>, k: int, key: CacheKeyView) -> bool {
    exists|j: int| 0 <= j < k && #[trigger] site_key(sites, j) == Some(key)
}

/// One of the keys is this one.
pub open spec fn in_keys(keys: Seq<CacheKey>, key: CacheKeyView) -> bool {
    exists|j: int| #![trigger keys[j]] 0 <= j < keys.len() && key_view(keys[j]) == key
}

/// The site at `i` has to be compiled: it is the first of its key, and its
/// kernel is neither cached nor being compiled by someone else.
pub open spec fn is_missing(
    sites: Seq<Option<KernelSite>>,
    cache: &OptCacheState,
    in_flight: Seq<CacheKey>,
    i: int,
) -> bool {
    site_key(sites, i) matches Some(key) && !seen_before(sites, i, key) && !cache.model().kernels.dom().contains(key)
        && !in_keys(in_flight, key)
}

fn holds_key(keys: &Vec<CacheKey>, key: &CacheKey) -> (found: bool)
    ensures
        found == in_keys(keys@, key_view(*key)),
{
    let mut i: usize = 0;
    while i < keys.len()
        invariant
            i <= keys@.len(),
            forall|j: int| #![trigger keys@[j]] 0 <= j < i ==> key_view(keys@[j]) != key_view(*key),
        decreases keys@.len() - i,
    {
        if same_key(&keys[i], key) {
            assert(key_view(keys@[i as int]) == key_view(*key));
            return true;
        }
        i = i + 1;
    }
    false
}

fn first_of_its_key(sites: &Vec<Option<KernelSite>>, at: usize, key: &CacheKey) -> (first: bool)
    requires
        at <= sites@.len(),
    ensures
        first == !seen_before(sites@, at as int, key_view(*key)),
{
    let mut i: usize = 0;
    while i < at
        invariant
            i <= at,
            at <= sites@.len(),
            forall|j: int| 0 <= j < i ==> #[trigger] site_key(sites@, j) != Some(key_view(*key)),
        decreases at - i,
    {
        if let Some(site) = &sites[i] {
            if same_key(&site.key, key) {
                assert(site_key(sites@, i as int) == Some(key_view(*key)));
                return false;
            }
        }
        i = i + 1;
    }
    true
}

/// `jobs` are the sites that have to be compiled, in schedule order.
pub open spec fn lists_missing(
    sites: Seq<Option<KernelSite>>,
    cache: &OptCacheState,
    in_flight: Seq<CacheKey>,
    jobs: Seq<usize>,
) -> bool {
    &&& forall|a: int, b: int| #![trigger jobs[a], jobs[b]] 0 <= a < b < jobs.len() ==> jobs[a] < jobs[b]
    &&& forall|a: int|
        #![trigger jobs[a]]
        0 <= a < jobs.len() ==> jobs[a] < sites.len() && is_missing(sites, cache, in_flight, jobs[a] as int)
    &&& forall|i: int|
        0 <= i < sites.len() && #[trigger] is_missing(sites, cache, in_flight, i) ==> jobs.contains(i as usize)
}

/// The sites of a plan whose kernels have to be compiled, in schedule order:
/// one for each key that is neither cached nor being compiled already.
pub fn missing_sites(
    sites: &Vec<Option<KernelSite>>,
    cache: &OptCacheState,
    in_flight: &Vec<CacheKey>,
) -> (jobs: Vec<usize>)
    ensures
        lists_missing(sites@, cache, in_flight@, jobs@),
{
    let mut jobs: Vec<usize> = Vec::new();
    let mut i: usize = 0;
    while i < sites.len()
        invariant
            i <= sites@.len(),
            forall|a: int, b: int| #![trigger jobs@[a], jobs@[b]] 0 <= a < b < jobs@.len() ==> jobs@[a] < jobs@[b],
            forall|a: int|
                #![trigger jobs@[a]]
                0 <= a < jobs@.len() ==> jobs@[a] < i && is_missing(sites@, cache, in_flight@, jobs@[a] as int),
            forall|k: int|
                0 <= k < i && #[trigger] is_missing(sites@, cache, in_flight@, k) ==> jobs@.contains(k as usize),
        decreases sites@.len() - i,
    {
        let ghost before = jobs@;
        let mut missing = false;
        if let Some(site) = &sites[i] {
            missing = first_of_its_key(sites, i, &site.key) && cache.get(&site.key).is_none() && !holds_key(
                in_flight,
                &site.key,
            );
        }
        assert(missing == is_missing(sites@, cache, in_flight@, i as int));
        if missing {
            jobs.push(i);
        }
        proof {
            assert forall|k: int| 0 <= k < i + 1 && #[trigger] is_missing(sites@, cache, in_flight@, k) implies jobs@.contains(
                k as usize,
            ) by {
                if k < i {
                    assert(before.contains(k as usize));
                    let a = choose|a: int| 0 <= a < before.len() && before[a] == k as usize;
                    assert(jobs@[a] == k as usize);
                } else {
                    assert(jobs@[before.len() as int] == i);
                }
            }
        }
        i = i + 1;
    }
    jobs
}

/// The positions of the jobs that were optimized, in order, among the first
/// `k`.
pub open spec fn optimized_jobs(optimized: Seq<Result<u64, Error>>, k: nat) -> Seq<(usize, u64)>
    decreases k,
{
    if k == 0 {
        Seq::empty()
    } else {
        match optimized[k - 1] {
            Ok(ast) => optimized_jobs(optimized, (k - 1) as nat).push(((k - 1) as usize, ast)),
            Err(_) => optimized_jobs(optimized, (k - 1) as nat),
        }
    }
}

/// The first error among the first `k` results.
pub open spec fn first_error(results: Seq<Result<u64, Error>>, k: nat) -> Option<Error>
    decreases k,
{
    if k == 0 {
        None
    } else {
        match first_error(results, (k - 1) as nat) {
            Some(error) => Some(error),
            None => match results[k - 1] {
                Ok(_) => None,
                Err(error) => Some(error),
            },
        }
    }
}

/// Parts the jobs that were optimized, which are to be named and compiled in
/// this order, from those that failed, of which the first is kept: it fails the
/// batch only once the others are compiled.
pub fn part_optimized(optimized: Vec<Result<u64, Error>>) -> (parted: (Vec<(usize, u64)>, Option<Error>))
    ensures
        parted.0@ == optimized_jobs(optimized@, optimized@.len()),
        parted.1 == first_error(optimized@, optimized@.len()),
{
    let ghost all = optimized@;
    let mut rest = optimized;
    let mut named: Vec<(usize, u64)> = Vec::new();
    let mut failed: Option<Error> = None;
    let n = rest.len();
    let mut i: usize = 0;
    while i < n
        invariant
            i <= n,
            n == all.len(),
            rest@ == all.subrange(i as int, n as int),
            named@ == optimized_jobs(all, i as nat),
            failed == first_error(all, i as nat),
        decreases n - i,
    {
        let result = rest.remove(0);
        assert(result == all[i as int]);
        match result {
            Ok(ast) => named.push((i, ast)),
            Err(error) => {
                if failed.is_none() {
                    failed = Some(error);
                }
            }
        }
        assert(rest@ =~= all.subrange(i + 1, n as int));
        i = i + 1;
    }
    (named, failed)
}

/// The kernels of a batch, with their keys.
pub open spec fn compiled_pairs(keys: Seq<CacheKey>, results: Seq<Result<u64, Error>>, k: nat) -> Seq<
    (CacheKeyView, u64),
>
    decreases k,
{
    if k == 0 {
        Seq::empty()
    } else {
        match results[k - 1] {
            Ok(kernel) => compiled_pairs(keys, results, (k - 1) as nat).push((key_view(keys[k - 1]), kernel)),
            Err(_) => compiled_pairs(keys, results, (k - 1) as nat),
        }
    }
}

/// The first of the first `k` kernels that has this key.
pub open spec fn first_of_key(pairs: Seq<(CacheKey, u64)>, key: CacheKeyView, k: nat) -> Option<u64>
    decreases k,
{
    if k == 0 {
        None
    } else {
        match first_of_key(pairs, key, (k - 1) as nat) {
            Some(kernel) => Some(kernel),
            None => if key_view(pairs[k - 1].0) == key {
                Some(pairs[k - 1].1)
            } else {
                None
            },
        }
    }
}

proof fn lemma_first_of_key(pairs: Seq<(CacheKey, u64)>, key: CacheKeyView, k: nat, n: nat)
    requires
        k <= n,
        first_of_key(pairs, key, k) is Some,
    ensures
        first_of_key(pairs, key, n) == first_of_key(pairs, key, k),
    decreases n - k,
{
    if k < n {
        lemma_first_of_key(pairs, key, k, (n - 1) as nat);
    }
}

/// Kernels with what their keys hold.
pub open spec fn pair_views(pairs: Seq<(CacheKey, u64)>) -> Seq<(CacheKeyView, u64)> {
    Seq::new(pairs.len(), |i: int| (key_view(pairs[i].0), pairs[i].1))
}

/// The cache once the kernels among the first `k` results are published, in
/// order.
pub open spec fn published(
    model: CacheModel,
    keys: Seq<CacheKey>,
    results: Seq<Result<u64, Error>>,
    k: nat,
    cap: usize,
) -> CacheModel
    decreases k,
{
    if k == 0 {
        model
    } else {
        let earlier = published(model, keys, results, (k - 1) as nat, cap);
        match results[k - 1] {
            Ok(kernel) => earlier.with(key_view(keys[k - 1]), kernel, cap),
            Err(_) => earlier,
        }
    }
}

/// What a batch comes to: the first failure to optimize, else the first failure to
/// compile, else all kernels with their keys.
pub open spec fn comes_to(
    keys: Seq<CacheKey>,
    compiled: Seq<Result<u64, Error>>,
    failed: Option<Error>,
    kernels: Result<Vec<(CacheKey, u64)>, Error>,
) -> bool {
    match (failed, first_error(compiled, compiled.len())) {
        (Some(error), _) => kernels == Err::<Vec<(CacheKey, u64)>, Error>(error),
        (None, Some(error)) => kernels == Err::<Vec<(CacheKey, u64)>, Error>(error),
        (None, None) => kernels matches Ok(pairs) && pair_views(pairs@) == compiled_pairs(
            keys,
            compiled,
            compiled.len(),
        ) && pairs@.len() == keys.len(),
    }
}

/// What comes of a batch: the first failure to optimize, else the first failure
/// to compile, else all kernels with their keys. Whatever was compiled is
/// published first, so that it is found when the batch is tried again.
pub fn compile_missing_kernels(
    keys: &Vec<CacheKey>,
    compiled: Vec<Result<u64, Error>>,
    failed: Option<Error>,
    cache: &mut OptCacheState,
) -> (kernels: Result<Vec<(CacheKey, u64)>, Error>)
    requires
        keys@.len() == compiled@.len(),
        old(cache).wf(),
    ensures
        final(cache).wf(),
        final(cache).capacity() == old(cache).capacity(),
        final(cache).model() == published(
            old(cache).model(),
            keys@,
            compiled@,
            compiled@.len(),
            old(cache).capacity(),
        ),
        comes_to(keys@, compiled@, failed, kernels),
{
    let ghost all = compiled@;
    let ghost model = cache.model();
    let ghost cap = cache.capacity();
    let mut rest = compiled;
    let mut pairs: Vec<(CacheKey, u64)> = Vec::new();
    let mut broken: Option<Error> = None;
    let n = rest.len();
    let mut i: usize = 0;
    assert(pair_views(pairs@) =~= compiled_pairs(keys@, all, 0));
    while i < n
        invariant
            i <= n,
            n == all.len(),
            n == keys@.len(),
            rest@ == all.subrange(i as int, n as int),
            broken is None ==> pairs@.len() == i,
            pair_views(pairs@) == compiled_pairs(keys@, all, i as nat),
            broken == first_error(all, i as nat),
            cache.wf(),
            cache.capacity() == cap,
            cache.model() == published(model, keys@, all, i as nat, cap),
        decreases n - i,
    {
        let result = rest.remove(0);
        assert(result == all[i as int]);
        match result {
            Ok(kernel) => {
                let ghost before = pairs@;
                cache.insert(copy_key(&keys[i]), kernel);
                pairs.push((copy_key(&keys[i]), kernel));
                assert(pair_views(pairs@) =~= pair_views(before).push((key_view(keys@[i as int]), kernel)));
            }
            Err(error) => {
                if broken.is_none() {
                    broken = Some(error);
                }
            }
        }
        assert(rest@ =~= all.subrange(i + 1, n as int));
        i = i + 1;
    }
    if let Some(error) = failed {
        return Err(error);
    }
    if let Some(error) = broken {
        return Err(error);
    }
    Ok(pairs)
}

/// Kernels that were compiled are found when a batch is tried again, though
/// another one failed: where the batch compiled what was missing, and is no
/// larger than the cache, no site of their keys is missing any more, however full
/// the cache was.
pub proof fn law_a_retry_finds_what_was_compiled(
    model: CacheModel,
    keys: Seq<CacheKey>,
    results: Seq<Result<u64, Error>>,
    cap: usize,
    cache: &OptCacheState,
    sites: Seq<Option<KernelSite>>,
    in_flight: Seq<CacheKey>,
    i: int,
    at: int,
)
    requires
        cap > 0,
        model.wf(cap),
        keys.len() == results.len(),
        results.len() <= cap,
        forall|j: int|
            #![trigger keys[j]]
            0 <= j < keys.len() && results[j] is Ok ==> !model.kernels.dom().contains(key_view(keys[j])),
        cache.model() == published(model, keys, results, results.len(), cap),
        0 <= i < results.len(),
        results[i] is Ok,
        0 <= at < sites.len(),
        site_key(sites, at) == Some(key_view(keys[i])),
    ensures
        !is_missing(sites, cache, in_flight, at),
{
    let after = published(model, keys, results, results.len(), cap);
    let start = lemma_published_stays(model, keys, results, results.len(), cap);
    let batch = after.order.subrange(start, after.order.len() as int);
    assert(batch.contains(key_view(keys[i])));
    let place = choose|place: int| 0 <= place < batch.len() && batch[place] == key_view(keys[i]);
    assert(after.order[start + place] == key_view(keys[i]));
    assert(after.order.contains(key_view(keys[i])));
}

/// What a batch has published stands last in the order, from `start` on; before
/// it stands what was there.
proof fn lemma_published_stays(
    model: CacheModel,
    keys: Seq<CacheKey>,
    results: Seq<Result<u64, Error>>,
    k: nat,
    cap: usize,
) -> (start: int)
    requires
        cap > 0,
        model.wf(cap),
        k <= results.len() == keys.len(),
        results.len() <= cap,
        forall|j: int|
            #![trigger keys[j]]
            0 <= j < keys.len() && results[j] is Ok ==> !model.kernels.dom().contains(key_view(keys[j])),
    ensures
        published(model, keys, results, k, cap).wf(cap),
        ({
            let order = published(model, keys, results, k, cap).order;
            &&& 0 <= start <= order.len()
            &&& order.len() - start <= k
            &&& forall|p: int| #![trigger order[p]] 0 <= p < start ==> model.order.contains(order[p])
            &&& forall|j: int|
                #![trigger keys[j]]
                0 <= j < k && results[j] is Ok ==> order.subrange(start, order.len() as int).contains(key_view(keys[j]))
        }),
    decreases k,
{
    let order = published(model, keys, results, k, cap).order;
    if k == 0 {
        assert forall|p: int| #![trigger order[p]] 0 <= p < order.len() implies model.order.contains(order[p]) by {}
        order.len() as int
    } else {
        let before = lemma_published_stays(model, keys, results, (k - 1) as nat, cap);
        let earlier = published(model, keys, results, (k - 1) as nat, cap);
        let old_order = earlier.order;
        let batch = old_order.subrange(before, old_order.len() as int);
        match results[k - 1] {
            Err(_) => before,
            Ok(kernel) => {
                let key = key_view(keys[k - 1]);
                lemma_insert_keeps_wf(earlier, key, kernel, cap);
                if earlier.kernels.dom().contains(key) {
                    assert(old_order.contains(key));
                    let p = choose|p: int| 0 <= p < old_order.len() && old_order[p] == key;
                    assert(p >= before) by {
                        if p < before {
                            assert(model.order.contains(old_order[p]));
                            assert(model.kernels.dom().contains(key_view(keys[k - 1])));
                        }
                    }
                    assert(batch[p - before] == key);
                    before
                } else {
                    let evicts = old_order.len() + 1 > cap;
                    let start = if evicts { before - 1 } else { before };
                    let now = order.subrange(start, order.len() as int);
                    assert(start >= 0);
                    assert(now =~= batch.push(key));
                    assert(now[batch.len() as int] == key);
                    assert forall|j: int| #![trigger keys[j]] 0 <= j < k && results[j] is Ok implies now.contains(
                        key_view(keys[j]),
                    ) by {
                        if j < k - 1 {
                            assert(batch.contains(key_view(keys[j])));
                            let q = choose|q: int| 0 <= q < batch.len() && batch[q] == key_view(keys[j]);
                            assert(now[q] == key_view(keys[j]));
                        }
                    }
                    assert forall|p: int| #![trigger order[p]] 0 <= p < start implies model.order.contains(order[p]) by {
                        assert(order[p] == old_order[if evicts { p + 1 } else { p }]);
                    }
                    start
                }
            }
        }
    }
}

/// No kernel is compiled twice: different jobs have different keys, and every
/// site's kernel is cached, compiled by a job or compiled by someone else.
pub proof fn law_each_missing_kernel_is_compiled_once(
    sites: Seq<Option<KernelSite>>,
    cache: &OptCacheState,
    in_flight: Seq<CacheKey>,
    a: int,
    b: int,
)
    requires
        0 <= a < sites.len(),
        0 <= b < sites.len(),
    ensures
        is_missing(sites, cache, in_flight, a) && is_missing(sites, cache, in_flight, b) && a != b ==> site_key(
            sites,
            a,
        ) != site_key(sites, b),
        site_key(sites, a) matches Some(key) ==> cache.model().kernels.dom().contains(key) || in_keys(in_flight, key)
            || exists|i: int|
            0 <= i <= a && #[trigger] is_missing(sites, cache, in_flight, i) && site_key(sites, i) == Some(key),
    decreases a,
{
    if a < b {
        assert(site_key(sites, a) == site_key(sites, a));
    }
    if let Some(key) = site_key(sites, a) {
        if !cache.model().kernels.dom().contains(key) && !in_keys(in_flight, key) {
            if seen_before(sites, a, key) {
                let j = choose|j: int| 0 <= j < a && #[trigger] site_key(sites, j) == Some(key);
                law_each_missing_kernel_is_compiled_once(sites, cache, in_flight, j, j);
                let i = choose|i: int|
                    0 <= i <= j && #[trigger] is_missing(sites, cache, in_flight, i) && site_key(sites, i) == Some(key);
                assert(is_missing(sites, cache, in_flight, i));
            } else {
                assert(is_missing(sites, cache, in_flight, a));
            }
        }
    }
}

/// What was compiled under a key is what is found under it afterwards, where the batch
/// compiled what was missing, each key once, and is no larger than the cache.
pub proof fn law_published_kernels_are_found(
    model: CacheModel,
    keys: Seq<CacheKey>,
    results: Seq<Result<u64, Error>>,
    k: nat,
    cap: usize,
    i: int,
)
    requires
        cap > 0,
        model.wf(cap),
        k <= results.len() == keys.len(),
        results.len() <= cap,
        forall|j: int|
            #![trigger keys[j]]
            0 <= j < keys.len() && results[j] is Ok ==> !model.kernels.dom().contains(key_view(keys[j])),
        forall|a: int, b: int|
            #![trigger keys[a], keys[b]]
            0 <= a < b < keys.len() ==> key_view(keys[a]) != key_view(keys[b]),
        0 <= i < k,
        results[i] is Ok,
    ensures
        published(model, keys, results, k, cap).kernels.contains_pair(key_view(keys[i]), results[i]->Ok_0),
    decreases k,
{
    let after = published(model, keys, results, k, cap);
    let start = lemma_published_stays(model, keys, results, k, cap);
    let batch = after.order.subrange(start, after.order.len() as int);
    assert(batch.contains(key_view(keys[i])));
    let place = choose|place: int| 0 <= place < batch.len() && batch[place] == key_view(keys[i]);
    assert(after.order[start + place] == key_view(keys[i]));
    assert(after.order.contains(key_view(keys[i])));
    let before = published(model, keys, results, (k - 1) as nat, cap);
    let _ = lemma_published_stays(model, keys, results, (k - 1) as nat, cap);
    if let Ok(kernel) = results[k - 1] {
        law_inserted_kernels_are_found(before, key_view(keys[k - 1]), kernel, cap);
    }
    if i < k - 1 {
        law_published_kernels_are_found(model, keys, results, (k - 1) as nat, cap, i);
        assert(key_view(keys[i]) != key_view(keys[k - 1]));
    }
}

/// What could be optimized goes on, each job with its own kernel, in order, and nothing
/// else does; the failure that is kept is the first.
pub proof fn law_jobs_that_were_optimized_go_on(results: Seq<Result<u64, Error>>, k: nat, i: int, a: int, b: int)
    requires
        k <= results.len() <= usize::MAX,
    ensures
        ({
            let kept = optimized_jobs(results, k);
            &&& 0 <= i < k ==> (results[i] matches Ok(kernel) ==> kept.contains((i as usize, kernel)))
            &&& 0 <= a < kept.len() ==> kept[a].0 < k && results[kept[a].0 as int] == Ok::<u64, Error>(kept[a].1)
            &&& 0 <= a < b < kept.len() ==> kept[a].0 < kept[b].0
            &&& first_error(results, k) is None <==> forall|j: int| #![trigger results[j]] 0 <= j < k ==> results[j] is Ok
            &&& 0 <= i < k && results[i] is Err && (forall|j: int| #![trigger results[j]] 0 <= j < i ==> results[j] is Ok)
                ==> first_error(results, k) == Some(results[i]->Err_0)
        }),
    decreases k,
{
    if k > 0 {
        let kept = optimized_jobs(results, k);
        let before = optimized_jobs(results, (k - 1) as nat);
        law_jobs_that_were_optimized_go_on(results, (k - 1) as nat, i, a, b);
        if results[k - 1] is Ok {
            assert(kept[before.len() as int] == ((k - 1) as usize, results[k - 1]->Ok_0));
            if 0 <= i < k - 1 && results[i] is Ok {
                let x = choose|x: int| 0 <= x < before.len() && before[x] == (i as usize, results[i]->Ok_0);
                assert(kept[x] == before[x]);
            }
        }
    }
}

/// A batch that failed nowhere comes to one kernel for each key, in order; one that
/// failed comes to the first failure to optimize, before any to compile.
pub proof fn law_batches_come_to_all_their_kernels(
    keys: Seq<CacheKey>,
    compiled: Seq<Result<u64, Error>>,
    failed: Option<Error>,
    kernels: Result<Vec<(CacheKey, u64)>, Error>,
    i: int,
)
    requires
        keys.len() == compiled.len() <= usize::MAX,
        comes_to(keys, compiled, failed, kernels),
        0 <= i < keys.len(),
    ensures
        failed matches Some(error) ==> kernels == Err::<Vec<(CacheKey, u64)>, Error>(error),
        failed is None ==> (kernels is Ok <==> forall|j: int|
            #![trigger compiled[j]]
            0 <= j < compiled.len() ==> compiled[j] is Ok),
        failed is None && compiled[i] is Err && (forall|j: int| #![trigger compiled[j]] 0 <= j < i ==> compiled[j] is Ok)
            ==> kernels == Err::<Vec<(CacheKey, u64)>, Error>(compiled[i]->Err_0),
        kernels matches Ok(pairs) ==> pairs@.len() == keys.len() && key_view(pairs@[i].0) == key_view(keys[i])
            && compiled[i] == Ok::<u64, Error>(pairs@[i].1),
{
    law_jobs_that_were_optimized_go_on(compiled, compiled.len(), i, 0, 0);
    if let Ok(pairs) = kernels {
        lemma_pairs_in_order(keys, compiled, compiled.len(), i);
        assert(pair_views(pairs@)[i] == (key_view(pairs@[i].0), pairs@[i].1));
    }
}

proof fn lemma_pairs_in_order(keys: Seq<CacheKey>, compiled: Seq<Result<u64, Error>>, k: nat, i: int)
    requires
        k <= compiled.len() == keys.len(),
        forall|j: int| #![trigger compiled[j]] 0 <= j < k ==> compiled[j] is Ok,
    ensures
        compiled_pairs(keys, compiled, k).len() == k,
        0 <= i < k ==> compiled_pairs(keys, compiled, k)[i] == (key_view(keys[i]), compiled[i]->Ok_0),
    decreases k,
{
    if k > 0 {
        lemma_pairs_in_order(keys, compiled, (k - 1) as nat, i);
    }
}

/// A site launches what its batch compiled under its key, whatever is cached.
pub proof fn law_sites_find_their_own_kernel(pairs: Seq<(CacheKey, u64)>, key: CacheKeyView, k: nat, i: int)
    requires
        k <= pairs.len(),
    ensures
        first_of_key(pairs, key, k) is None <==> forall|j: int|
            #![trigger pairs[j]]
            0 <= j < k ==> key_view(pairs[j].0) != key,
        0 <= i < k && key_view(pairs[i].0) == key && (forall|j: int|
            #![trigger pairs[j]]
            0 <= j < i ==> key_view(pairs[j].0) != key) ==> first_of_key(pairs, key, k) == Some(pairs[i].1),
    decreases k,
{
    if k > 0 {
        law_sites_find_their_own_kernel(pairs, key, (k - 1) as nat, i);
    }
}

/// Kernels are looked up by all of what they depend on: sites share a key only where
/// graph, device, compiler, renderer and settings are the same, up to collisions of
/// hashes.
pub proof fn law_keys_hold_all_of_a_kernel(a: CacheKey, b: CacheKey)
    ensures
        key_view(a) == key_view(b) <==> a.0 == b.0 && a.1@ == b.1@ && a.2@ == b.2@ && a.3 == b.3 && a.4 == b.4,
{
}

/// Sites share a kernel only where graph, device, compiler and settings are the same, and
/// their profiles have one fingerprint; the buffers of an item are timed if and only if
/// candidates are.
pub proof fn law_sites_share_kernels_of_one_kind(
    a: KernelSite,
    b: KernelSite,
    item_a: &ScheduleItem,
    item_b: &ScheduleItem,
    hash_a: u64,
    hash_b: u64,
    resolved_a: &ResolvedDevice,
    resolved_b: &ResolvedDevice,
    config: &OptimizerConfig,
    fingerprint_a: u64,
    fingerprint_b: u64,
)
    requires
        is_site(a, item_a, hash_a, resolved_a, config, fingerprint_a),
        is_site(b, item_b, hash_b, resolved_b, config, fingerprint_b),
    ensures
        key_view(a.key) == key_view(b.key) <==> {
            &&& hash_a == hash_b
            &&& same_device(resolved_a.device, resolved_b.device)
            &&& resolved_a.compiler_key@ == resolved_b.compiler_key@
            &&& hash_words(a.renderer.words()) == hash_words(b.renderer.words())
            &&& fingerprint_a == fingerprint_b
        },
        config.strategy is Beam ==> a.buffers@ == item_a.buffers@,
        config.strategy is Heuristic ==> a.buffers@.len() == 0,
{
    law_device_names_are_distinct(resolved_a.device, resolved_b.device);
}

/// A kernel is searched for only where the strategy is to time candidates; one with
/// optimizations of its own, or of the settings, is not.
pub proof fn law_given_optimizations_are_not_searched(config: &OptimizerConfig, ast: &Graph)
    requires
        ast.wf(),
    ensures
        has_explicit_opts(config, ast) <==> config.opts_to_apply is Some || ast.root().op == (Op::Sink {
            explicit_opts: true,
        }),
        config.is_beam() <==> exists|width: usize| config.strategy == (OptStrategy::Beam { width }),
{
    if config.is_beam() {
        let width = config.strategy->Beam_width;
        assert(config.strategy == (OptStrategy::Beam { width }));
    }
}

// ---------------------------------------------------------------------------
// Settings in keys
// ---------------------------------------------------------------------------

impl OptimizerConfig {
    /// The settings as words.
    pub open spec fn words(&self) -> Seq<u64> {
        let width = match self.strategy {
            OptStrategy::Heuristic => 0u64,
            OptStrategy::Beam { width } => width as u64,
        };
        let given = match self.opts_to_apply {
            Some(opts) => opts_words(opts@),
            None => Seq::empty(),
        };
        seq![
            flag(self.is_beam()),
            width,
            biased(self.transcendental),
            flag(self.disable_fast_idiv),
            flag(self.opts_to_apply is Some),
            self.heuristics,
            self.beam.compile_workers as u64,
            self.beam.max_tasks_per_child as u64,
            flag(self.beam.disable_cache),
        ] + self.beam.behavior() + given
    }
}

/// The identity of the optimizer's settings in the keys of kernels: the hash of
/// all of them.
pub fn optimizer_config_fingerprint(config: &OptimizerConfig) -> (fingerprint: u64)
    ensures
        fingerprint == hash_words(config.words()),
{
    let mut words: Vec<u64> = Vec::new();
    words.push(flag_word(config.beams()));
    words.push(match config.strategy {
        OptStrategy::Heuristic => 0,
        OptStrategy::Beam { width } => width as u64,
    });
    words.push((config.transcendental as i64 + 0x8000_0000) as u64);
    words.push(flag_word(config.disable_fast_idiv));
    words.push(flag_word(config.opts_to_apply.is_some()));
    words.push(config.heuristics);
    words.push(config.beam.compile_workers as u64);
    words.push(config.beam.max_tasks_per_child as u64);
    words.push(flag_word(config.beam.disable_cache));
    let mut beam = config.beam.behavior_words();
    words.append(&mut beam);
    if let Some(opts) = &config.opts_to_apply {
        let mut given = crate::opt::to_opts_words(opts);
        words.append(&mut given);
    }
    assert(words@ =~= config.words());
    hash_of_words(&words)
}

/// Settings that differ anywhere have different words: the keys of their kernels
/// differ up to collisions of the hash.
pub proof fn law_settings_are_told_apart(a: OptimizerConfig, b: OptimizerConfig)
    requires
        a.words() == b.words(),
    ensures
        a.strategy == b.strategy,
        a.transcendental == b.transcendental,
        a.disable_fast_idiv == b.disable_fast_idiv,
        a.heuristics == b.heuristics,
        a.beam == b.beam,
        match (a.opts_to_apply, b.opts_to_apply) {
            (Some(x), Some(y)) => x@ == y@,
            (None, None) => true,
            _ => false,
        },
{
    let x = a.words();
    let y = b.words();
    assert(x[0] == y[0] && x[1] == y[1] && x[2] == y[2] && x[3] == y[3] && x[4] == y[4] && x[5] == y[5] && x[6] == y[6]
        && x[7] == y[7] && x[8] == y[8]);
    assert(x.subrange(9, 17) =~= a.beam.behavior());
    assert(y.subrange(9, 17) =~= b.beam.behavior());
    law_search_keys_follow_behavior(a.beam, b.beam);
    if a.opts_to_apply is Some {
        let (p, q) = (a.opts_to_apply->0, b.opts_to_apply->0);
        assert(x.subrange(17, x.len() as int) =~= opts_words(p@));
        assert(y.subrange(17, y.len() as int) =~= opts_words(q@));
        assert(p.len() == p@.len() && q.len() == q@.len());
        law_stored_plans_are_distinct(p@, q@);
    }
}

} // verus!
