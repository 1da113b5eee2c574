//! The bounded cache of optimized and compiled kernels.

use std::collections::VecDeque;

use vstd::prelude::*;
use vstd::string::*;

use crate::device::DeviceSpec;
use crate::shared_map::{copy_key, entry, key_view, CacheKey, CacheKeyView, SharedMap};
use crate::text::{dec, law_only_digits_are_numbers, law_written_numbers_read_back, parse_usize, parsed};

verus! {

/// The key of a kernel: the hash of its graph, the name of its device, the
/// identity of the compiler, and the fingerprints of the renderer and of the
/// optimizer's settings.
pub fn optimized_kernel_key(
    ast_hash: u64,
    device: &DeviceSpec,
    compiler_identity: &str,
    renderer_fingerprint: u64,
    optimizer_fingerprint: u64,
) -> (key: CacheKey)
    ensures
        key_view(key) == (
            ast_hash,
            device.name(),
            compiler_identity@,
            renderer_fingerprint,
            optimizer_fingerprint,
        ),
{
    (ast_hash, device.canonicalize(), compiler_identity.to_owned(), renderer_fingerprint, optimizer_fingerprint)
}

/// What a list of keys holds.
pub open spec fn key_views(keys: Seq<CacheKey>) -> Seq<CacheKeyView> {
    Seq::new(keys.len(), |i: int| key_view(keys[i]))
}

/// The number of kernels that the cache holds where nothing else is asked for.
pub const DEFAULT_CAP: usize = 4096;

/// The kernels of the cache, and the order in which they came.
pub struct CacheModel {
    pub kernels: Map<CacheKeyView, u64>,
    pub order: Seq<CacheKeyView>,
}

impl CacheModel {
    /// Each kernel's key is in the order once, and nothing else is.
    pub open spec fn wf(self, cap: usize) -> bool {
        &&& self.order.no_duplicates()
        &&& self.order.len() <= cap
        &&& forall|key: CacheKeyView| #[trigger] self.kernels.dom().contains(key) <==> self.order.contains(key)
    }

    /// With `kernel` under `key`: a known key keeps its place; a new one comes
    /// last, and past the cap the first one leaves.
    pub open spec fn with(self, key: CacheKeyView, kernel: u64, cap: usize) -> CacheModel {
        if self.kernels.dom().contains(key) {
            CacheModel { kernels: self.kernels.insert(key, kernel), order: self.order }
        } else {
            let order = self.order.push(key);
            let kernels = self.kernels.insert(key, kernel);
            if order.len() <= cap {
                CacheModel { kernels, order }
            } else {
                CacheModel { kernels: kernels.remove(order[0]), order: order.drop_first() }
            }
        }
    }
}

/// The bounded cache of optimized and compiled kernels. A kernel is held by its
/// number in the caller's store; past the cap the oldest one leaves.
pub struct OptCacheState {
    map: SharedMap,
    fifo: VecDeque<CacheKey>,
    cap: usize,
}

/// The cap that a setting asks for: a number above 0, else the usual one.
pub open spec fn cap_of(setting: Option<Seq<char>>) -> usize {
    match setting {
        Some(text) => match parsed(text) {
            Some(n) => if n > 0 {
                n
            } else {
                DEFAULT_CAP
            },
            None => DEFAULT_CAP,
        },
        None => DEFAULT_CAP,
    }
}

impl OptCacheState {
    pub closed spec fn model(&self) -> CacheModel {
        CacheModel { kernels: self.map@, order: key_views(self.fifo@) }
    }

    pub closed spec fn capacity(&self) -> usize {
        self.cap
    }

    pub open spec fn wf(&self) -> bool {
        self.capacity() > 0 && self.model().wf(self.capacity())
    }

    /// An empty cache with the cap that a setting asks for.
    pub fn new(setting: Option<&str>) -> (cache: OptCacheState)
        ensures
            cache.wf(),
            cache.capacity() == cap_of(match setting {
                Some(text) => Some(text@),
                None => None,
            }),
            cache.model() == (CacheModel { kernels: Map::empty(), order: Seq::empty() }),
    {
        let cap: usize = match setting {
            Some(text) => match parse_usize(text) {
                Some(n) => if n > 0 { n } else { DEFAULT_CAP },
                None => DEFAULT_CAP,
            },
            None => DEFAULT_CAP,
        };
        let cache = OptCacheState { map: SharedMap::new(), fifo: VecDeque::new(), cap };
        assert(cache.model().order =~= Seq::<CacheKeyView>::empty());
        cache
    }

    /// Puts `kernel` under `key`.
    pub fn insert(&mut self, key: CacheKey, kernel: u64)
        requires
            old(self).wf(),
        ensures
            final(self).wf(),
            final(self).capacity() == old(self).capacity(),
            final(self).model() == old(self).model().with(key_view(key), kernel, old(self).capacity()),
    {
        let ghost before = self.model();
        let ghost view = key_view(key);
        let copy = copy_key(&key);
        let previous = self.map.insert(key, kernel);
        if previous.is_some() {
            return;
        }
        self.fifo.push_back(copy);
        proof {
            assert(key_views(self.fifo@) =~= before.order.push(view));
            assert(!before.kernels.dom().contains(view));
            assert(before.order.push(view).no_duplicates());
        }
        let ghost pushed = before.order.push(view);
        if self.fifo.len() > self.cap {
            if let Some(evict) = self.fifo.pop_front() {
                self.map.remove(&evict);
                proof {
                    assert(key_view(evict) == pushed[0]);
                    assert(key_views(self.fifo@) =~= pushed.drop_first());
                }
            }
        }
        proof {
            lemma_insert_keeps_wf(before, view, kernel, self.cap);
        }
    }

    /// The kernel under `key`.
    pub fn get(&self, key: &CacheKey) -> (kernel: Option<u64>)
        ensures
            kernel == entry(self.model().kernels, key_view(*key)),
    {
        self.map.get(key)
    }
}

/// Inserting keeps the order and the kernels together.
pub proof fn lemma_insert_keeps_wf(model: CacheModel, key: CacheKeyView, kernel: u64, cap: usize)
    requires
        model.wf(cap),
        cap > 0,
    ensures
        model.with(key, kernel, cap).wf(cap),
{
    let next = model.with(key, kernel, cap);
    if model.kernels.dom().contains(key) {
        assert forall|k: CacheKeyView| #[trigger] next.kernels.dom().contains(k) <==> next.order.contains(k) by {}
    } else {
        assert(!model.order.contains(key));
        let order = model.order.push(key);
        assert(order[model.order.len() as int] == key);
        assert(order.no_duplicates());
        assert forall|k: CacheKeyView| model.kernels.insert(key, kernel).dom().contains(k) <==> #[trigger] order.contains(
            k,
        ) by {
            if model.order.contains(k) {
                let i = choose|i: int| 0 <= i < model.order.len() && model.order[i] == k;
                assert(order[i] == k);
            }
            if order.contains(k) && k != key {
                let i = choose|i: int| 0 <= i < order.len() && order[i] == k;
                assert(model.order[i] == k);
            }
        }
        if order.len() > cap {
            let rest = order.drop_first();
            assert forall|k: CacheKeyView| #[trigger] next.kernels.dom().contains(k) <==> rest.contains(k) by {
                if rest.contains(k) {
                    let i = choose|i: int| 0 <= i < rest.len() && rest[i] == k;
                    assert(order[i + 1] == k);
                    assert(order.contains(k));
                    assert(k != order[0]);
                }
                if order.contains(k) && k != order[0] {
                    let i = choose|i: int| 0 <= i < order.len() && order[i] == k;
                    assert(rest[i - 1] == k);
                }
            }
        }
    }
}

// ---------------------------------------------------------------------------
// Laws
// ---------------------------------------------------------------------------

/// What was put into the cache is found there: under the key of an insertion
/// stands its kernel, and every other key that the cache still holds is as it
/// was.
pub proof fn law_inserted_kernels_are_found(model: CacheModel, key: CacheKeyView, kernel: u64, cap: usize)
    requires
        cap > 0,
        model.wf(cap),
    ensures
        model.with(key, kernel, cap).kernels.contains_pair(key, kernel),
        forall|other: CacheKeyView|
            other != key && #[trigger] model.with(key, kernel, cap).kernels.dom().contains(other)
                ==> model.kernels.contains_pair(other, model.with(key, kernel, cap).kernels[other]),
{
    let order = model.order.push(key);
    if !model.kernels.dom().contains(key) && order.len() > cap {
        assert(!model.order.contains(key));
        assert(order[0] != key) by {
            assert(model.order[0] == order[0]);
            assert(model.order.contains(model.order[0]));
        }
    }
}

/// The cache never holds more kernels than its cap, and only an insertion of a
/// new kernel into a full cache takes one out: the one that came first.
pub proof fn law_the_oldest_kernel_leaves(model: CacheModel, key: CacheKeyView, kernel: u64, cap: usize)
    requires
        cap > 0,
        model.wf(cap),
    ensures
        model.with(key, kernel, cap).order.len() <= cap,
        forall|other: CacheKeyView|
            #[trigger] model.kernels.dom().contains(other) && !model.with(key, kernel, cap).kernels.dom().contains(
                other,
            ) ==> other == model.order[0] && model.order.len() == cap && !model.kernels.dom().contains(key),
{
}

/// Inserting a kernel again changes its value and not its turn to leave.
pub proof fn law_reinsertion_keeps_the_order(model: CacheModel, key: CacheKeyView, kernel: u64, cap: usize)
    requires
        model.wf(cap),
        model.kernels.dom().contains(key),
    ensures
        model.with(key, kernel, cap).order == model.order,
        model.with(key, kernel, cap).kernels.dom() == model.kernels.dom(),
{
    assert(model.with(key, kernel, cap).kernels.dom() =~= model.kernels.dom());
}

/// A new kernel comes last, after all that stay, in the order in which they came:
/// kernels leave in the order of their first insertion.
pub proof fn law_kernels_leave_in_turn(
    model: CacheModel,
    key: CacheKeyView,
    kernel: u64,
    cap: usize,
    a: int,
    b: int,
)
    requires
        cap > 0,
        model.wf(cap),
        !model.kernels.dom().contains(key),
        0 <= a < b < model.order.len(),
    ensures
        ({
            let after = model.with(key, kernel, cap);
            let gone = model.order.len() + 1 - after.order.len();
            &&& after.order.last() == key
            &&& 0 <= gone <= 1
            &&& gone == 1 <==> model.order.len() == cap
            &&& gone <= a ==> after.order[a - gone] == model.order[a]
            &&& after.order[b - gone] == model.order[b]
            &&& after.kernels.dom().contains(model.order[b])
            &&& a == 0 ==> (after.kernels.dom().contains(model.order[a]) <==> model.order.len() < cap)
        }),
{
    let after = model.with(key, kernel, cap);
    assert(model.order.contains(model.order[a]) && model.order.contains(model.order[b]));
    assert(model.order[0] != model.order[b]);
}

/// The cap is the number that the setting says, where it says one above 0, and the
/// usual one otherwise: there is always room for a kernel.
pub proof fn law_caps_follow_the_setting(n: nat, text: Seq<char>, i: int)
    ensures
        cap_of(Some(dec(n))) == if 0 < n <= usize::MAX {
            n as usize
        } else {
            4096
        },
        cap_of(None) == 4096,
        0 <= i < text.len() && !('0' <= text[i] <= '9') && text[i] != '+' ==> cap_of(Some(text)) == 4096,
        cap_of(Some(text)) > 0,
{
    law_written_numbers_read_back(n);
    if 0 <= i < text.len() && parsed(text) is Some {
        law_only_digits_are_numbers(text, i);
    }
}

} // verus!
