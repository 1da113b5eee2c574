//! Maps from cache keys to the numbers of what is cached.

use vstd::prelude::*;
use vstd::string::*;

verus! {

/// What something cached depends on: a hash and up to two names and two further
/// hashes, as its cache has them.
pub type CacheKey = (u64, String, String, u64, u64);

/// A key by what it holds.
pub type CacheKeyView = (u64, Seq<char>, Seq<char>, u64, u64);

/// What a key holds.
pub open spec fn key_view(key: CacheKey) -> CacheKeyView {
    (key.0, key.1@, key.2@, key.3, key.4)
}

/// The same key.
pub fn copy_key(key: &CacheKey) -> (copy: CacheKey)
    ensures
        copy == *key,
{
    (key.0, key.1.clone(), key.2.clone(), key.3, key.4)
}

/// Whether two keys hold the same.
pub fn same_key(a: &CacheKey, b: &CacheKey) -> (same: bool)
    ensures
        same == (key_view(*a) == key_view(*b)),
{
    a.0 == b.0 && a.1 == b.1 && a.2 == b.2 && a.3 == b.3 && a.4 == b.4
}

/// `papaya::HashMap`, a hash map that can be shared between threads.
#[verifier::external_type_specification]
#[verifier::external_body]
#[verifier::reject_recursive_types(K)]
#[verifier::reject_recursive_types(V)]
#[verifier::reject_recursive_types(S)]
pub struct ExHashMap<K, V, S>(papaya::HashMap<K, V, S>);

/// What a map holds under each key.
pub uninterp spec fn entries_in(map: papaya::HashMap<CacheKey, u64>) -> Map<CacheKeyView, u64>;

/// No entries.
pub open spec fn no_entries() -> Map<CacheKeyView, u64> {
    Map::empty()
}

/// `papaya::HashMap::new`: an empty map.
#[verifier::external_body]
fn map_new() -> (map: papaya::HashMap<CacheKey, u64>)
    ensures
        entries_in(map) == no_entries(),
{
    papaya::HashMap::new()
}

/// `papaya::HashMapRef::insert`, through `HashMap::pin`: the key holds the new
/// value afterwards and every other key what it held; the value that the key
/// held before comes back.
#[verifier::external_body]
fn map_insert(map: &mut papaya::HashMap<CacheKey, u64>, key: CacheKey, value: u64) -> (previous: Option<u64>)
    ensures
        entries_in(*final(map)) == entries_in(*old(map)).insert(key_view(key), value),
        previous == if entries_in(*old(map)).dom().contains(key_view(key)) {
            Some(entries_in(*old(map))[key_view(key)])
        } else {
            None
        },
{
    let pinned = map.pin();
    let previous = pinned.insert(key, value).copied();
    previous
}

/// `papaya::HashMapRef::remove`, through `HashMap::pin`: the key holds nothing
/// afterwards and every other key what it held.
#[verifier::external_body]
fn map_remove(map: &mut papaya::HashMap<CacheKey, u64>, key: &CacheKey)
    ensures
        entries_in(*final(map)) == entries_in(*old(map)).remove(key_view(*key)),
{
    let pinned = map.pin();
    pinned.remove(key);
}

/// `papaya::HashMapRef::get`, through `HashMap::pin`: the value that the key
/// holds.
#[verifier::external_body]
fn map_get(map: &papaya::HashMap<CacheKey, u64>, key: &CacheKey) -> (value: Option<u64>)
    ensures
        value == if entries_in(*map).dom().contains(key_view(*key)) {
            Some(entries_in(*map)[key_view(*key)])
        } else {
            None
        },
{
    let pinned = map.pin();
    let value = pinned.get(key).copied();
    value
}

/// A map that finds what is cached by its number.
pub struct SharedMap {
    map: papaya::HashMap<CacheKey, u64>,
}

impl View for SharedMap {
    type V = Map<CacheKeyView, u64>;

    closed spec fn view(&self) -> Map<CacheKeyView, u64> {
        entries_in(self.map)
    }
}

/// What a map holds under a key.
pub open spec fn entry(entries: Map<CacheKeyView, u64>, key: CacheKeyView) -> Option<u64> {
    if entries.dom().contains(key) {
        Some(entries[key])
    } else {
        None
    }
}

impl SharedMap {
    /// An empty map.
    pub fn new() -> (map: SharedMap)
        ensures
            map@ == no_entries(),
    {
        SharedMap { map: map_new() }
    }

    /// Puts `value` under `key`; what stood there before comes back.
    pub fn insert(&mut self, key: CacheKey, value: u64) -> (previous: Option<u64>)
        ensures
            final(self)@ == old(self)@.insert(key_view(key), value),
            previous == entry(old(self)@, key_view(key)),
    {
        map_insert(&mut self.map, key, value)
    }

    /// Takes out what stands under `key`.
    pub fn remove(&mut self, key: &CacheKey)
        ensures
            final(self)@ == old(self)@.remove(key_view(*key)),
    {
        map_remove(&mut self.map, key)
    }

    /// What stands under `key`.
    pub fn get(&self, key: &CacheKey) -> (value: Option<u64>)
        ensures
            value == entry(self@, key_view(*key)),
    {
        map_get(&self.map, key)
    }
}

} // verus!
