//! The bounded cache of processed operations, kept by the `lru` crate. The
//! contracts speak of what the cache holds as a sequence of entries, the
//! most recently used first.

use vstd::prelude::*;

verus! {

/// `LruCache` of the `lru` crate, a bounded map that forgets the entry
/// used least recently. Nothing of its inside is known here.
#[verifier::external_type_specification]
#[verifier::external_body]
#[verifier::reject_recursive_types(K)]
#[verifier::reject_recursive_types(V)]
#[verifier::reject_recursive_types(S)]
pub struct ExLruCache<K, V, S>(lru::LruCache<K, V, S>);

/// `DefaultHasher` of the `lru` crate, the hasher that `LruCache` uses
/// where none is named. Nothing of its inside is known here.
#[verifier::external_type_specification]
#[verifier::external_body]
pub struct ExDefaultHasher(lru::DefaultHasher);

/// What the cache keeps for a raw query: nothing for an operation that is
/// not reported, else the canonical text, the fingerprint and the coordinates.
pub type Kept = Option<(String, String, Vec<String>)>;

/// The view of a kept value.
pub type KeptView = Option<(Seq<char>, Seq<char>, Seq<Seq<char>>)>;

/// One entry of the cache: a raw query and what is kept for it.
pub type Entry = (Seq<char>, KeptView);

/// The entries of the cache, the most recently used first.
pub uninterp spec fn cache_entries(cache: lru::LruCache<String, Kept>) -> Seq<Entry>;

/// The number of entries that the cache was made to hold at most.
pub uninterp spec fn cache_limit(cache: lru::LruCache<String, Kept>) -> nat;

/// The view of a kept value.
pub open spec fn kept_view(kept: Kept) -> KeptView {
    match kept {
        Some(p) => Some((p.0@, p.1@, p.2@.map_values(|s: String| s@))),
        None => None,
    }
}

/// The position of the first entry for `key` at or after `from`.
pub open spec fn entry_from(entries: Seq<Entry>, key: Seq<char>, from: int) -> Option<int>
    decreases entries.len() - from,
{
    if from < 0 || from >= entries.len() {
        None
    } else if entries[from].0 == key {
        Some(from)
    } else {
        entry_from(entries, key, from + 1)
    }
}

/// What is kept for `key`, if the cache has an entry for it.
pub open spec fn kept_for(entries: Seq<Entry>, key: Seq<char>) -> Option<KeptView> {
    match entry_from(entries, key, 0) {
        Some(i) => Some(entries[i].1),
        None => None,
    }
}

/// The entries after `key` was used: its entry has moved to the front.
pub open spec fn touched(entries: Seq<Entry>, key: Seq<char>) -> Seq<Entry> {
    match entry_from(entries, key, 0) {
        Some(i) => seq![entries[i]] + entries.remove(i),
        None => entries,
    }
}

/// The entries after `value` was stored for `key` in a cache of at most
/// `limit` entries: the entry is at the front, an earlier entry for the key
/// is gone, and where the cache was full without holding the key, the least
/// recently used entry is gone.
pub open spec fn stored(entries: Seq<Entry>, limit: nat, key: Seq<char>, value: KeptView) -> Seq<Entry> {
    match entry_from(entries, key, 0) {
        Some(i) => seq![(key, value)] + entries.remove(i),
        None => if entries.len() == limit {
            seq![(key, value)] + entries.drop_last()
        } else {
            seq![(key, value)] + entries
        },
    }
}

/// `LruCache::new` of the `lru` crate: an empty cache that holds at most
/// `limit` entries.
#[verifier::external_body]
pub(crate) fn cache_new(limit: usize) -> (cache: lru::LruCache<String, Kept>)
    requires
        limit > 0,
    ensures
        cache_entries(cache) == Seq::<Entry>::empty(),
        cache_limit(cache) == limit,
{
    lru::LruCache::new(std::num::NonZeroUsize::new(limit).unwrap())
}

/// `LruCache::contains` of the `lru` crate: whether the cache has an entry
/// for `key`. The order of use does not change.
#[verifier::external_body]
pub(crate) fn cache_contains(cache: &lru::LruCache<String, Kept>, key: &String) -> (r: bool)
    ensures
        r == (kept_for(cache_entries(*cache), key@) is Some),
{
    cache.contains(key)
}

/// `LruCache::get` of the `lru` crate: a copy of what is kept for `key`,
/// whose entry becomes the most recently used.
#[verifier::external_body]
pub(crate) fn cache_get(cache: &mut lru::LruCache<String, Kept>, key: &String) -> (r: Option<Kept>)
    ensures
        match r {
            Some(kept) => kept_for(cache_entries(*old(cache)), key@) == Some(kept_view(kept)),
            None => kept_for(cache_entries(*old(cache)), key@) is None,
        },
        cache_entries(*final(cache)) == touched(cache_entries(*old(cache)), key@),
        cache_limit(*final(cache)) == cache_limit(*old(cache)),
{
    cache.get(key).cloned()
}

/// `LruCache::put` of the `lru` crate: stores `value` for `key` as the most
/// recently used entry, in place of an earlier entry for the key, or else of
/// the least recently used entry where the cache is full.
#[verifier::external_body]
pub(crate) fn cache_put(cache: &mut lru::LruCache<String, Kept>, key: String, value: Kept)
    ensures
        cache_entries(*final(cache)) == stored(
            cache_entries(*old(cache)),
            cache_limit(*old(cache)),
            key@,
            kept_view(value),
        ),
        cache_limit(*final(cache)) == cache_limit(*old(cache)),
{
    cache.put(key, value);
}

} // verus!
