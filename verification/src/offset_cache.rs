//! Side cache that keeps scanned lines by trace identifier: a bounded
//! in-memory cache in front of whatever durable store the caller keeps.

use lru::LruCache;
use vstd::prelude::*;

verus! {

/// `lru::LruCache`: a map of bounded size that forgets the least recently
/// used entry when it is full. Verified code reads and changes it through the
/// `lru_*` functions of this file only.
#[verifier::external_type_specification]
#[verifier::external_body]
#[verifier::reject_recursive_types(K)]
#[verifier::reject_recursive_types(V)]
#[verifier::reject_recursive_types(S)]
pub struct ExLruCache<K, V, S>(LruCache<K, V, S>);

/// `lru::DefaultHasher`: the hasher that `LruCache` uses unless given
/// another.
#[verifier::external_type_specification]
#[verifier::external_body]
pub struct ExLruHasher(lru::DefaultHasher);

/// The in-memory cache: line data by trace identifier.
pub type TraceCache = LruCache<String, Vec<u8>>;

/// Number of entries the in-memory cache holds unless told otherwise.
pub const DEFAULT_CACHE_ENTRIES: usize = 1000;

/// One cached line: the trace identifier and the line's bytes.
pub struct CacheEntry {
    /// The trace identifier.
    pub trace_id: Seq<char>,
    /// The bytes of the line.
    pub data: Seq<u8>,
}

/// The entries of the cache, most recently used first.
pub uninterp spec fn cache_entries(cache: TraceCache) -> Seq<CacheEntry>;

/// The number of entries the cache was made to hold.
pub uninterp spec fn cache_capacity(cache: TraceCache) -> nat;

/// Position of the entry for `trace_id` in `entries`.
pub open spec fn position_of(entries: Seq<CacheEntry>, trace_id: Seq<char>) -> Option<int>
    decreases entries.len(),
{
    if entries.len() == 0 {
        None
    } else if entries[0].trace_id == trace_id {
        Some(0)
    } else {
        match position_of(entries.drop_first(), trace_id) {
            Some(i) => Some(i + 1),
            None => None,
        }
    }
}

/// The data cached for `trace_id`, if any.
pub open spec fn cached(entries: Seq<CacheEntry>, trace_id: Seq<char>) -> Option<Seq<u8>> {
    match position_of(entries, trace_id) {
        Some(i) => Some(entries[i].data),
        None => None,
    }
}

/// `entries` after `trace_id` was looked up: its entry, if there is one,
/// becomes the most recently used.
pub open spec fn touched(entries: Seq<CacheEntry>, trace_id: Seq<char>) -> Seq<CacheEntry> {
    match position_of(entries, trace_id) {
        Some(i) => seq![entries[i]] + entries.remove(i),
        None => entries,
    }
}

/// `entries` without the entry for `trace_id`.
pub open spec fn without(entries: Seq<CacheEntry>, trace_id: Seq<char>) -> Seq<CacheEntry> {
    match position_of(entries, trace_id) {
        Some(i) => entries.remove(i),
        None => entries,
    }
}

/// `entries` of a cache that holds at most `capacity` entries, after `data`
/// was stored for `trace_id`. The entry becomes the most recently used. It
/// takes the place of an entry for the same identifier; otherwise, when the
/// cache is full, the least recently used entry leaves.
pub open spec fn stored(
    entries: Seq<CacheEntry>,
    capacity: nat,
    trace_id: Seq<char>,
    data: Seq<u8>,
) -> Seq<CacheEntry> {
    let entry = CacheEntry { trace_id, data };
    match position_of(entries, trace_id) {
        Some(i) => seq![entry] + entries.remove(i),
        None => if entries.len() >= capacity {
            seq![entry] + entries.drop_last()
        } else {
            seq![entry] + entries
        },
    }
}

/// What [`position_of`] finds is an entry for the identifier asked for, and
/// the first one; what it does not find is not there.
pub proof fn lemma_position_of(entries: Seq<CacheEntry>, trace_id: Seq<char>)
    ensures
        match position_of(entries, trace_id) {
            Some(i) => 0 <= i < entries.len() && entries[i].trace_id == trace_id && forall|j: int|
                0 <= j < i ==> entries[j].trace_id != trace_id,
            None => forall|j: int| 0 <= j < entries.len() ==> entries[j].trace_id != trace_id,
        },
    decreases entries.len(),
{
    if entries.len() > 0 && entries[0].trace_id != trace_id {
        let rest = entries.drop_first();
        lemma_position_of(rest, trace_id);
        match position_of(rest, trace_id) {
            Some(i) => {
                assert(rest[i] == entries[i + 1]);
                assert forall|j: int| 0 <= j < i + 1 implies entries[j].trace_id != trace_id by {
                    if j > 0 {
                        assert(rest[j - 1] == entries[j]);
                    }
                }
            },
            None => {
                assert forall|j: int| 0 <= j < entries.len() implies entries[j].trace_id
                    != trace_id by {
                    if j > 0 {
                        assert(rest[j - 1] == entries[j]);
                    }
                }
            },
        }
    }
}

/// Data stored for an identifier is what a lookup of that identifier finds,
/// as long as the cache holds at least one entry.
pub proof fn lemma_stored_is_cached(
    entries: Seq<CacheEntry>,
    capacity: nat,
    trace_id: Seq<char>,
    data: Seq<u8>,
)
    ensures
        cached(stored(entries, capacity, trace_id, data), trace_id) == Some(data),
        stored(entries, capacity, trace_id, data).len() >= 1,
        entries.len() <= capacity && capacity >= 1 ==> stored(
            entries,
            capacity,
            trace_id,
            data,
        ).len() <= capacity,
{
    lemma_position_of(entries, trace_id);
    let after = stored(entries, capacity, trace_id, data);
    assert(after[0] == CacheEntry { trace_id, data });
}

/// `LruCache::new`: an empty cache that holds at most `capacity` entries.
#[verifier::external_body]
fn lru_new(capacity: usize) -> (cache: TraceCache)
    requires
        capacity > 0,
    ensures
        cache_entries(cache) == Seq::<CacheEntry>::empty(),
        cache_capacity(cache) == capacity,
{
    LruCache::new(std::num::NonZeroUsize::new(capacity).unwrap())
}

/// `LruCache::put`: stores the value under the key and makes the entry the
/// most recently used. A value already stored under the key is replaced and
/// handed back; otherwise, in a full cache, the least recently used entry is
/// dropped.
#[verifier::external_body]
fn lru_put(cache: &mut TraceCache, trace_id: &str, data: &[u8]) -> (previous: Option<Vec<u8>>)
    ensures
        cache_capacity(*final(cache)) == cache_capacity(*old(cache)),
        cache_entries(*final(cache)) == stored(
            cache_entries(*old(cache)),
            cache_capacity(*old(cache)),
            trace_id@,
            data@,
        ),
        match previous {
            Some(bytes) => cached(cache_entries(*old(cache)), trace_id@) == Some(bytes@),
            None => cached(cache_entries(*old(cache)), trace_id@).is_none(),
        },
{
    cache.put(trace_id.to_string(), data.to_vec())
}

/// `LruCache::get`: the value stored under the key, if any; the entry
/// becomes the most recently used.
#[verifier::external_body]
fn lru_get(cache: &mut TraceCache, trace_id: &str) -> (data: Option<Vec<u8>>)
    ensures
        cache_capacity(*final(cache)) == cache_capacity(*old(cache)),
        cache_entries(*final(cache)) == touched(cache_entries(*old(cache)), trace_id@),
        match data {
            Some(bytes) => cached(cache_entries(*old(cache)), trace_id@) == Some(bytes@),
            None => cached(cache_entries(*old(cache)), trace_id@).is_none(),
        },
{
    cache.get(trace_id).cloned()
}

/// `LruCache::pop`: removes the entry stored under the key and hands its
/// value back, if there is one.
#[verifier::external_body]
fn lru_pop(cache: &mut TraceCache, trace_id: &str) -> (data: Option<Vec<u8>>)
    ensures
        cache_capacity(*final(cache)) == cache_capacity(*old(cache)),
        cache_entries(*final(cache)) == without(cache_entries(*old(cache)), trace_id@),
        match data {
            Some(bytes) => cached(cache_entries(*old(cache)), trace_id@) == Some(bytes@),
            None => cached(cache_entries(*old(cache)), trace_id@).is_none(),
        },
{
    cache.pop(trace_id)
}

/// `LruCache::clear`: removes every entry.
#[verifier::external_body]
fn lru_clear(cache: &mut TraceCache)
    ensures
        cache_capacity(*final(cache)) == cache_capacity(*old(cache)),
        cache_entries(*final(cache)) == Seq::<CacheEntry>::empty(),
{
    cache.clear();
}

/// The entries after each pair of `batch` was stored, in order.
pub open spec fn stored_all(
    entries: Seq<CacheEntry>,
    capacity: nat,
    batch: Seq<(String, Vec<u8>)>,
) -> Seq<CacheEntry>
    decreases batch.len(),
{
    if batch.len() == 0 {
        entries
    } else {
        stored(
            stored_all(entries, capacity, batch.drop_last()),
            capacity,
            batch.last().0@,
            batch.last().1@,
        )
    }
}

/// Cache for line data by trace identifier. It holds a bounded number of
/// lines and forgets the least recently used one when it is full. The durable
/// store behind it is the caller's: a line stored durably is also put here, a
/// line missed here is looked up in the store and then put here.
pub struct OffsetCache {
    lru_cache: TraceCache,
}

impl View for OffsetCache {
    type V = Seq<CacheEntry>;

    closed spec fn view(&self) -> Seq<CacheEntry> {
        cache_entries(self.lru_cache)
    }
}

impl OffsetCache {
    /// Number of lines the cache holds at most.
    pub closed spec fn capacity(&self) -> nat {
        cache_capacity(self.lru_cache)
    }

    /// Creates an empty cache for [`DEFAULT_CACHE_ENTRIES`] lines.
    pub fn new() -> (cache: OffsetCache)
        ensures
            cache@ == Seq::<CacheEntry>::empty(),
            cache.capacity() == DEFAULT_CACHE_ENTRIES,
    {
        OffsetCache { lru_cache: lru_new(DEFAULT_CACHE_ENTRIES) }
    }

    /// Creates an empty cache for `capacity` lines.
    pub fn with_capacity(capacity: usize) -> (cache: OffsetCache)
        requires
            capacity > 0,
        ensures
            cache@ == Seq::<CacheEntry>::empty(),
            cache.capacity() == capacity,
    {
        OffsetCache { lru_cache: lru_new(capacity) }
    }

    /// Stores data with the given trace identifier.
    pub fn put(&mut self, trace_id: &str, data: &[u8])
        ensures
            final(self).capacity() == old(self).capacity(),
            final(self)@ == stored(old(self)@, old(self).capacity(), trace_id@, data@),
            cached(final(self)@, trace_id@) == Some(data@),
    {
        proof {
            lemma_stored_is_cached(self@, self.capacity(), trace_id@, data@);
        }
        let _ = lru_put(&mut self.lru_cache, trace_id, data);
    }

    /// Retrieves the data cached for the given trace identifier. A line
    /// found becomes the most recently used.
    pub fn get(&mut self, trace_id: &str) -> (data: Option<Vec<u8>>)
        ensures
            final(self).capacity() == old(self).capacity(),
            final(self)@ == touched(old(self)@, trace_id@),
            match data {
                Some(bytes) => cached(old(self)@, trace_id@) == Some(bytes@),
                None => cached(old(self)@, trace_id@).is_none(),
            },
    {
        lru_get(&mut self.lru_cache, trace_id)
    }

    /// Stores several entries, in order.
    pub fn put_batch(&mut self, entries: &[(String, Vec<u8>)])
        ensures
            final(self).capacity() == old(self).capacity(),
            final(self)@ == stored_all(old(self)@, old(self).capacity(), entries@),
    {
        let n = entries.len();
        let mut i: usize = 0;
        while i < n
            invariant
                n == entries@.len(),
                i <= n,
                self.capacity() == old(self).capacity(),
                self@ == stored_all(old(self)@, old(self).capacity(), entries@.take(i as int)),
            decreases n - i,
        {
            proof {
                assert(entries@.take(i + 1).drop_last() =~= entries@.take(i as int));
                assert(entries@.take(i + 1).last() == entries@[i as int]);
            }
            let _ = lru_put(
                &mut self.lru_cache,
                entries[i].0.as_str(),
                entries[i].1.as_slice(),
            );
            i += 1;
        }
        proof {
            assert(entries@.take(n as int) =~= entries@);
        }
    }

    /// Drops every cached line.
    pub fn clear(&mut self)
        ensures
            final(self).capacity() == old(self).capacity(),
            final(self)@ == Seq::<CacheEntry>::empty(),
    {
        lru_clear(&mut self.lru_cache);
    }

    /// Drops the line cached for the given trace identifier, if any.
    pub fn delete(&mut self, trace_id: &str)
        ensures
            final(self).capacity() == old(self).capacity(),
            final(self)@ == without(old(self)@, trace_id@),
    {
        let _ = lru_pop(&mut self.lru_cache, trace_id);
    }
}

/// Copies `size` bytes of `line_data` starting at `offset`.
///
/// Returns `None` when the requested window does not lie inside `line_data`.
pub fn extract_bytes_at_offset(line_data: &[u8], offset: usize, size: usize) -> (out: Option<
    Vec<u8>,
>)
    ensures
        out.is_some() <==> offset + size <= line_data@.len(),
        out.is_some() ==> out.unwrap()@ == line_data@.subrange(
            offset as int,
            offset + size,
        ),
{
    let len = line_data.len();
    if offset > len || size > len - offset {
        return None;
    }
    let mut out: Vec<u8> = Vec::with_capacity(size);
    let mut i: usize = 0;
    while i < size
        invariant
            len == line_data@.len(),
            offset + size <= len,
            i <= size,
            out@ == line_data@.subrange(offset as int, offset + i),
        decreases size - i,
    {
        out.push(line_data[offset + i]);
        i += 1;
    }
    Some(out)
}

} // verus!
