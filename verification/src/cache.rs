//! A response cache keyed by request parameters, with a time-to-live for
//! each entry and least-recently-accessed eviction at capacity.
//!
//! Time is passed in by the caller as nanoseconds on a monotonic clock, so
//! every operation is a function of its arguments.

use std::hash::{Hash, Hasher};
use vstd::prelude::*;

verus! {

/// Cache key combining the request parameters that determine a response.
#[derive(Debug, Clone)]
pub struct CacheKey {
    pub model: String,
    pub messages_hash: u64,
    /// Temperature as the bits of its floating-point value.
    pub temperature: Option<u64>,
    pub max_tokens: Option<u32>,
    /// Different budgets produce different results.
    pub budget: u32,
}

/// The mathematical value of a [`CacheKey`].
pub struct CacheKeyView {
    pub model: Seq<char>,
    pub messages_hash: u64,
    pub temperature: Option<u64>,
    pub max_tokens: Option<u32>,
    pub budget: u32,
}

impl View for CacheKey {
    type V = CacheKeyView;

    open spec fn view(&self) -> CacheKeyView {
        CacheKeyView {
            model: self.model@,
            messages_hash: self.messages_hash,
            temperature: self.temperature,
            max_tokens: self.max_tokens,
            budget: self.budget,
        }
    }
}

/// What hashing the serialized messages with std's `DefaultHasher::new()` gives.
pub uninterp spec fn spec_messages_hash(text: Seq<char>) -> u64;

/// Hashes the serialized messages with std `DefaultHasher` (`str::hash`
/// then `finish`); the result is named by `spec_messages_hash`.
#[verifier::external_body]
fn hash_messages_text(text: &str) -> (r: u64)
    ensures
        r == spec_messages_hash(text@),
{
    let mut hasher = std::collections::hash_map::DefaultHasher::new();
    text.hash(&mut hasher);
    hasher.finish()
}

impl CacheKey {
    /// Builds a key from the model, the messages serialized as JSON text,
    /// the temperature's bits, the token limit and the budget.
    pub fn new(
        model: &str,
        messages_json: &str,
        temperature_bits: Option<u64>,
        max_tokens: Option<u32>,
        budget: u32,
    ) -> (r: CacheKey)
        ensures
            r@ == (CacheKeyView {
                model: model@,
                messages_hash: spec_messages_hash(messages_json@),
                temperature: temperature_bits,
                max_tokens,
                budget,
            }),
    {
        CacheKey {
            model: crate::text::owned(model),
            messages_hash: hash_messages_text(messages_json),
            temperature: temperature_bits,
            max_tokens,
            budget,
        }
    }

    /// Whether two keys are equal.
    pub fn same_as(&self, other: &CacheKey) -> (r: bool)
        ensures
            r == (self@ == other@),
    {
        self.model == other.model && self.messages_hash == other.messages_hash
            && self.temperature == other.temperature && self.max_tokens == other.max_tokens
            && self.budget == other.budget
    }
}

/// One cached response with its creation and last access times.
pub struct CacheEntry<V> {
    pub key: CacheKey,
    pub response: V,
    pub created_at: u64,
    pub last_accessed: u64,
}

/// Cache statistics (the hit rate is `hits / (hits + misses)`).
#[derive(Debug, Clone, Copy, PartialEq, Eq)]
pub struct CacheStats {
    pub entries: usize,
    pub max_entries: usize,
    pub hits: u64,
    pub misses: u64,
    pub ttl_seconds: u64,
}

/// `now - then`, or zero when the clock reads earlier than `then`.
pub open spec fn elapsed(now: u64, then: u64) -> int {
    if now >= then {
        now - then
    } else {
        0
    }
}

/// The time-to-live in nanoseconds.
pub open spec fn ttl_nanos(ttl_seconds: u64) -> int {
    ttl_seconds * 1_000_000_000
}

/// An entry survives the sweep before an insertion: strictly younger than the ttl.
pub open spec fn survives_sweep<V>(e: CacheEntry<V>, now: u64, ttl_seconds: u64) -> bool {
    elapsed(now, e.created_at) < ttl_nanos(ttl_seconds)
}

/// An entry can be served: no older than the ttl.
pub open spec fn servable<V>(e: CacheEntry<V>, now: u64, ttl_seconds: u64) -> bool {
    elapsed(now, e.created_at) <= ttl_nanos(ttl_seconds)
}

/// The entries that survive the sweep, in order.
pub open spec fn sweep<V>(es: Seq<CacheEntry<V>>, now: u64, ttl_seconds: u64) -> Seq<CacheEntry<V>>
    decreases es.len(),
{
    if es.len() == 0 {
        Seq::empty()
    } else if survives_sweep(es.last(), now, ttl_seconds) {
        sweep(es.drop_last(), now, ttl_seconds).push(es.last())
    } else {
        sweep(es.drop_last(), now, ttl_seconds)
    }
}

/// The first position among the first `n` entries with the smallest last access time.
pub open spec fn lru_in<V>(es: Seq<CacheEntry<V>>, n: int) -> int
    decreases n,
{
    if n <= 1 {
        0
    } else {
        let b = lru_in(es, n - 1);
        if es[n - 1].last_accessed < es[b].last_accessed {
            n - 1
        } else {
            b
        }
    }
}

/// The first position holding `k` among the first `n` entries, or -1.
pub open spec fn find_in<V>(es: Seq<CacheEntry<V>>, k: CacheKeyView, n: int) -> int
    decreases n,
{
    if n <= 0 {
        -1
    } else {
        let p = find_in(es, k, n - 1);
        if p >= 0 {
            p
        } else if es[n - 1].key@ == k {
            n - 1
        } else {
            -1
        }
    }
}

/// The position holding `k`, or -1.
pub open spec fn find_key<V>(es: Seq<CacheEntry<V>>, k: CacheKeyView) -> int {
    find_in(es, k, es.len() as int)
}

/// At capacity, drop the least recently accessed entry.
pub open spec fn evict<V>(es: Seq<CacheEntry<V>>, max_entries: usize) -> Seq<CacheEntry<V>> {
    if es.len() >= max_entries && es.len() > 0 {
        es.remove(lru_in(es, es.len() as int))
    } else {
        es
    }
}

/// Replace the entry with the same key, or append.
pub open spec fn upsert<V>(es: Seq<CacheEntry<V>>, e: CacheEntry<V>) -> Seq<CacheEntry<V>> {
    let j = find_key(es, e.key@);
    if j >= 0 {
        es.update(j, e)
    } else {
        es.push(e)
    }
}

/// The entry with its last access time set to `now`.
pub open spec fn touched<V>(e: CacheEntry<V>, now: u64) -> CacheEntry<V> {
    CacheEntry { key: e.key, response: e.response, created_at: e.created_at, last_accessed: now }
}

/// A counter after one increment (wrapping at the top, as an atomic add does).
pub open spec fn bump(c: u64) -> u64 {
    if c == u64::MAX {
        0
    } else {
        (c + 1) as u64
    }
}

/// The most entries a cache made with `max_entries` holds: the capacity,
/// except that a zero capacity still keeps the latest entry.
pub open spec fn bound(max_entries: usize) -> int {
    if max_entries == 0 {
        1
    } else {
        max_entries as int
    }
}

/// The entries after storing `e` at time `now`: sweep out entries at least
/// as old as the ttl, evict the least recently accessed one when at
/// capacity, then insert or replace.
pub open spec fn put_entries<V>(
    es: Seq<CacheEntry<V>>,
    max_entries: usize,
    ttl_seconds: u64,
    e: CacheEntry<V>,
    now: u64,
) -> Seq<CacheEntry<V>> {
    upsert(evict(sweep(es, now, ttl_seconds), max_entries), e)
}

/// No key occurs twice.
pub open spec fn keys_distinct<V>(es: Seq<CacheEntry<V>>) -> bool {
    forall|i: int, j: int| 0 <= i < es.len() && 0 <= j < es.len() && i != j ==> es[i].key@ != es[j].key@
}

/// A response cache with a time-to-live and least-recently-accessed eviction.
pub struct TokenCache<V> {
    entries: Vec<CacheEntry<V>>,
    max_entries: usize,
    ttl_seconds: u64,
    hits: u64,
    misses: u64,
}

/// `find_in` is stable once it found a position, and finds exactly the key.
pub proof fn lemma_find_in<V>(es: Seq<CacheEntry<V>>, k: CacheKeyView, n: int)
    requires
        0 <= n <= es.len(),
    ensures
        find_in(es, k, n) >= 0 ==> 0 <= find_in(es, k, n) < n && es[find_in(es, k, n)].key@ == k,
        find_in(es, k, n) < 0 ==> forall|i: int| 0 <= i < n ==> (#[trigger] es[i]).key@ != k,
        find_in(es, k, n) >= -1,
    decreases n,
{
    if n > 0 {
        lemma_find_in(es, k, n - 1);
    }
}

/// With distinct keys, the position of a key is the only position holding it.
pub proof fn lemma_find_unique<V>(es: Seq<CacheEntry<V>>, i: int)
    requires
        keys_distinct(es),
        0 <= i < es.len(),
    ensures
        find_key(es, es[i].key@) == i,
{
    lemma_find_in(es, es[i].key@, es.len() as int);
}

/// `lru_in` is a position holding the smallest last access time.
pub proof fn lemma_lru_in<V>(es: Seq<CacheEntry<V>>, n: int)
    requires
        1 <= n <= es.len(),
    ensures
        0 <= lru_in(es, n) < n,
        forall|i: int| 0 <= i < n ==> es[lru_in(es, n)].last_accessed <= (#[trigger] es[i]).last_accessed,
    decreases n,
{
    if n > 1 {
        lemma_lru_in(es, n - 1);
    }
}

/// Every entry that survives a sweep comes from the swept entries.
pub proof fn lemma_sweep<V>(es: Seq<CacheEntry<V>>, now: u64, ttl_seconds: u64)
    ensures
        sweep(es, now, ttl_seconds).len() <= es.len(),
        forall|i: int| 0 <= i < sweep(es, now, ttl_seconds).len() ==> exists|j: int|
            0 <= j < es.len() && #[trigger] sweep(es, now, ttl_seconds)[i] == es[j],
        keys_distinct(es) ==> keys_distinct(sweep(es, now, ttl_seconds)),
        forall|i: int| 0 <= i < sweep(es, now, ttl_seconds).len() ==> survives_sweep(
            #[trigger] sweep(es, now, ttl_seconds)[i],
            now,
            ttl_seconds,
        ),
    decreases es.len(),
{
    if es.len() > 0 {
        let prev = es.drop_last();
        lemma_sweep(prev, now, ttl_seconds);
        let sp = sweep(prev, now, ttl_seconds);
        let s = sweep(es, now, ttl_seconds);
        assert forall|i: int| 0 <= i < s.len() implies exists|j: int| 0 <= j < es.len() && #[trigger] s[i] == es[j] by {
            if i < sp.len() {
                let j = choose|j: int| 0 <= j < prev.len() && sp[i] == prev[j];
                assert(s[i] == es[j]);
            } else {
                assert(s[i] == es[es.len() - 1]);
            }
        }
        if keys_distinct(es) {
            assert(keys_distinct(prev));
            assert forall|a: int, b: int| 0 <= a < s.len() && 0 <= b < s.len() && a != b implies s[a].key@ != s[b].key@ by {
                if a < sp.len() && b < sp.len() {
                    assert(s[a] == sp[a] && s[b] == sp[b]);
                } else if a < sp.len() {
                    let j = choose|j: int| 0 <= j < prev.len() && sp[a] == prev[j];
                    assert(s[a] == es[j]);
                    assert(s[b] == es[es.len() - 1]);
                } else {
                    let j = choose|j: int| 0 <= j < prev.len() && sp[b] == prev[j];
                    assert(s[b] == es[j]);
                    assert(s[a] == es[es.len() - 1]);
                }
            }
        }
    }
}

impl<V> TokenCache<V> {
    #[verifier::type_invariant]
    spec fn well_formed(self) -> bool {
        &&& keys_distinct(self.entries@)
        &&& self.entries@.len() <= bound(self.max_entries)
    }

    /// The cached entries, in insertion order.
    pub closed spec fn entries_view(self) -> Seq<CacheEntry<V>> {
        self.entries@
    }

    /// The capacity the cache was made with.
    pub closed spec fn capacity(self) -> usize {
        self.max_entries
    }

    /// The time-to-live the cache was made with, in seconds.
    pub closed spec fn ttl(self) -> u64 {
        self.ttl_seconds
    }

    /// The number of lookups that returned a response.
    pub closed spec fn hit_count(self) -> u64 {
        self.hits
    }

    /// The number of lookups that returned nothing.
    pub closed spec fn miss_count(self) -> u64 {
        self.misses
    }

    /// An empty cache holding at most `max_entries` entries, each for `ttl_seconds`.
    pub fn new(max_entries: usize, ttl_seconds: u64) -> (r: TokenCache<V>)
        ensures
            r.entries_view().len() == 0,
            r.capacity() == max_entries,
            r.ttl() == ttl_seconds,
            r.hit_count() == 0,
            r.miss_count() == 0,
            keys_distinct(r.entries_view()),
    {
        TokenCache { entries: Vec::new(), max_entries, ttl_seconds, hits: 0, misses: 0 }
    }

}

impl<V: Clone> TokenCache<V> {
    /// Looks up `key` at time `now`: a response younger than the ttl is
    /// returned and its access time set to `now`; an expired one is removed.
    /// Every lookup counts as a hit or as a miss.
    pub fn get(&mut self, key: &CacheKey, now: u64) -> (r: Option<V>)
        ensures
            ({
                let es = old(self).entries_view();
                let j = find_key(es, key@);
                &&& final(self).capacity() == old(self).capacity()
                &&& final(self).ttl() == old(self).ttl()
                &&& keys_distinct(final(self).entries_view())
                &&& final(self).entries_view().len() <= bound(final(self).capacity())
                &&& j < 0 ==> {
                    &&& r is None
                    &&& final(self).entries_view() == es
                    &&& final(self).hit_count() == old(self).hit_count()
                    &&& final(self).miss_count() == bump(old(self).miss_count())
                }
                &&& j >= 0 && servable(es[j], now, old(self).ttl()) ==> {
                    &&& r matches Some(v) && cloned(es[j].response, v)
                    &&& final(self).entries_view() == es.update(j, touched(es[j], now))
                    &&& final(self).hit_count() == bump(old(self).hit_count())
                    &&& final(self).miss_count() == old(self).miss_count()
                }
                &&& j >= 0 && !servable(es[j], now, old(self).ttl()) ==> {
                    &&& r is None
                    &&& final(self).entries_view() == es.remove(j)
                    &&& final(self).hit_count() == old(self).hit_count()
                    &&& final(self).miss_count() == bump(old(self).miss_count())
                }
            }),
    {
        proof {
            use_type_invariant(&*self);
        }
        match Self::position_of(&self.entries, key) {
            None => {
                self.misses = if self.misses == u64::MAX { 0 } else { self.misses + 1 };
                None
            },
            Some(j) => {
                if self.is_servable(self.entries[j].created_at, now) {
                    let response = self.entries[j].response.clone();
                    let mut es: Vec<CacheEntry<V>> = Vec::new();
                    std::mem::swap(&mut es, &mut self.entries);
                    let ghost before = es@;
                    es[j].last_accessed = now;
                    proof {
                        assert(es@ =~= before.update(j as int, touched(before[j as int], now)));
                        assert forall|a: int, b: int|
                            0 <= a < es@.len() && 0 <= b < es@.len() && a != b implies es@[a].key@ != es@[b].key@ by {
                            assert(es@[a].key == before[a].key);
                            assert(es@[b].key == before[b].key);
                        }
                    }
                    self.entries = es;
                    self.hits = if self.hits == u64::MAX { 0 } else { self.hits + 1 };
                    Some(response)
                } else {
                    let mut es: Vec<CacheEntry<V>> = Vec::new();
                    std::mem::swap(&mut es, &mut self.entries);
                    let ghost before = es@;
                    es.remove(j);
                    proof {
                        assert forall|a: int, b: int|
                            0 <= a < es@.len() && 0 <= b < es@.len() && a != b implies es@[a].key@ != es@[b].key@ by {
                            let a0 = if a < j { a } else { a + 1 };
                            let b0 = if b < j { b } else { b + 1 };
                            assert(es@[a] == before[a0]);
                            assert(es@[b] == before[b0]);
                        }
                    }
                    self.entries = es;
                    self.misses = if self.misses == u64::MAX { 0 } else { self.misses + 1 };
                    None
                }
            },
        }
    }
}

impl<V> TokenCache<V> {
    /// Stores `response` under `key` at time `now` (see [`put_entries`]).
    pub fn put(&mut self, key: CacheKey, response: V, now: u64)
        ensures
            final(self).entries_view() == put_entries(
                old(self).entries_view(),
                old(self).capacity(),
                old(self).ttl(),
                CacheEntry { key, response, created_at: now, last_accessed: now },
                now,
            ),
            final(self).capacity() == old(self).capacity(),
            final(self).ttl() == old(self).ttl(),
            final(self).hit_count() == old(self).hit_count(),
            final(self).miss_count() == old(self).miss_count(),
            keys_distinct(final(self).entries_view()),
            final(self).entries_view().len() <= bound(final(self).capacity()),
    {
        proof {
            use_type_invariant(&*self);
        }
        let mut es: Vec<CacheEntry<V>> = Vec::new();
        std::mem::swap(&mut es, &mut self.entries);
        let ghost orig = es@;
        let ghost ttl = self.ttl_seconds;
        let ghost mut j: int = 0;
        let mut i: usize = 0;
        while i < es.len()
            invariant
                ttl == self.ttl_seconds,
                0 <= i <= es@.len(),
                0 <= j <= orig.len(),
                es@.len() - i == orig.len() - j,
                es@.take(i as int) == sweep(orig.take(j), now, ttl),
                es@.skip(i as int) == orig.skip(j),
            decreases es@.len() - i,
        {
            let ghost cur = es@;
            proof {
                assert(orig.take(j + 1).drop_last() =~= orig.take(j));
                assert(cur[i as int] == cur.skip(i as int)[0]);
                assert(orig.take(j + 1).last() == orig.skip(j)[0]);
            }
            if self.survives(es[i].created_at, now) {
                proof {
                    assert(cur.take(i + 1) =~= cur.take(i as int).push(cur[i as int]));
                    assert(cur.skip(i + 1) =~= cur.skip(i as int).drop_first());
                    assert(orig.skip(j + 1) =~= orig.skip(j).drop_first());
                    j = j + 1;
                }
                i = i + 1;
            } else {
                es.remove(i);
                proof {
                    assert(es@.take(i as int) =~= cur.take(i as int));
                    assert(es@.skip(i as int) =~= cur.skip(i as int).drop_first());
                    assert(orig.skip(j + 1) =~= orig.skip(j).drop_first());
                    j = j + 1;
                }
            }
        }
        proof {
            assert(es@.take(i as int) =~= es@);
            assert(orig.take(j) =~= orig);
            lemma_sweep(orig, now, ttl);
        }
        let ghost swept = es@;
        if es.len() >= self.max_entries && es.len() > 0 {
            let mut best: usize = 0;
            let mut k: usize = 1;
            while k < es.len()
                invariant
                    es@ == swept,
                    1 <= k <= es@.len(),
                    best as int == lru_in(swept, k as int),
                    best < k,
                decreases es@.len() - k,
            {
                if es[k].last_accessed < es[best].last_accessed {
                    best = k;
                }
                k = k + 1;
            }
            proof {
                lemma_lru_in(swept, es@.len() as int);
            }
            es.remove(best);
            proof {
                assert forall|a: int, b: int|
                    0 <= a < es@.len() && 0 <= b < es@.len() && a != b implies es@[a].key@ != es@[b].key@ by {
                    let a0 = if a < best { a } else { a + 1 };
                    let b0 = if b < best { b } else { b + 1 };
                    assert(es@[a] == swept[a0]);
                    assert(es@[b] == swept[b0]);
                }
            }
        }
        let ghost evicted = es@;
        assert(evicted == evict(swept, self.max_entries));
        let ghost new_entry = CacheEntry { key, response, created_at: now, last_accessed: now };
        let pos = Self::position_of(&es, &key);
        match pos {
            Some(p) => {
                es.set(p, CacheEntry { key, response, created_at: now, last_accessed: now });
                proof {
                    lemma_find_in(evicted, new_entry.key@, evicted.len() as int);
                    assert forall|a: int, b: int|
                        0 <= a < es@.len() && 0 <= b < es@.len() && a != b implies es@[a].key@ != es@[b].key@ by {
                        if a != p && b != p {
                            assert(es@[a] == evicted[a] && es@[b] == evicted[b]);
                        } else if a == p {
                            assert(es@[b] == evicted[b]);
                            assert(evicted[p as int].key@ == new_entry.key@);
                        } else {
                            assert(es@[a] == evicted[a]);
                            assert(evicted[p as int].key@ == new_entry.key@);
                        }
                    }
                }
            },
            None => {
                es.push(CacheEntry { key, response, created_at: now, last_accessed: now });
                proof {
                    lemma_find_in(evicted, new_entry.key@, evicted.len() as int);
                    assert forall|a: int, b: int|
                        0 <= a < es@.len() && 0 <= b < es@.len() && a != b implies es@[a].key@ != es@[b].key@ by {
                        if a < evicted.len() && b < evicted.len() {
                            assert(es@[a] == evicted[a] && es@[b] == evicted[b]);
                        } else if a < evicted.len() {
                            assert(es@[a] == evicted[a]);
                        } else {
                            assert(es@[b] == evicted[b]);
                        }
                    }
                }
            },
        }
        proof {
            assert(es@ == upsert(evicted, new_entry));
            assert(es@.len() <= bound(self.max_entries));
        }
        self.entries = es;
    }

    /// Whether an entry created at `created_at` can still be served at `now`.
    fn is_servable(&self, created_at: u64, now: u64) -> (r: bool)
        ensures
            r == (elapsed(now, created_at) <= ttl_nanos(self.ttl_seconds)),
    {
        let age: u64 = if now >= created_at { now - created_at } else { 0 };
        (age as u128) <= (self.ttl_seconds as u128) * 1_000_000_000u128
    }

    /// Whether an entry created at `created_at` survives the sweep at `now`.
    fn survives(&self, created_at: u64, now: u64) -> (r: bool)
        ensures
            r == (elapsed(now, created_at) < ttl_nanos(self.ttl_seconds)),
    {
        let age: u64 = if now >= created_at { now - created_at } else { 0 };
        (age as u128) < (self.ttl_seconds as u128) * 1_000_000_000u128
    }

    /// The position of `key` among the entries, if any.
    fn position_of(entries: &Vec<CacheEntry<V>>, key: &CacheKey) -> (r: Option<usize>)
        ensures
            match r {
                Some(j) => j as int == find_key(entries@, key@) && j < entries@.len(),
                None => find_key(entries@, key@) == -1,
            },
    {
        let mut i: usize = 0;
        while i < entries.len()
            invariant
                i <= entries@.len(),
                find_in(entries@, key@, i as int) == -1,
            decreases entries@.len() - i,
        {
            if entries[i].key.same_as(key) {
                proof {
                    lemma_find_in(entries@, key@, entries@.len() as int);
                    assert(find_in(entries@, key@, i + 1) == i);
                    lemma_find_prefix(entries@, key@, i + 1, entries@.len() as int);
                }
                return Some(i);
            }
            i = i + 1;
        }
        None
    }

    /// The cache statistics.
    pub fn stats(&self) -> (r: CacheStats)
        ensures
            r.entries == self.entries_view().len(),
            r.entries <= bound(self.capacity()),
            r.max_entries == self.capacity(),
            r.hits == self.hit_count(),
            r.misses == self.miss_count(),
            r.ttl_seconds == self.ttl(),
            keys_distinct(self.entries_view()),
    {
        proof {
            use_type_invariant(self);
        }
        CacheStats {
            entries: self.entries.len(),
            max_entries: self.max_entries,
            hits: self.hits,
            misses: self.misses,
            ttl_seconds: self.ttl_seconds,
        }
    }
}

/// Once `find_in` finds a position among `n` entries, it finds the same one among more.
pub proof fn lemma_find_prefix<V>(es: Seq<CacheEntry<V>>, k: CacheKeyView, n: int, m: int)
    requires
        0 <= n <= m <= es.len(),
        find_in(es, k, n) >= 0,
    ensures
        find_in(es, k, m) == find_in(es, k, n),
    decreases m - n,
{
    if m > n {
        lemma_find_prefix(es, k, n, m - 1);
    }
}

/// Read after write: right after storing `e` the cache holds an entry for
/// its key, and that entry is `e` itself; a lookup no later than the ttl
/// after the write finds it servable (so `get` returns a clone of the
/// stored response).
pub proof fn law_put_then_get<V>(
    es: Seq<CacheEntry<V>>,
    max_entries: usize,
    ttl_seconds: u64,
    e: CacheEntry<V>,
    now: u64,
    later: u64,
)
    requires
        keys_distinct(es),
        e.created_at == now,
        elapsed(later, now) <= ttl_nanos(ttl_seconds),
    ensures
        ({
            let r = put_entries(es, max_entries, ttl_seconds, e, now);
            let j = find_key(r, e.key@);
            &&& 0 <= j < r.len()
            &&& r[j] == e
            &&& servable(r[j], later, ttl_seconds)
        }),
{
    lemma_sweep(es, now, ttl_seconds);
    let s = sweep(es, now, ttl_seconds);
    let ev = evict(s, max_entries);
    assert(keys_distinct(ev)) by {
        if s.len() >= max_entries && s.len() > 0 {
            let m = lru_in(s, s.len() as int);
            lemma_lru_in(s, s.len() as int);
            assert forall|a: int, b: int| 0 <= a < ev.len() && 0 <= b < ev.len() && a != b implies ev[a].key@ != ev[b].key@ by {
                let a0 = if a < m { a } else { a + 1 };
                let b0 = if b < m { b } else { b + 1 };
                assert(ev[a] == s[a0]);
                assert(ev[b] == s[b0]);
            }
        }
    }
    lemma_find_in(ev, e.key@, ev.len() as int);
    let r = upsert(ev, e);
    let j0 = find_key(ev, e.key@);
    if j0 >= 0 {
        assert(keys_distinct(r)) by {
            assert forall|a: int, b: int| 0 <= a < r.len() && 0 <= b < r.len() && a != b implies r[a].key@ != r[b].key@ by {
                if a != j0 && b != j0 {
                    assert(r[a] == ev[a] && r[b] == ev[b]);
                } else if a == j0 {
                    assert(r[b] == ev[b]);
                } else {
                    assert(r[a] == ev[a]);
                }
            }
        }
        lemma_find_unique(r, j0);
    } else {
        assert(keys_distinct(r)) by {
            assert forall|a: int, b: int| 0 <= a < r.len() && 0 <= b < r.len() && a != b implies r[a].key@ != r[b].key@ by {
                if a < ev.len() && b < ev.len() {
                    assert(r[a] == ev[a] && r[b] == ev[b]);
                } else if a < ev.len() {
                    assert(r[a] == ev[a]);
                } else {
                    assert(r[b] == ev[b]);
                }
            }
        }
        lemma_find_unique(r, ev.len() as int);
    }
}

/// Capacity: storing keeps the cache within its bound (the capacity, or one
/// entry for a zero capacity).
pub proof fn law_put_respects_capacity<V>(
    es: Seq<CacheEntry<V>>,
    max_entries: usize,
    ttl_seconds: u64,
    e: CacheEntry<V>,
    now: u64,
)
    requires
        es.len() <= bound(max_entries),
    ensures
        put_entries(es, max_entries, ttl_seconds, e, now).len() <= bound(max_entries),
{
    lemma_sweep(es, now, ttl_seconds);
    let s = sweep(es, now, ttl_seconds);
    let ev = evict(s, max_entries);
    if s.len() >= max_entries && s.len() > 0 {
        lemma_lru_in(s, s.len() as int);
        assert(ev.len() == s.len() - 1);
    }
    assert(ev.len() < bound(max_entries) || find_key(ev, e.key@) >= 0 || ev.len() + 1 <= bound(max_entries));
    lemma_find_in(ev, e.key@, ev.len() as int);
}

/// Eviction removes an entry accessed no later than any other swept entry.
pub proof fn law_evicts_least_recently_accessed<V>(es: Seq<CacheEntry<V>>, max_entries: usize)
    requires
        es.len() >= max_entries,
        es.len() > 0,
    ensures
        ({
            let m = lru_in(es, es.len() as int);
            &&& 0 <= m < es.len()
            &&& evict(es, max_entries) == es.remove(m)
            &&& forall|i: int| 0 <= i < es.len() ==> es[m].last_accessed <= (#[trigger] es[i]).last_accessed
        }),
{
    lemma_lru_in(es, es.len() as int);
}

} // verus!
