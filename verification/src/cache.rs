//! The response cache: which requests are cached, the cache key of a
//! request, and the in-memory store with expiry. Times are monotonic
//! instants in milliseconds, handed in by the caller.
use vstd::prelude::*;
use vstd::string::StringExecFns;
use crate::error::pairs_view;
use crate::digest::{hex_encode, hex_text, sha256, sha256_of};
use crate::sorting::{KeyPart, PartV, comes_before, is_sorted_order, key_less, key_view, keys_view, part_less, sort_order};
use crate::text::{lemma_less_irreflexive, lemma_less_total, lemma_less_transitive, seq_less};
use crate::text::{split, split_seq, starts_with, to_chars, views};

verus! {

/// A cached response: its headers and its body.
#[derive(Debug)]
pub struct CachedEntry {
    pub headers: Vec<(String, String)>,
    pub body: String,
}

pub type EntryV = (Seq<(Seq<char>, Seq<char>)>, Seq<char>);

pub open spec fn entry_view(e: CachedEntry) -> EntryV {
    (pairs_view(e.headers@), e.body@)
}

/// A copy of a cached entry.
pub fn copy_entry(e: &CachedEntry) -> (r: CachedEntry)
    ensures
        entry_view(r) == entry_view(*e),
{
    let mut headers: Vec<(String, String)> = Vec::new();
    let mut i: usize = 0;
    while i < e.headers.len()
        invariant
            i <= e.headers.len(),
            pairs_view(headers@) == pairs_view(e.headers@.take(i as int)),
        decreases e.headers.len() - i,
    {
        let ghost before = headers@;
        headers.push((e.headers[i].0.clone(), e.headers[i].1.clone()));
        proof {
            assert(pairs_view(headers@) =~= pairs_view(before).push((e.headers@[i as int].0@, e.headers@[i as int].1@)));
            assert(pairs_view(e.headers@.take(i + 1)) =~= pairs_view(e.headers@.take(i as int)).push(
                (e.headers@[i as int].0@, e.headers@[i as int].1@),
            ));
        }
        i = i + 1;
    }
    proof {
        assert(e.headers@.take(e.headers.len() as int) =~= e.headers@);
    }
    CachedEntry { headers, body: e.body.clone() }
}

/// Responses are cached for `GET` requests under `/api/v1/`, except the
/// liveness endpoint.
pub open spec fn cacheable(is_get: bool, path: Seq<char>) -> bool {
    is_get && "/api/v1/"@.is_prefix_of(path) && path != "/api/v1/health"@
}

/// Whether the response to this request may be cached.
pub fn is_cacheable(is_get: bool, path: &str) -> (r: bool)
    ensures
        r == cacheable(is_get, path@),
{
    is_get && starts_with(path, "/api/v1/") && path.to_owned() != "/api/v1/health".to_owned()
}

/// The stored entries: key, entry and expiry instant.
pub type StoreV = Seq<(Seq<char>, EntryV, int)>;

/// The first stored entry for `key`, with its expiry.
pub open spec fn lookup(s: StoreV, key: Seq<char>) -> Option<(EntryV, int)>
    decreases s.len(),
{
    if s.len() == 0 {
        None
    } else if s[0].0 == key {
        Some((s[0].1, s[0].2))
    } else {
        lookup(s.drop_first(), key)
    }
}

/// An in-memory cache whose entries expire.
#[derive(Debug)]
pub struct MemoryCache {
    entries: Vec<(String, CachedEntry, u64)>,
}

impl MemoryCache {
    pub closed spec fn store(&self) -> StoreV {
        self.entries@.map_values(|e: (String, CachedEntry, u64)| (e.0@, entry_view(e.1), e.2 as int))
    }

    /// What the cache holds for a key: the entry and its expiry instant.
    pub open spec fn holds(&self, key: Seq<char>) -> Option<(EntryV, int)> {
        lookup(self.store(), key)
    }

    /// No key is stored twice.
    pub closed spec fn well_formed(&self) -> bool {
        forall|i: int, j: int|
            0 <= i < j < self.entries@.len() ==> #[trigger] self.entries@[i].0@ != #[trigger] self.entries@[j].0@
    }

    pub fn new() -> (r: Self)
        ensures
            r.well_formed(),
            forall|k: Seq<char>| r.holds(k) is None,
    {
        let r = MemoryCache { entries: Vec::new() };
        proof {
            assert forall|k: Seq<char>| r.holds(k) is None by {
                assert(r.store().len() == 0);
            }
        }
        r
    }

    fn position(&self, key: &String) -> (r: Option<usize>)
        requires
            self.well_formed(),
        ensures
            match r {
                Some(i) => i < self.entries.len() && self.entries@[i as int].0@ == key@,
                None => forall|i: int| 0 <= i < self.entries.len() ==> self.entries@[i].0@ != key@,
            },
    {
        let mut i: usize = 0;
        while i < self.entries.len()
            invariant
                i <= self.entries.len(),
                forall|j: int| 0 <= j < i ==> self.entries@[j].0@ != key@,
            decreases self.entries.len() - i,
        {
            if self.entries[i].0 == *key {
                return Some(i);
            }
            i = i + 1;
        }
        None
    }
}

proof fn lemma_lookup_at(s: StoreV, key: Seq<char>, i: int)
    requires
        0 <= i < s.len(),
        s[i].0 == key,
        forall|j: int| 0 <= j < s.len() && j != i ==> s[j].0 != key,
    ensures
        lookup(s, key) == Some((s[i].1, s[i].2)),
    decreases i,
{
    if i > 0 {
        lemma_lookup_at(s.drop_first(), key, i - 1);
    }
}

proof fn lemma_lookup_absent(s: StoreV, key: Seq<char>)
    requires
        forall|j: int| 0 <= j < s.len() ==> s[j].0 != key,
    ensures
        lookup(s, key) is None,
    decreases s.len(),
{
    if s.len() > 0 {
        lemma_lookup_absent(s.drop_first(), key);
    }
}

/// With distinct keys, the lookup of a key finds its one entry.
proof fn lemma_lookup_unique(s: StoreV, key: Seq<char>)
    requires
        forall|i: int, j: int| 0 <= i < j < s.len() ==> s[i].0 != s[j].0,
    ensures
        match lookup(s, key) {
            Some(v) => exists|i: int| 0 <= i < s.len() && s[i].0 == key && v == (s[i].1, s[i].2),
            None => forall|j: int| 0 <= j < s.len() ==> s[j].0 != key,
        },
    decreases s.len(),
{
    if s.len() > 0 {
        lemma_lookup_unique(s.drop_first(), key);
        if s[0].0 != key {
            match lookup(s.drop_first(), key) {
                Some(v) => {
                    let i = choose|i: int| 0 <= i < s.drop_first().len() && s.drop_first()[i].0 == key && v == (s.drop_first()[i].1, s.drop_first()[i].2);
                    assert(s[i + 1].0 == key);
                },
                None => {
                    assert forall|j: int| 0 <= j < s.len() implies s[j].0 != key by {
                        if j > 0 {
                            assert(s.drop_first()[j - 1] == s[j]);
                        }
                    }
                },
            }
        }
    }
}


impl MemoryCache {
    proof fn lemma_store(&self, i: int)
        requires
            0 <= i < self.entries@.len(),
        ensures
            self.store()[i] == (self.entries@[i].0@, entry_view(self.entries@[i].1), self.entries@[i].2 as int),
            self.store().len() == self.entries@.len(),
    {
    }

    /// The entry for `key` unless it has expired by `now`; an expired entry
    /// is dropped.
    pub fn get(&mut self, key: &str, now: u64) -> (r: Option<CachedEntry>)
        requires
            old(self).well_formed(),
        ensures
            final(self).well_formed(),
            match old(self).holds(key@) {
                Some(v) => if v.1 > now {
                    &&& r matches Some(x) && entry_view(x) == v.0
                    &&& forall|k: Seq<char>| #[trigger] final(self).holds(k) == old(self).holds(k)
                } else {
                    &&& r is None
                    &&& forall|k: Seq<char>|
                        #[trigger] final(self).holds(k) == if k == key@ {
                            None
                        } else {
                            old(self).holds(k)
                        }
                },
                None => {
                    &&& r is None
                    &&& forall|k: Seq<char>| #[trigger] final(self).holds(k) == old(self).holds(k)
                },
            },
    {
        let k = key.to_owned();
        let ghost s0 = self.store();
        proof {
            assert forall|i: int, j: int| 0 <= i < j < s0.len() implies s0[i].0 != s0[j].0 by {
                self.lemma_store(i);
                self.lemma_store(j);
            }
        }
        let result = match self.position(&k) {
            Some(i) => {
                proof {
                    self.lemma_store(i as int);
                    assert forall|j: int| 0 <= j < s0.len() && j != i implies s0[j].0 != key@ by {
                        self.lemma_store(j);
                    }
                    lemma_lookup_at(s0, key@, i as int);
                }
                if self.entries[i].2 > now {
                    Some(copy_entry(&self.entries[i].1))
                } else {
                    let ghost e0 = self.entries@;
                    self.entries.remove(i);
                    proof {
                        let s1 = self.store();
                        assert(self.entries@ =~= e0.remove(i as int));
                        assert forall|a: int, b: int| 0 <= a < b < self.entries@.len() implies #[trigger] self.entries@[a].0@
                            != #[trigger] self.entries@[b].0@ by {
                            let a0 = if a < i { a } else { a + 1 };
                            let b0 = if b < i { b } else { b + 1 };
                            assert(self.entries@[a] == e0[a0]);
                            assert(self.entries@[b] == e0[b0]);
                            assert(s0[a0].0 != s0[b0].0);
                            self.lemma_store(a);
                        }
                        assert(s1 =~= s0.remove(i as int));
                        assert forall|x: Seq<char>| #[trigger] lookup(s1, x) == if x == key@ {
                            None
                        } else {
                            lookup(s0, x)
                        } by {
                            assert forall|a: int, b: int| 0 <= a < b < s1.len() implies s1[a].0 != s1[b].0 by {
                                let a0 = if a < i { a } else { a + 1 };
                                let b0 = if b < i { b } else { b + 1 };
                                assert(s1[a] == s0[a0]);
                                assert(s1[b] == s0[b0]);
                            }
                            lemma_lookup_unique(s0, x);
                            lemma_lookup_unique(s1, x);
                            if x == key@ {
                                assert forall|j: int| 0 <= j < s1.len() implies s1[j].0 != x by {
                                    let j0 = if j < i { j } else { j + 1 };
                                    assert(s1[j] == s0[j0]);
                                }
                                lemma_lookup_absent(s1, x);
                            } else {
                                match lookup(s0, x) {
                                    Some(v) => {
                                        let t = choose|t: int| 0 <= t < s0.len() && s0[t].0 == x && v == (s0[t].1, s0[t].2);
                                        assert(t != i);
                                        let t1 = if t < i { t } else { t - 1 };
                                        assert(s1[t1] == s0[t]);
                                        assert forall|j: int| 0 <= j < s1.len() && j != t1 implies s1[j].0 != x by {
                                            let j0 = if j < i { j } else { j + 1 };
                                            assert(s1[j] == s0[j0]);
                                        }
                                        lemma_lookup_at(s1, x, t1);
                                    },
                                    None => {
                                        assert forall|j: int| 0 <= j < s1.len() implies s1[j].0 != x by {
                                            let j0 = if j < i { j } else { j + 1 };
                                            assert(s1[j] == s0[j0]);
                                        }
                                        lemma_lookup_absent(s1, x);
                                    },
                                }
                            }
                        }
                    }
                    None
                }
            },
            None => {
                proof {
                    assert forall|j: int| 0 <= j < s0.len() implies s0[j].0 != key@ by {
                        self.lemma_store(j);
                    }
                    lemma_lookup_absent(s0, key@);
                }
                None
            },
        };
        result
    }

    /// Stores `entry` under `key` until `now + ttl`.
    pub fn set(&mut self, key: &str, entry: &CachedEntry, ttl: u64, now: u64)
        requires
            old(self).well_formed(),
            now + ttl <= u64::MAX,
        ensures
            final(self).well_formed(),
            forall|k: Seq<char>|
                #[trigger] final(self).holds(k) == if k == key@ {
                    Some((entry_view(*entry), now + ttl))
                } else {
                    old(self).holds(k)
                },
    {
        let k = key.to_owned();
        let ghost s0 = self.store();
        let expires = now + ttl;
        let copy = copy_entry(entry);
        proof {
            assert forall|i: int, j: int| 0 <= i < j < s0.len() implies s0[i].0 != s0[j].0 by {
                self.lemma_store(i);
                self.lemma_store(j);
            }
        }
        match self.position(&k) {
            Some(i) => {
                let ghost e0 = self.entries@;
                self.entries.set(i, (k, copy, expires));
                proof {
                    let s1 = self.store();
                    assert forall|j: int| 0 <= j < s1.len() implies #[trigger] s1[j] == if j == i {
                        (key@, entry_view(*entry), expires as int)
                    } else {
                        s0[j]
                    } by {
                        self.lemma_store(j);
                    }
                    assert forall|a: int, b: int| 0 <= a < b < self.entries@.len() implies #[trigger] self.entries@[a].0@
                        != #[trigger] self.entries@[b].0@ by {
                        self.lemma_store(a);
                        self.lemma_store(b);
                        assert(s1[a].0 != s1[b].0);
                    }
                    assert forall|x: Seq<char>| #[trigger] lookup(s1, x) == if x == key@ {
                        Some((entry_view(*entry), now + ttl))
                    } else {
                        lookup(s0, x)
                    } by {
                        lemma_lookup_unique(s0, x);
                        if x == key@ {
                            lemma_lookup_at(s1, x, i as int);
                        } else {
                            match lookup(s0, x) {
                                Some(v) => {
                                    let t = choose|t: int| 0 <= t < s0.len() && s0[t].0 == x && v == (s0[t].1, s0[t].2);
                                    lemma_lookup_at(s1, x, t);
                                },
                                None => {
                                    lemma_lookup_absent(s1, x);
                                },
                            }
                        }
                    }
                }
            },
            None => {
                let ghost e0 = self.entries@;
                self.entries.push((k, copy, expires));
                proof {
                    let s1 = self.store();
                    assert forall|j: int| 0 <= j < s1.len() implies #[trigger] s1[j] == if j == s0.len() {
                        (key@, entry_view(*entry), expires as int)
                    } else {
                        s0[j]
                    } by {
                        self.lemma_store(j);
                    }
                    assert forall|j: int| 0 <= j < s0.len() implies s0[j].0 != key@ by {
                        self.lemma_store(j);
                    }
                    assert forall|a: int, b: int| 0 <= a < b < self.entries@.len() implies #[trigger] self.entries@[a].0@
                        != #[trigger] self.entries@[b].0@ by {
                        self.lemma_store(a);
                        self.lemma_store(b);
                        assert(s1[a].0 != s1[b].0);
                    }
                    assert forall|x: Seq<char>| #[trigger] lookup(s1, x) == if x == key@ {
                        Some((entry_view(*entry), now + ttl))
                    } else {
                        lookup(s0, x)
                    } by {
                        lemma_lookup_unique(s0, x);
                        if x == key@ {
                            lemma_lookup_at(s1, x, s0.len() as int);
                        } else {
                            match lookup(s0, x) {
                                Some(v) => {
                                    let t = choose|t: int| 0 <= t < s0.len() && s0[t].0 == x && v == (s0[t].1, s0[t].2);
                                    lemma_lookup_at(s1, x, t);
                                },
                                None => {
                                    lemma_lookup_absent(s1, x);
                                },
                            }
                        }
                    }
                }
            },
        }
    }
}


/// Where cached responses are kept: nowhere, or in memory.
#[derive(Debug)]
pub enum CacheStore {
    Noop,
    Memory(MemoryCache),
}

/// A response cache with the time-to-live given to new entries.
#[derive(Debug)]
pub struct Cache {
    store: CacheStore,
    ttl: u64,
}

impl Cache {
    /// What the cache holds for a key; a cache that keeps nothing holds
    /// nothing.
    pub open spec fn holds(&self, key: Seq<char>) -> Option<(EntryV, int)> {
        match self.store_spec() {
            CacheStore::Noop => None,
            CacheStore::Memory(m) => m.holds(key),
        }
    }

    pub closed spec fn store_spec(&self) -> CacheStore {
        self.store
    }

    pub closed spec fn ttl_spec(&self) -> u64 {
        self.ttl
    }

    pub open spec fn is_noop(&self) -> bool {
        self.store_spec() is Noop
    }

    pub closed spec fn well_formed(&self) -> bool {
        match self.store {
            CacheStore::Noop => true,
            CacheStore::Memory(m) => m.well_formed(),
        }
    }

    /// A cache that keeps nothing.
    pub fn noop() -> (r: Self)
        ensures
            r.well_formed(),
            r.is_noop(),
            r.ttl_spec() == 0,
    {
        Cache { store: CacheStore::Noop, ttl: 0 }
    }

    /// An empty in-memory cache whose entries live `ttl` milliseconds.
    pub fn memory(ttl: u64) -> (r: Self)
        ensures
            r.well_formed(),
            !r.is_noop(),
            r.ttl_spec() == ttl,
            forall|k: Seq<char>| r.holds(k) is None,
    {
        Cache { store: CacheStore::Memory(MemoryCache::new()), ttl }
    }

    /// The time-to-live of new entries.
    pub fn ttl(&self) -> (r: u64)
        ensures
            r == self.ttl_spec(),
    {
        self.ttl
    }

    /// The effect of a read at `now`: the live entry is returned and kept;
    /// an expired one is dropped; a missing one is a miss.
    pub open spec fn after_get(old: Cache, new: Cache, key: Seq<char>, now: int, r: Option<EntryV>) -> bool {
        &&& new.is_noop() == old.is_noop()
        &&& new.ttl_spec() == old.ttl_spec()
        &&& match old.holds(key) {
            Some(v) => if v.1 > now {
                &&& r == Some(v.0)
                &&& forall|k: Seq<char>| #[trigger] new.holds(k) == old.holds(k)
            } else {
                &&& r is None
                &&& forall|k: Seq<char>|
                    #[trigger] new.holds(k) == if k == key {
                        None
                    } else {
                        old.holds(k)
                    }
            },
            None => {
                &&& r is None
                &&& forall|k: Seq<char>| #[trigger] new.holds(k) == old.holds(k)
            },
        }
    }

    /// The effect of a write: the key now holds the entry until `expires`,
    /// unless the cache keeps nothing; other keys are unchanged.
    pub open spec fn after_set(old: Cache, new: Cache, key: Seq<char>, e: EntryV, expires: int) -> bool {
        &&& new.is_noop() == old.is_noop()
        &&& new.ttl_spec() == old.ttl_spec()
        &&& forall|k: Seq<char>|
            #[trigger] new.holds(k) == if k == key && !old.is_noop() {
                Some((e, expires))
            } else {
                old.holds(k)
            }
    }

    /// The entry for `key` unless it has expired by `now`.
    pub fn get(&mut self, key: &str, now: u64) -> (r: Option<CachedEntry>)
        requires
            old(self).well_formed(),
        ensures
            final(self).well_formed(),
            Cache::after_get(*old(self), *final(self), key@, now as int, match r {
                Some(x) => Some(entry_view(x)),
                None => None,
            }),
    {
        match &mut self.store {
            CacheStore::Noop => None,
            CacheStore::Memory(m) => m.get(key, now),
        }
    }

    /// Stores `entry` under `key` until `now + ttl`; a cache that keeps
    /// nothing stays empty.
    pub fn set(&mut self, key: &str, entry: &CachedEntry, ttl: u64, now: u64)
        requires
            old(self).well_formed(),
            now + ttl <= u64::MAX,
        ensures
            final(self).well_formed(),
            Cache::after_set(*old(self), *final(self), key@, entry_view(*entry), now + ttl),
    {
        match &mut self.store {
            CacheStore::Noop => {},
            CacheStore::Memory(m) => m.set(key, entry, ttl, now),
        }
    }
}

/// What is read back after a write: an entry written at `t0` with a
/// time-to-live `ttl` to a cache that keeps entries is returned by a read of
/// the same key at any `t1` before `t0 + ttl`.
pub proof fn lemma_read_after_write(
    c0: Cache,
    c1: Cache,
    c2: Cache,
    key: Seq<char>,
    e: EntryV,
    t0: int,
    ttl: int,
    t1: int,
    r: Option<EntryV>,
)
    requires
        !c0.is_noop(),
        Cache::after_set(c0, c1, key, e, t0 + ttl),
        Cache::after_get(c1, c2, key, t1, r),
        t1 < t0 + ttl,
    ensures
        r == Some(e),
{
    assert(c1.holds(key) == Some((e, t0 + ttl)));
}

/// An entry is not returned once its time-to-live has passed, and it is
/// dropped.
pub proof fn lemma_entry_expires(
    c0: Cache,
    c1: Cache,
    c2: Cache,
    key: Seq<char>,
    e: EntryV,
    t0: int,
    ttl: int,
    t1: int,
    r: Option<EntryV>,
)
    requires
        Cache::after_set(c0, c1, key, e, t0 + ttl),
        Cache::after_get(c1, c2, key, t1, r),
        t1 >= t0 + ttl,
    ensures
        r is None,
        c2.holds(key) is None,
{
    assert(c1.holds(key) == Some((e, t0 + ttl)) || c0.is_noop());
    if c0.is_noop() {
        assert(c1.holds(key) is None);
        assert(c2.holds(key) == c1.holds(key));
    }
}

/// A cache that keeps nothing misses on every read, whatever was written.
pub proof fn lemma_noop_always_misses(c0: Cache, c1: Cache, c2: Cache, key: Seq<char>, e: EntryV, expires: int, now: int, r: Option<EntryV>)
    requires
        c0.is_noop(),
        Cache::after_set(c0, c1, key, e, expires),
        Cache::after_get(c1, c2, key, now, r),
    ensures
        r is None,
{
    assert(c1.holds(key) is None);
}

/// A write to one key leaves every other key as it was.
pub proof fn lemma_write_is_local(c0: Cache, c1: Cache, key: Seq<char>, other: Seq<char>, e: EntryV, expires: int)
    requires
        Cache::after_set(c0, c1, key, e, expires),
        other != key,
    ensures
        c1.holds(other) == c0.holds(other),
{
}


/// The non-empty `&`-separated pairs of a query string.
pub open spec fn query_pairs(query: Seq<char>) -> Seq<Seq<char>> {
    split_seq(query, '&').filter(|p: Seq<char>| p.len() > 0)
}

/// The texts joined with `&` between them.
pub open spec fn join_amp(ps: Seq<Seq<char>>) -> Seq<char>
    decreases ps.len(),
{
    if ps.len() == 0 {
        Seq::empty()
    } else if ps.len() == 1 {
        ps[0]
    } else {
        join_amp(ps.drop_last()) + seq!['&'] + ps.last()
    }
}

pub open spec fn text_keys(ps: Seq<Seq<char>>) -> Seq<Seq<PartV>> {
    ps.map_values(|p: Seq<char>| seq![(true, 0int, p)])
}

/// The texts in the order `p`.
pub open spec fn arranged(ps: Seq<Seq<char>>, p: Seq<usize>) -> Seq<Seq<char>> {
    p.map_values(|i: usize| ps[i as int])
}

/// The text without the double quotes at its start.
pub open spec fn strip_quotes_left(s: Seq<char>) -> Seq<char>
    decreases s.len(),
{
    if s.len() > 0 && s[0] == '"' {
        strip_quotes_left(s.drop_first())
    } else {
        s
    }
}

/// The text without the double quotes at its end.
pub open spec fn strip_quotes_right(s: Seq<char>) -> Seq<char>
    decreases s.len(),
{
    if s.len() > 0 && s.last() == '"' {
        strip_quotes_right(s.drop_last())
    } else {
        s
    }
}

/// The cache key of a request: the entity tag without its quotes, the path,
/// and the hex SHA-256 of the query's pairs in sorted order.
pub open spec fn cache_key(etag: Seq<char>, path: Seq<char>, normalized: Seq<char>) -> Seq<char> {
    "almanac:"@ + strip_quotes_right(strip_quotes_left(etag)) + ":"@ + path + ":"@ + hex_text(
        sha256_of(vstd::utf8::encode_utf8(normalized)),
    )
}

fn nonempty_pairs(query: &str) -> (r: Vec<String>)
    ensures
        views(r@) == query_pairs(query@),
{
    let pieces = split(query, '&');
    let ghost ps = split_seq(query@, '&');
    let mut out: Vec<String> = Vec::new();
    let mut i: usize = 0;
    while i < pieces.len()
        invariant
            i <= pieces.len(),
            views(pieces@) == ps,
            views(out@) == ps.take(i as int).filter(|p: Seq<char>| p.len() > 0),
        decreases pieces.len() - i,
    {
        proof {
            reveal(Seq::filter);
            assert(ps.take(i + 1).drop_last() =~= ps.take(i as int));
            assert(ps[i as int] == pieces@[i as int]@);
        }
        if !pieces[i].as_str().is_empty() {
            let ghost before = out@;
            out.push(pieces[i].clone());
            proof {
                assert(views(out@) =~= views(before).push(pieces@[i as int]@));
            }
        }
        i = i + 1;
    }
    proof {
        assert(ps.take(ps.len() as int) =~= ps);
    }
    out
}

fn strip_quotes(etag: &str) -> (r: String)
    ensures
        r@ == strip_quotes_right(strip_quotes_left(etag@)),
{
    let v = to_chars(etag);
    let mut a: usize = 0;
    proof {
        assert(v@.subrange(0, v.len() as int) =~= v@);
    }
    while a < v.len() && v[a] == '"'
        invariant
            a <= v.len(),
            strip_quotes_left(v@) == strip_quotes_left(v@.subrange(a as int, v.len() as int)),
        decreases v.len() - a,
    {
        proof {
            assert(v@.subrange(a as int, v.len() as int).drop_first() =~= v@.subrange(a + 1, v.len() as int));
        }
        a = a + 1;
    }
    let mut b: usize = v.len();
    proof {
        assert(v@.subrange(0, v.len() as int) =~= v@);
        assert(strip_quotes_left(v@) == v@.subrange(a as int, v.len() as int));
    }
    while b > a && v[b - 1] == '"'
        invariant
            a <= b <= v.len(),
            strip_quotes_right(v@.subrange(a as int, v.len() as int)) == strip_quotes_right(
                v@.subrange(a as int, b as int),
            ),
        decreases b,
    {
        proof {
            assert(v@.subrange(a as int, b as int).drop_last() =~= v@.subrange(a as int, b - 1));
        }
        b = b - 1;
    }
    crate::text::string_of_range(&v, a, b)
}

/// The key under which a response to a request is cached.
pub fn build_cache_key(etag: &str, path: &str, query: &str) -> (r: String)
    ensures
        is_cache_key_of(r@, etag@, path@, query@),
{
    let pairs = nonempty_pairs(query);
    let ghost ps = views(pairs@);
    let mut keys: Vec<Vec<KeyPart>> = Vec::new();
    let mut j: usize = 0;
    while j < pairs.len()
        invariant
            j <= pairs.len(),
            ps == views(pairs@),
            keys_view(keys@) == text_keys(ps.take(j as int)),
        decreases pairs.len() - j,
    {
        let key = vec![KeyPart::Text(pairs[j].clone())];
        let ghost before = keys@;
        keys.push(key);
        proof {
            assert(key_view(key@) =~= seq![(true, 0int, ps[j as int])]);
            assert(keys_view(keys@) =~= keys_view(before).push(key_view(key@)));
            assert(text_keys(ps.take(j + 1)) =~= text_keys(ps.take(j as int)).push(seq![(true, 0int, ps[j as int])]));
        }
        j = j + 1;
    }
    proof {
        assert(ps.take(ps.len() as int) =~= ps);
    }
    let order = sort_order(&keys, false);
    let mut normalized = String::new();
    let mut k: usize = 0;
    proof {
        assert(arranged(ps, order@.take(0)) =~= Seq::<Seq<char>>::empty());
    }
    while k < order.len()
        invariant
            k <= order.len(),
            order.len() == ps.len(),
            ps == views(pairs@),
            forall|t: int| 0 <= t < order.len() ==> #[trigger] order@[t] < ps.len(),
            normalized@ == join_amp(arranged(ps, order@.take(k as int))),
        decreases order.len() - k,
    {
        let piece = &pairs[order[k]];
        proof {
            assert(order@.take(k + 1).drop_last() =~= order@.take(k as int));
            assert(arranged(ps, order@.take(k + 1)).drop_last() =~= arranged(ps, order@.take(k as int)));
            assert(arranged(ps, order@.take(k + 1)).last() == piece@);
        }
        if k > 0 {
            normalized.append("&");
            proof {
                reveal_strlit("&");
            }
        }
        normalized.append(piece.as_str());
        proof {
            if k == 0 {
                assert(normalized@ =~= join_amp(arranged(ps, order@.take(1))));
            } else {
                assert(normalized@ =~= join_amp(arranged(ps, order@.take(k + 1))));
            }
        }
        k = k + 1;
    }
    proof {
        assert(order@.take(order.len() as int) =~= order@);
    }
    let bytes = normalized.as_str().as_bytes();
    let digest = sha256(bytes);
    let hash = hex_encode(digest.as_slice());
    let clean = strip_quotes(etag);
    let key = String::from_str("almanac:");
    let key = key.concat(clean.as_str());
    let key = key.concat(":");
    let key = key.concat(path);
    let key = key.concat(":");
    let key = key.concat(hash.as_str());
    proof {
        assert(is_sorted_order(order@, text_keys(query_pairs(query@)), false));
    }
    key
}


/// Text order that admits equal texts.
pub open spec fn text_leq(a: Seq<char>, b: Seq<char>) -> bool {
    a == b || seq_less(a, b)
}

proof fn lemma_text_leq_total()
    ensures
        vstd::relations::total_ordering(|a: Seq<char>, b: Seq<char>| text_leq(a, b)),
{
    let leq = |a: Seq<char>, b: Seq<char>| text_leq(a, b);
    assert forall|x: Seq<char>| #[trigger] leq(x, x) by {}
    assert forall|x: Seq<char>, y: Seq<char>| #[trigger] leq(x, y) && #[trigger] leq(y, x) implies x == y by {
        lemma_less_total(x, y);
    }
    assert forall|x: Seq<char>, y: Seq<char>, z: Seq<char>|
        #[trigger] leq(x, y) && #[trigger] leq(y, z) implies leq(x, z) by {
        if x != y && y != z {
            lemma_less_transitive(x, y, z);
        }
    }
    assert forall|x: Seq<char>, y: Seq<char>| #[trigger] leq(x, y) || #[trigger] leq(y, x) by {
        lemma_less_total(x, y);
    }
}

/// Sorting by text keys puts the texts in text order.
proof fn lemma_arranged_sorted(ps: Seq<Seq<char>>, p: Seq<usize>)
    requires
        is_sorted_order(p, text_keys(ps), false),
    ensures
        vstd::relations::sorted_by(arranged(ps, p), |a: Seq<char>, b: Seq<char>| text_leq(a, b)),
{
    let ks = text_keys(ps);
    let a = arranged(ps, p);
    assert forall|i: int, j: int| 0 <= i < j < a.len() implies #[trigger] text_leq(a[i], a[j]) by {
        assert(comes_before(ks, p[i] as int, p[j] as int, false));
        let x = ps[p[i] as int];
        let y = ps[p[j] as int];
        assert(ks[p[i] as int] == seq![(true, 0int, x)]);
        assert(ks[p[j] as int] == seq![(true, 0int, y)]);
        if x != y {
            assert(seq![(true, 0int, x)][0] != seq![(true, 0int, y)][0]);
            assert(key_less(seq![(true, 0int, x)], seq![(true, 0int, y)]));
            assert(part_less((true, 0int, x), (true, 0int, y)));
        }
    }
}

/// The query pairs sorted for the key do not depend on the order in which
/// the query gave them: two queries with the same pairs, in any order, sort
/// to the same text and so get the same cache key.
pub proof fn lemma_cache_key_ignores_pair_order(
    etag: Seq<char>,
    path: Seq<char>,
    q1: Seq<char>,
    q2: Seq<char>,
    p1: Seq<usize>,
    p2: Seq<usize>,
)
    requires
        query_pairs(q1).to_multiset() == query_pairs(q2).to_multiset(),
        is_sorted_order(p1, text_keys(query_pairs(q1)), false),
        is_sorted_order(p2, text_keys(query_pairs(q2)), false),
    ensures
        arranged(query_pairs(q1), p1) == arranged(query_pairs(q2), p2),
        cache_key(etag, path, join_amp(arranged(query_pairs(q1), p1))) == cache_key(
            etag,
            path,
            join_amp(arranged(query_pairs(q2), p2)),
        ),
{
    let s1 = query_pairs(q1);
    let s2 = query_pairs(q2);
    crate::sorting::lemma_pick_multiset(s1, p1);
    crate::sorting::lemma_pick_multiset(s2, p2);
    assert(arranged(s1, p1) =~= crate::sorting::pick(s1, p1));
    assert(arranged(s2, p2) =~= crate::sorting::pick(s2, p2));
    lemma_arranged_sorted(s1, p1);
    lemma_arranged_sorted(s2, p2);
    lemma_text_leq_total();
    vstd::seq_lib::lemma_sorted_unique(
        arranged(s1, p1),
        arranged(s2, p2),
        |a: Seq<char>, b: Seq<char>| text_leq(a, b),
    );
}


/// What `build_cache_key` returns for a request.
pub open spec fn is_cache_key_of(r: Seq<char>, etag: Seq<char>, path: Seq<char>, query: Seq<char>) -> bool {
    exists|p: Seq<usize>|
        #[trigger] is_sorted_order(p, text_keys(query_pairs(query)), false) && r == cache_key(
            etag,
            path,
            join_amp(arranged(query_pairs(query), p)),
        )
}

/// Reordering the parts of a query does not change its cache key: two
/// queries with the same non-empty `&`-separated pairs, in any order, get the
/// same key from `build_cache_key` for the same tag and path.
pub proof fn lemma_build_cache_key_ignores_query_order(
    etag: Seq<char>,
    path: Seq<char>,
    q1: Seq<char>,
    q2: Seq<char>,
    r1: Seq<char>,
    r2: Seq<char>,
)
    requires
        query_pairs(q1).to_multiset() == query_pairs(q2).to_multiset(),
        is_cache_key_of(r1, etag, path, q1),
        is_cache_key_of(r2, etag, path, q2),
    ensures
        r1 == r2,
{
    let p1 = choose|p: Seq<usize>|
        #[trigger] is_sorted_order(p, text_keys(query_pairs(q1)), false) && r1 == cache_key(
            etag,
            path,
            join_amp(arranged(query_pairs(q1), p)),
        );
    let p2 = choose|p: Seq<usize>|
        #[trigger] is_sorted_order(p, text_keys(query_pairs(q2)), false) && r2 == cache_key(
            etag,
            path,
            join_amp(arranged(query_pairs(q2), p)),
        );
    lemma_cache_key_ignores_pair_order(etag, path, q1, q2, p1, p2);
}

/// Cached entries follow the catalog: for the same path and query, two
/// entity tags that differ (once stripped of their quotes) give different
/// keys, so a reloaded catalog never reads the entries of the previous one.
pub proof fn lemma_key_tracks_etag(e1: Seq<char>, e2: Seq<char>, path: Seq<char>, normalized: Seq<char>)
    requires
        strip_quotes_right(strip_quotes_left(e1)) != strip_quotes_right(strip_quotes_left(e2)),
    ensures
        cache_key(e1, path, normalized) != cache_key(e2, path, normalized),
{
    let t1 = strip_quotes_right(strip_quotes_left(e1));
    let t2 = strip_quotes_right(strip_quotes_left(e2));
    let tail = ":"@ + path + ":"@ + hex_text(sha256_of(vstd::utf8::encode_utf8(normalized)));
    let k1 = cache_key(e1, path, normalized);
    let k2 = cache_key(e2, path, normalized);
    assert(k1 =~= "almanac:"@ + t1 + tail);
    assert(k2 =~= "almanac:"@ + t2 + tail);
    if k1 == k2 {
        let h = "almanac:"@.len();
        assert(t1.len() == t2.len());
        assert(k1.subrange(h as int, (h + t1.len()) as int) =~= t1);
        assert(k2.subrange(h as int, (h + t2.len()) as int) =~= t2);
    }
}

/// Different paths get different keys, whatever the tag and the query.
pub proof fn lemma_key_tracks_path(etag: Seq<char>, p1: Seq<char>, p2: Seq<char>, normalized: Seq<char>)
    requires
        p1 != p2,
    ensures
        cache_key(etag, p1, normalized) != cache_key(etag, p2, normalized),
{
    let t = strip_quotes_right(strip_quotes_left(etag));
    let h = hex_text(sha256_of(vstd::utf8::encode_utf8(normalized)));
    let head = "almanac:"@ + t + ":"@;
    let k1 = cache_key(etag, p1, normalized);
    let k2 = cache_key(etag, p2, normalized);
    assert(k1 =~= head + p1 + (":"@ + h));
    assert(k2 =~= head + p2 + (":"@ + h));
    if k1 == k2 {
        assert(p1.len() == p2.len());
        assert(k1.subrange(head.len() as int, (head.len() + p1.len()) as int) =~= p1);
        assert(k2.subrange(head.len() as int, (head.len() + p2.len()) as int) =~= p2);
    }
}

} // verus!
