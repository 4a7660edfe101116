//! TTL-aware DNS response cache with bounded capacity and eviction.
//!
//! The cache is a sequential structure over an explicit monotonic clock:
//! every operation takes the current time in milliseconds, so its behaviour
//! is exact. Callers that share it across tasks wrap it in a lock.

use vstd::prelude::*;
use crate::dns_records::{DnsRecord, clone_records, records_eq};
use crate::record_types::RecordType;
use crate::utils::normalized_domain;

verus! {

/// Cache key: normalized domain and record type.
#[derive(Debug, Clone)]
pub struct CacheKey {
    /// The queried domain, lowercased with the trailing dot stripped.
    pub domain: String,
    /// The queried record type.
    pub record_type: RecordType,
}

/// The mathematical key: domain text and record type.
pub type KeyView = (Seq<char>, RecordType);

/// The view of a cache key.
pub open spec fn key_view(k: CacheKey) -> KeyView {
    (k.domain@, k.record_type)
}

impl CacheKey {
    /// A key for a query: the domain is normalized (lowercase, trailing dot
    /// stripped) so that equivalent spellings share an entry.
    pub fn new(domain: &str, record_type: RecordType) -> (r: CacheKey)
        ensures
            r.domain@ == normalized_domain(domain@),
            r.record_type == record_type,
    {
        CacheKey { domain: crate::utils::normalize_domain(domain), record_type }
    }
}

impl PartialEq for CacheKey {
    fn eq(&self, other: &CacheKey) -> (r: bool) {
        self.domain == other.domain && self.record_type == other.record_type
    }
}

impl vstd::std_specs::cmp::PartialEqSpecImpl for CacheKey {
    open spec fn obeys_eq_spec() -> bool {
        true
    }

    open spec fn eq_spec(&self, other: &CacheKey) -> bool {
        self.domain@ == other.domain@ && self.record_type == other.record_type
    }
}

/// One cached response: the records, when they were stored, and for how
/// long they stay valid.
pub struct CachedResponse {
    /// The cached records.
    pub records: Vec<DnsRecord>,
    /// Monotonic clock reading at insertion, milliseconds.
    pub cached_at_ms: u64,
    /// Time to live, milliseconds.
    pub ttl_ms: u64,
}

/// A response is valid at `now` while less than its TTL has elapsed since
/// it was cached.
pub open spec fn resp_valid_at(r: CachedResponse, now_ms: u64) -> bool {
    (now_ms as int) < r.cached_at_ms + r.ttl_ms
}

/// Remaining TTL at `now`, zero once expired.
pub open spec fn resp_remaining_ms(r: CachedResponse, now_ms: u64) -> int {
    if now_ms <= r.cached_at_ms {
        r.ttl_ms as int
    } else if resp_valid_at(r, now_ms) {
        r.cached_at_ms + r.ttl_ms - now_ms
    } else {
        0
    }
}

impl CachedResponse {
    /// A new entry cached at `now_ms`.
    pub fn new(records: Vec<DnsRecord>, ttl_ms: u64, now_ms: u64) -> (r: CachedResponse)
        ensures
            r.records == records,
            r.cached_at_ms == now_ms,
            r.ttl_ms == ttl_ms,
    {
        CachedResponse { records, cached_at_ms: now_ms, ttl_ms }
    }

    /// Whether the entry is still valid at `now_ms`.
    pub fn is_valid(&self, now_ms: u64) -> (r: bool)
        ensures
            r == resp_valid_at(*self, now_ms),
    {
        if now_ms < self.cached_at_ms {
            true
        } else {
            now_ms - self.cached_at_ms < self.ttl_ms
        }
    }

    /// Remaining TTL at `now_ms`, zero once expired.
    pub fn remaining_ttl(&self, now_ms: u64) -> (r: u64)
        ensures
            r == resp_remaining_ms(*self, now_ms),
    {
        if now_ms <= self.cached_at_ms {
            self.ttl_ms
        } else if now_ms - self.cached_at_ms < self.ttl_ms {
            self.ttl_ms - (now_ms - self.cached_at_ms)
        } else {
            0
        }
    }
}

/// The key of a stored entry.
pub open spec fn entry_key(e: (CacheKey, CachedResponse)) -> KeyView {
    key_view(e.0)
}

/// No two entries share a key.
pub open spec fn distinct_keys(s: Seq<(CacheKey, CachedResponse)>) -> bool {
    forall|i: int, j: int|
        0 <= i < s.len() && 0 <= j < s.len() && i != j ==> entry_key(#[trigger] s[i]) != entry_key(
            #[trigger] s[j],
        )
}

/// The stored response for a key, if any.
pub open spec fn spec_lookup(s: Seq<(CacheKey, CachedResponse)>, k: KeyView) -> Option<
    CachedResponse,
> {
    if exists|i: int| 0 <= i < s.len() && entry_key(s[i]) == k {
        let i = choose|i: int| 0 <= i < s.len() && entry_key(s[i]) == k;
        Some(s[i].1)
    } else {
        None
    }
}

/// What a lookup at time `now` returns: the stored records while the entry
/// is valid, nothing otherwise.
pub open spec fn spec_get(s: Seq<(CacheKey, CachedResponse)>, k: KeyView, now_ms: u64) -> Option<
    Seq<DnsRecord>,
> {
    match spec_lookup(s, k) {
        Some(resp) => if resp_valid_at(resp, now_ms) {
            Some(resp.records@)
        } else {
            None
        },
        None => None,
    }
}

/// With distinct keys, an entry holding the key decides the lookup.
pub proof fn lemma_lookup_unique(s: Seq<(CacheKey, CachedResponse)>, i: int)
    requires
        distinct_keys(s),
        0 <= i < s.len(),
    ensures
        spec_lookup(s, entry_key(s[i])) == Some(s[i].1),
{
    let k = entry_key(s[i]);
    assert(exists|j: int| 0 <= j < s.len() && entry_key(s[j]) == k);
    let j = choose|j: int| 0 <= j < s.len() && entry_key(s[j]) == k;
    if i != j {
        assert(entry_key(s[i]) != entry_key(s[j]));
    }
}

/// Cache statistics at one instant.
#[derive(Debug, Clone)]
pub struct CacheStats {
    /// Entries held, valid or not.
    pub total_entries: usize,
    /// Entries still valid.
    pub valid_entries: usize,
    /// Entries already expired.
    pub expired_entries: usize,
    /// Mean remaining TTL over the valid entries, milliseconds.
    pub average_ttl_ms: u64,
}

/// Number of valid entries at `now`.
pub open spec fn count_valid(s: Seq<(CacheKey, CachedResponse)>, now_ms: u64) -> int
    decreases s.len(),
{
    if s.len() == 0 {
        0
    } else {
        count_valid(s.drop_last(), now_ms) + if resp_valid_at(s.last().1, now_ms) {
            1int
        } else {
            0int
        }
    }
}

/// Sum of remaining TTLs of the valid entries at `now`.
pub open spec fn sum_remaining(s: Seq<(CacheKey, CachedResponse)>, now_ms: u64) -> int
    decreases s.len(),
{
    if s.len() == 0 {
        0
    } else {
        sum_remaining(s.drop_last(), now_ms) + if resp_valid_at(s.last().1, now_ms) {
            resp_remaining_ms(s.last().1, now_ms)
        } else {
            0int
        }
    }
}


/// Number of entries whose key differs from `k`.
pub open spec fn count_others(s: Seq<(CacheKey, CachedResponse)>, k: KeyView) -> int
    decreases s.len(),
{
    if s.len() == 0 {
        0
    } else {
        count_others(s.drop_last(), k) + if entry_key(s.last()) != k {
            1int
        } else {
            0int
        }
    }
}

/// Number of entries whose key differs from `k` and that are still valid at
/// `now_ms`.
pub open spec fn count_valid_others(
    s: Seq<(CacheKey, CachedResponse)>,
    k: KeyView,
    now_ms: u64,
) -> int
    decreases s.len(),
{
    if s.len() == 0 {
        0
    } else {
        count_valid_others(s.drop_last(), k, now_ms) + if entry_key(s.last()) != k
            && resp_valid_at(s.last().1, now_ms) {
            1int
        } else {
            0int
        }
    }
}

/// How many entries an eviction removes from a full cache of `n` valid
/// entries: a tenth, and at least one.
pub open spec fn evict_amount(n: int) -> int {
    if n / 10 >= 1 {
        n / 10
    } else {
        1
    }
}

/// The counts are bounded by each other and by the length.
pub proof fn lemma_count_bounds(s: Seq<(CacheKey, CachedResponse)>, k: KeyView, now_ms: u64)
    ensures
        0 <= count_valid_others(s, k, now_ms) <= count_others(s, k) <= s.len(),
    decreases s.len(),
{
    if s.len() > 0 {
        lemma_count_bounds(s.drop_last(), k, now_ms);
    }
}

/// Membership survives appending.
proof fn lemma_contains_after_push(
    s: Seq<(CacheKey, CachedResponse)>,
    x: (CacheKey, CachedResponse),
    y: (CacheKey, CachedResponse),
)
    requires
        s.contains(y),
    ensures
        s.push(x).contains(y),
{
    let w = choose|w: int| 0 <= w < s.len() && s[w] == y;
    assert(s.push(x)[w] == y);
}

/// TTL-aware response cache with bounded capacity.
pub struct DnsCache {
    entries: Vec<(CacheKey, CachedResponse)>,
    max_size: usize,
    default_ttl_ms: u64,
}

impl DnsCache {
    /// Well-formed: capacity at least one, keys distinct.
    pub closed spec fn wf(&self) -> bool {
        &&& self.max_size >= 1
        &&& self.entries@.len() <= self.max_size
        &&& distinct_keys(self.entries@)
    }

    /// The stored entries.
    pub closed spec fn view_entries(&self) -> Seq<(CacheKey, CachedResponse)> {
        self.entries@
    }

    /// The configured capacity.
    pub closed spec fn spec_max_size(&self) -> int {
        self.max_size as int
    }

    /// The TTL used when the caller gives none.
    pub closed spec fn spec_default_ttl_ms(&self) -> u64 {
        self.default_ttl_ms
    }

    /// A new empty cache holding at most `max_size` entries.
    pub fn new(max_size: usize, default_ttl_ms: u64) -> (r: DnsCache)
        requires
            max_size >= 1,
        ensures
            r.wf(),
            r.view_entries().len() == 0,
            r.spec_max_size() == max_size,
            r.spec_default_ttl_ms() == default_ttl_ms,
    {
        DnsCache { entries: Vec::new(), max_size, default_ttl_ms }
    }

    /// Number of entries held.
    pub fn len(&self) -> (r: usize)
        ensures
            r == self.view_entries().len(),
    {
        self.entries.len()
    }

    /// Index of the entry with this key, if any.
    fn find(&self, key: &CacheKey) -> (r: Option<usize>)
        ensures
            match r {
                Some(i) => i < self.view_entries().len() && entry_key(self.view_entries()[i as int])
                    == key_view(*key),
                None => forall|i: int|
                    0 <= i < self.view_entries().len() ==> entry_key(
                        #[trigger] self.view_entries()[i],
                    ) != key_view(*key),
            },
    {
        let mut i: usize = 0;
        while i < self.entries.len()
            invariant
                i <= self.entries@.len(),
                forall|j: int| 0 <= j < i ==> entry_key(#[trigger] self.entries@[j]) != key_view(
                    *key,
                ),
            decreases self.entries@.len() - i,
        {
            if self.entries[i].0.domain == key.domain && self.entries[i].0.record_type
                == key.record_type {
                return Some(i);
            }
            i = i + 1;
        }
        None
    }

    /// The cached records for this key if the entry exists and is still
    /// valid at `now_ms`; expired entries are not returned (lazy expiry: the
    /// entry itself stays until a later insertion purges it).
    pub fn get(&self, key: &CacheKey, now_ms: u64) -> (r: Option<Vec<DnsRecord>>)
        requires
            self.wf(),
        ensures
            match r {
                Some(recs) => spec_get(self.view_entries(), key_view(*key), now_ms) matches Some(
                    stored,
                ) && records_eq(recs@, stored),
                None => spec_get(self.view_entries(), key_view(*key), now_ms) is None,
            },
    {
        match self.find(key) {
            Some(i) => {
                proof {
                    lemma_lookup_unique(self.entries@, i as int);
                }
                let entry = &self.entries[i];
                if entry.1.is_valid(now_ms) {
                    Some(clone_records(&entry.1.records))
                } else {
                    None
                }
            },
            None => {
                proof {
                    if exists|i: int|
                        0 <= i < self.entries@.len() && entry_key(self.entries@[i]) == key_view(
                            *key,
                        ) {
                        let i = choose|i: int|
                            0 <= i < self.entries@.len() && entry_key(self.entries@[i])
                                == key_view(*key);
                        assert(false);
                    }
                }
                None
            },
        }
    }

    /// Stores a response, overwriting any previous entry for the key.
    ///
    /// The effective TTL is the caller's, or the configured default. Below
    /// capacity every other entry survives. At capacity the expired entries
    /// are purged first; only if the valid entries alone still fill the
    /// cache are about a tenth of them (at least one) evicted, and then
    /// every surviving entry is valid. After the call the key maps to the
    /// fresh entry and the entry count is within capacity.
    pub fn put(&mut self, key: CacheKey, records: Vec<DnsRecord>, ttl_ms: Option<u64>, now_ms: u64)
        requires
            old(self).wf(),
        ensures
            final(self).wf(),
            final(self).spec_max_size() == old(self).spec_max_size(),
            final(self).spec_default_ttl_ms() == old(self).spec_default_ttl_ms(),
            final(self).view_entries().len() <= old(self).spec_max_size(),
            spec_lookup(final(self).view_entries(), key_view(key)) matches Some(resp)
                && resp.records == records && resp.cached_at_ms == now_ms && resp.ttl_ms == (
            match ttl_ms {
                Some(t) => t,
                None => old(self).spec_default_ttl_ms(),
            }),
            forall|i: int|
                0 <= i < final(self).view_entries().len() && entry_key(
                    #[trigger] final(self).view_entries()[i],
                ) != key_view(key) ==> old(self).view_entries().contains(
                    final(self).view_entries()[i],
                ),
            count_others(old(self).view_entries(), key_view(key)) < old(self).spec_max_size()
                ==> final(self).view_entries().len() == count_others(
                old(self).view_entries(),
                key_view(key),
            ) + 1 && (forall|j: int|
                0 <= j < old(self).view_entries().len() && entry_key(
                    #[trigger] old(self).view_entries()[j],
                ) != key_view(key) ==> final(self).view_entries().contains(
                    old(self).view_entries()[j],
                )),
            count_others(old(self).view_entries(), key_view(key)) >= old(self).spec_max_size()
                && count_valid_others(old(self).view_entries(), key_view(key), now_ms) < old(
                self,
            ).spec_max_size() ==> final(self).view_entries().len() == count_valid_others(
                old(self).view_entries(),
                key_view(key),
                now_ms,
            ) + 1 && (forall|j: int|
                0 <= j < old(self).view_entries().len() && entry_key(
                    #[trigger] old(self).view_entries()[j],
                ) != key_view(key) && resp_valid_at(old(self).view_entries()[j].1, now_ms)
                    ==> final(self).view_entries().contains(old(self).view_entries()[j])),
            count_valid_others(old(self).view_entries(), key_view(key), now_ms) >= old(
                self,
            ).spec_max_size() ==> final(self).view_entries().len() == count_valid_others(
                old(self).view_entries(),
                key_view(key),
                now_ms,
            ) - evict_amount(
                count_valid_others(old(self).view_entries(), key_view(key), now_ms),
            ) + 1 && (forall|i: int|
                0 <= i < final(self).view_entries().len() && entry_key(
                    #[trigger] final(self).view_entries()[i],
                ) != key_view(key) ==> resp_valid_at(final(self).view_entries()[i].1, now_ms)),
    {
        let effective_ttl = match ttl_ms {
            Some(t) => t,
            None => self.default_ttl_ms,
        };
        let ghost orig = self.entries@;
        let ghost kv = key_view(key);
        let ghost n_others = count_others(orig, kv);
        let ghost n_valid = count_valid_others(orig, kv, now_ms);
        proof {
            lemma_count_bounds(orig, kv, now_ms);
        }
        let max_size = self.max_size;
        // drop any previous entry for the key, so that insertion overwrites
        let mut kept: Vec<(CacheKey, CachedResponse)> = Vec::new();
        while self.entries.len() > 0
            invariant
                self.max_size == old(self).max_size,
                self.default_ttl_ms == old(self).default_ttl_ms,
                orig == old(self).entries@,
                kv == key_view(key),
                n_others == count_others(orig, kv),
                n_valid == count_valid_others(orig, kv, now_ms),
                distinct_keys(self.entries@),
                distinct_keys(kept@),
                forall|i: int, j: int|
                    0 <= i < kept@.len() && 0 <= j < self.entries@.len() ==> entry_key(
                        #[trigger] kept@[i],
                    ) != entry_key(#[trigger] self.entries@[j]),
                forall|i: int|
                    0 <= i < kept@.len() ==> orig.contains(#[trigger] kept@[i]) && entry_key(
                        kept@[i],
                    ) != kv,
                forall|i: int|
                    0 <= i < self.entries@.len() ==> orig.contains(#[trigger] self.entries@[i]),
                kept@.len() + count_others(self.entries@, kv) == n_others,
                count_valid_others(kept@, kv, now_ms) + count_valid_others(
                    self.entries@,
                    kv,
                    now_ms,
                ) == n_valid,
                forall|j: int|
                    0 <= j < orig.len() && entry_key(#[trigger] orig[j]) != kv ==> kept@.contains(
                        orig[j],
                    ) || self.entries@.contains(orig[j]),
                kept@.len() + self.entries@.len() <= orig.len(),
            decreases self.entries@.len(),
        {
            let ghost pre = self.entries@;
            let ghost pre_kept = kept@;
            let e = self.entries.pop().unwrap();
            proof {
                assert(pre[pre.len() - 1] == e);
                assert(orig.contains(e)) by {
                    assert(orig.contains(pre[pre.len() - 1]));
                }
                assert(count_others(pre, kv) == count_others(self.entries@, kv) + (
                if entry_key(e) != kv {
                    1int
                } else {
                    0int
                }));
                assert(count_valid_others(pre, kv, now_ms) == count_valid_others(
                    self.entries@,
                    kv,
                    now_ms,
                ) + (if entry_key(e) != kv && resp_valid_at(e.1, now_ms) {
                    1int
                } else {
                    0int
                }));
            }
            let same = e.0.domain == key.domain && e.0.record_type == key.record_type;
            if !same {
                kept.push(e);
                proof {
                    assert(kept@.drop_last() =~= pre_kept);
                    assert(count_valid_others(kept@, kv, now_ms) == count_valid_others(
                        pre_kept,
                        kv,
                        now_ms,
                    ) + (if resp_valid_at(e.1, now_ms) {
                        1int
                    } else {
                        0int
                    }));
                }
            }
            proof {
                assert forall|j: int|
                    0 <= j < orig.len() && entry_key(#[trigger] orig[j]) != kv implies kept@.contains(
                    orig[j],
                ) || self.entries@.contains(orig[j]) by {
                    if pre_kept.contains(orig[j]) {
                        if same {
                            assert(kept@.contains(orig[j]));
                        } else {
                            lemma_contains_after_push(pre_kept, e, orig[j]);
                        }
                    } else if pre.contains(orig[j]) {
                        let w = choose|w: int| 0 <= w < pre.len() && pre[w] == orig[j];
                        if w < pre.len() - 1 {
                            assert(self.entries@[w] == orig[j]);
                            assert(self.entries@.contains(orig[j]));
                        } else {
                            assert(orig[j] == e);
                            assert(!same);
                            assert(kept@[kept@.len() - 1] == e);
                            assert(kept@.contains(orig[j]));
                        }
                    }
                }
            }
        }
        let ghost after_drop = kept@;
        proof {
            assert(count_others(self.entries@, kv) == 0);
            assert(count_valid_others(self.entries@, kv, now_ms) == 0);
            assert(after_drop.len() == n_others);
            assert(count_valid_others(after_drop, kv, now_ms) == n_valid);
            assert forall|j: int|
                0 <= j < orig.len() && entry_key(#[trigger] orig[j]) != kv implies after_drop.contains(
                orig[j],
            ) by {
                if self.entries@.contains(orig[j]) {
                    let w = choose|w: int|
                        0 <= w < self.entries@.len() && self.entries@[w] == orig[j];
                    assert(false);
                }
            }
        }
        // when at capacity, purge expired entries
        if kept.len() >= max_size {
            let mut valid_kept: Vec<(CacheKey, CachedResponse)> = Vec::new();
            while kept.len() > 0
                invariant
                    kv == key_view(key),
                    n_valid == count_valid_others(orig, kv, now_ms),
                    distinct_keys(kept@),
                    distinct_keys(valid_kept@),
                    forall|i: int, j: int|
                        0 <= i < valid_kept@.len() && 0 <= j < kept@.len() ==> entry_key(
                            #[trigger] valid_kept@[i],
                        ) != entry_key(#[trigger] kept@[j]),
                    forall|i: int|
                        0 <= i < valid_kept@.len() ==> orig.contains(#[trigger] valid_kept@[i])
                            && entry_key(valid_kept@[i]) != kv && resp_valid_at(
                            valid_kept@[i].1,
                            now_ms,
                        ),
                    forall|i: int|
                        0 <= i < kept@.len() ==> orig.contains(#[trigger] kept@[i]) && entry_key(
                            kept@[i],
                        ) != kv,
                    valid_kept@.len() + count_valid_others(kept@, kv, now_ms) == n_valid,
                    forall|j: int|
                        0 <= j < orig.len() && entry_key(#[trigger] orig[j]) != kv
                            && resp_valid_at(orig[j].1, now_ms) ==> valid_kept@.contains(orig[j])
                            || kept@.contains(orig[j]),
                    valid_kept@.len() + kept@.len() <= orig.len(),
                decreases kept@.len(),
            {
                let ghost pre = kept@;
                let ghost pre_valid = valid_kept@;
                let e = kept.pop().unwrap();
                proof {
                    assert(pre[pre.len() - 1] == e);
                    assert(orig.contains(e) && entry_key(e) != kv) by {
                        assert(orig.contains(pre[pre.len() - 1]));
                        assert(entry_key(pre[pre.len() - 1]) != kv);
                    }
                    assert(count_valid_others(pre, kv, now_ms) == count_valid_others(
                        kept@,
                        kv,
                        now_ms,
                    ) + (if resp_valid_at(e.1, now_ms) {
                        1int
                    } else {
                        0int
                    }));
                }
                let valid = e.1.is_valid(now_ms);
                if valid {
                    valid_kept.push(e);
                    proof {
                        assert(valid_kept@.drop_last() =~= pre_valid);
                    }
                }
                proof {
                    assert forall|j: int|
                        0 <= j < orig.len() && entry_key(#[trigger] orig[j]) != kv
                            && resp_valid_at(orig[j].1, now_ms) implies valid_kept@.contains(
                        orig[j],
                    ) || kept@.contains(orig[j]) by {
                        if pre_valid.contains(orig[j]) {
                            if valid {
                                lemma_contains_after_push(pre_valid, e, orig[j]);
                            } else {
                                assert(valid_kept@.contains(orig[j]));
                            }
                        } else if pre.contains(orig[j]) {
                            let w = choose|w: int|
                                0 <= w < pre.len() && pre[w] == orig[j];
                            if w < pre.len() - 1 {
                                assert(kept@[w] == orig[j]);
                                assert(kept@.contains(orig[j]));
                            } else {
                                assert(orig[j] == e);
                                assert(valid);
                                assert(valid_kept@[valid_kept@.len() - 1] == e);
                                assert(valid_kept@.contains(orig[j]));
                            }
                        }
                    }
                }
            }
            proof {
                assert(count_valid_others(kept@, kv, now_ms) == 0);
            }
            kept = valid_kept;
        }
        let ghost after_purge = kept@;
        // if still at capacity, evict about a tenth of the entries
        if kept.len() >= max_size {
            let mut to_remove = kept.len() / 10;
            if to_remove == 0 {
                to_remove = 1;
            }
            let ghost n0 = kept@.len() as int;
            proof {
                assert(to_remove == evict_amount(n0));
            }
            let mut t: usize = 0;
            while t < to_remove
                invariant
                    t <= to_remove,
                    kv == key_view(key),
                    1 <= to_remove <= n0,
                    to_remove == evict_amount(n0),
                    distinct_keys(kept@),
                    forall|i: int|
                        0 <= i < kept@.len() ==> orig.contains(#[trigger] kept@[i]) && entry_key(
                            kept@[i],
                        ) != kv && resp_valid_at(kept@[i].1, now_ms),
                    kept@.len() == n0 - t,
                decreases to_remove - t,
            {
                proof {
                    assert(kept@.len() >= 1);
                }
                let _dropped = kept.pop();
                t = t + 1;
            }
        }
        let resp = CachedResponse::new(records, effective_ttl, now_ms);
        let ghost before_push = kept@;
        kept.push((key, resp));
        self.entries = kept;
        proof {
            let s = self.entries@;
            assert(s.drop_last() =~= before_push);
            assert(entry_key(s[s.len() - 1]) == key_view(key));
            assert(distinct_keys(s)) by {
                assert(forall|i: int|
                    0 <= i < s.len() - 1 ==> entry_key(#[trigger] s[i]) != key_view(key));
            }
            lemma_lookup_unique(s, s.len() - 1);
            // the discipline cases
            if n_others < max_size {
                assert(after_drop.len() < max_size);
                assert(before_push == after_drop);
                assert forall|j: int|
                    0 <= j < orig.len() && entry_key(#[trigger] orig[j]) != kv implies s.contains(
                    orig[j],
                ) by {
                    lemma_contains_after_push(before_push, (key, resp), orig[j]);
                }
            } else {
                if n_valid < max_size {
                    assert(after_purge.len() == n_valid);
                    assert(before_push == after_purge);
                    assert forall|j: int|
                        0 <= j < orig.len() && entry_key(#[trigger] orig[j]) != kv
                            && resp_valid_at(orig[j].1, now_ms) implies s.contains(orig[j]) by {
                        lemma_contains_after_push(before_push, (key, resp), orig[j]);
                    }
                } else {
                    assert(after_purge.len() == n_valid);
                    assert(before_push.len() == n_valid - evict_amount(n_valid));
                }
            }
        }
    }

    /// Statistics at `now_ms`: totals and the mean remaining TTL of the
    /// valid entries.
    pub fn stats(&self, now_ms: u64) -> (r: CacheStats)
        ensures
            r.total_entries == self.view_entries().len(),
            r.valid_entries == count_valid(self.view_entries(), now_ms),
            r.expired_entries == self.view_entries().len() - count_valid(
                self.view_entries(),
                now_ms,
            ),
            r.valid_entries > 0 ==> r.average_ttl_ms == sum_remaining(self.view_entries(), now_ms)
                / (count_valid(self.view_entries(), now_ms) as int),
            r.valid_entries == 0 ==> r.average_ttl_ms == 0,
    {
        let mut valid: usize = 0;
        let mut total_rem: u128 = 0;
        let mut i: usize = 0;
        proof {
            assert(self.entries@.take(0) =~= Seq::<(CacheKey, CachedResponse)>::empty());
        }
        while i < self.entries.len()
            invariant
                i <= self.entries@.len(),
                valid == count_valid(self.entries@.take(i as int), now_ms),
                valid <= i,
                total_rem == sum_remaining(self.entries@.take(i as int), now_ms),
                total_rem <= (i as int) * 0xffff_ffff_ffff_ffff,
            decreases self.entries@.len() - i,
        {
            proof {
                let pre = self.entries@.take(i as int);
                let post = self.entries@.take(i as int + 1);
                assert(post.drop_last() =~= pre);
                assert(post.last() == self.entries@[i as int]);
                assert(resp_remaining_ms(self.entries@[i as int].1, now_ms)
                    <= 0xffff_ffff_ffff_ffff);
            }
            let entry = &self.entries[i];
            if entry.1.is_valid(now_ms) {
                valid = valid + 1;
                total_rem = total_rem + (entry.1.remaining_ttl(now_ms) as u128);
            }
            i = i + 1;
        }
        proof {
            assert(self.entries@.take(self.entries@.len() as int) =~= self.entries@);
            lemma_sum_remaining_bound(self.entries@, now_ms);
        }
        let avg: u64 = if valid > 0 {
            proof {
                let sum = sum_remaining(self.entries@, now_ms);
                let cnt = count_valid(self.entries@, now_ms);
                assert(sum / cnt <= 0xffff_ffff_ffff_ffffu64 && sum / cnt >= 0) by (nonlinear_arith)
                    requires
                        cnt >= 1,
                        sum >= 0,
                        sum <= cnt * 0xffff_ffff_ffff_ffffu64,
                ;
            }
            (total_rem / (valid as u128)) as u64
        } else {
            0
        };
        CacheStats {
            total_entries: self.entries.len(),
            valid_entries: valid,
            expired_entries: self.entries.len() - valid,
            average_ttl_ms: avg,
        }
    }

    /// Removes every entry.
    pub fn clear(&mut self)
        requires
            old(self).wf(),
        ensures
            final(self).wf(),
            final(self).view_entries().len() == 0,
            final(self).spec_max_size() == old(self).spec_max_size(),
            final(self).spec_default_ttl_ms() == old(self).spec_default_ttl_ms(),
    {
        self.entries.clear();
    }
}

/// Remaining TTLs fit one 64-bit value each, so the sum of the valid
/// entries' remaining TTLs is at most the count of valid entries times the
/// largest 64-bit value.
proof fn lemma_sum_remaining_bound(s: Seq<(CacheKey, CachedResponse)>, now_ms: u64)
    ensures
        0 <= sum_remaining(s, now_ms) <= count_valid(s, now_ms) * 0xffff_ffff_ffff_ffffu64,
        0 <= count_valid(s, now_ms) <= s.len(),
    decreases s.len(),
{
    if s.len() == 0 {
    } else {
        lemma_sum_remaining_bound(s.drop_last(), now_ms);
        if resp_valid_at(s.last().1, now_ms) {
            assert(resp_remaining_ms(s.last().1, now_ms) <= 0xffff_ffff_ffff_ffffu64);
        }
    }
}

/// The TTL a cached query stores: the smallest record TTL in milliseconds,
/// or five minutes when the reply carries no usable TTL.
pub fn effective_cache_ttl_ms(records: &Vec<DnsRecord>) -> (r: u64)
    ensures
        records@.len() == 0 ==> r == 300_000,
        records@.len() > 0 ==> (exists|i: int|
            0 <= i < records@.len() && r == (#[trigger] records@[i]).ttl as int * 1000) && (
        forall|i: int| 0 <= i < records@.len() ==> r <= (#[trigger] records@[i]).ttl as int * 1000),
{
    match crate::dns_records::min_ttl(records) {
        Some(m) => (m as u64) * 1000,
        None => 300_000,
    }
}

/// Cache correctness: once a key maps to an entry stored at `cached_at` with
/// time to live `ttl`, a lookup before `cached_at + ttl` returns exactly the
/// stored records, and a lookup at or after that instant returns nothing.
pub proof fn lemma_cache_correctness(
    s: Seq<(CacheKey, CachedResponse)>,
    k: KeyView,
    resp: CachedResponse,
    t: u64,
)
    requires
        spec_lookup(s, k) == Some(resp),
    ensures
        (t as int) < resp.cached_at_ms + resp.ttl_ms ==> spec_get(s, k, t) == Some(resp.records@),
        (t as int) >= resp.cached_at_ms + resp.ttl_ms ==> spec_get(s, k, t) is None,
{
}

} // verus!
