//! The query cache: fingerprint-keyed, bounded, with least-recently-used
//! eviction and lazy time-to-live expiry.
//!
//! The cache's view is the sequence of key/entry pairs in recency order,
//! least recently used first; keys are distinct. All timing is explicit:
//! callers pass the current time in seconds, so every method is a pure
//! function of its arguments and the cache state.

use vstd::prelude::*;
use crate::pathmap::ColumnMap;
use crate::types::{
    clone_ids, clone_path_index, clone_paths, FieldPath, GraphQLOperationKind, ReqV,
    ResolutionRequest,
};

verus! {

/// One cached analysis: the classified operation, the original text kept
/// for re-parsing, the discovered paths with their dense-id index and
/// column usage, the packed resolution request, and the insertion time.
#[derive(Debug)]
pub struct CacheEntry {
    pub operation_kind: GraphQLOperationKind,
    pub operation_name: Option<String>,
    pub original_query: String,
    pub field_paths: Vec<FieldPath>,
    pub path_index: Vec<(FieldPath, usize)>,
    pub column_usage: ColumnMap,
    pub request: ResolutionRequest,
    pub stored_at: u64,
}

/// The mathematical content of a cache entry.
pub ghost struct EntryV {
    pub operation_kind: GraphQLOperationKind,
    pub operation_name: Option<Seq<char>>,
    pub original_query: Seq<char>,
    pub field_paths: Seq<Seq<u32>>,
    pub path_index: Seq<(Seq<u32>, usize)>,
    pub column_usage: Seq<(Seq<u32>, Seq<u32>)>,
    pub request: ReqV,
    pub stored_at: u64,
}

impl View for CacheEntry {
    type V = EntryV;

    open spec fn view(&self) -> EntryV {
        EntryV {
            operation_kind: self.operation_kind,
            operation_name: match self.operation_name {
                Some(s) => Some(s@),
                None => None,
            },
            original_query: self.original_query@,
            field_paths: self.field_paths@.map_values(|p: FieldPath| p@),
            path_index: self.path_index@.map_values(|e: (FieldPath, usize)| (e.0@, e.1)),
            column_usage: self.column_usage@,
            request: self.request@,
            stored_at: self.stored_at,
        }
    }
}

impl CacheEntry {
    /// A copy of this entry, field for field.
    pub fn duplicate(&self) -> (r: CacheEntry)
        ensures
            r@ == self@,
    {
        let r = CacheEntry {
            operation_kind: self.operation_kind,
            operation_name: match &self.operation_name {
                Some(s) => Some(s.clone()),
                None => None,
            },
            original_query: self.original_query.clone(),
            field_paths: clone_paths(&self.field_paths),
            path_index: clone_path_index(&self.path_index),
            column_usage: self.column_usage.duplicate(),
            request: self.request.duplicate(),
            stored_at: self.stored_at,
        };
        proof {
            assert(r@.field_paths =~= self@.field_paths);
            assert(r@.path_index =~= self@.path_index);
        }
        r
    }
}

/// Pairwise-distinct keys.
pub open spec fn sp_keys_distinct(v: Seq<(u64, EntryV)>) -> bool {
    forall|i: int, j: int| 0 <= i < j < v.len() ==> v[i].0 != v[j].0
}

/// Whether the cache holds key `k`.
pub open spec fn sp_cache_has(v: Seq<(u64, EntryV)>, k: u64) -> bool {
    exists|i: int| 0 <= i < v.len() && v[i].0 == k
}

/// The position of key `k`; meaningful only when present.
pub open spec fn sp_cache_idx(v: Seq<(u64, EntryV)>, k: u64) -> int {
    choose|i: int| 0 <= i < v.len() && v[i].0 == k
}

/// The cache contents without any binding for `k`.
pub open spec fn sp_cache_remove(v: Seq<(u64, EntryV)>, k: u64) -> Seq<(u64, EntryV)> {
    if sp_cache_has(v, k) {
        v.remove(sp_cache_idx(v, k))
    } else {
        v
    }
}

/// The cache contents after inserting `e` under `k` at time `e.stored_at`:
/// any old binding for `k` goes, the least recently used entry is evicted
/// when the cache is full, and the new pair becomes the most recent. A
/// capacity of zero caches nothing.
pub open spec fn sp_cache_insert(
    v: Seq<(u64, EntryV)>,
    k: u64,
    e: EntryV,
    max: int,
) -> Seq<(u64, EntryV)> {
    let v1 = sp_cache_remove(v, k);
    if max <= 0 {
        v1
    } else {
        let v2 = if v1.len() >= max {
            v1.drop_first()
        } else {
            v1
        };
        v2.push((k, e))
    }
}

/// Removing a key keeps the other keys distinct and leaves no binding for
/// the removed key; positions shift down past the removal point.
pub proof fn lemma_cache_remove_props(v: Seq<(u64, EntryV)>, k: u64)
    requires
        sp_keys_distinct(v),
    ensures
        sp_keys_distinct(sp_cache_remove(v, k)),
        forall|j: int|
            0 <= j < sp_cache_remove(v, k).len() ==> (#[trigger] sp_cache_remove(v, k)[j]).0 != k,
        sp_cache_remove(v, k).len() <= v.len(),
{
    if sp_cache_has(v, k) {
        let i = sp_cache_idx(v, k);
        let w = v.remove(i);
        assert(0 <= i < v.len() && v[i].0 == k);
        assert forall|j: int| 0 <= j < w.len() implies w[j] == (if j < i {
            v[j]
        } else {
            v[j + 1]
        }) by {}
        assert forall|j: int| 0 <= j < w.len() implies (#[trigger] w[j]).0 != k by {
            if j < i {
                assert(w[j] == v[j]);
            } else {
                assert(w[j] == v[j + 1]);
            }
        }
        assert forall|a: int, b: int| 0 <= a < b < w.len() implies w[a].0 != w[b].0 by {}
    }
}

/// Dropping the least recent entry keeps the remaining keys distinct.
pub proof fn lemma_drop_first_distinct(v: Seq<(u64, EntryV)>)
    requires
        sp_keys_distinct(v),
        v.len() > 0,
    ensures
        sp_keys_distinct(v.drop_first()),
        forall|j: int| 0 <= j < v.drop_first().len() ==> #[trigger] v.drop_first()[j] == v[j + 1],
{
    assert forall|j: int| 0 <= j < v.drop_first().len() implies #[trigger] v.drop_first()[j] == v[
        j + 1
    ] by {}
}

/// Every pair that survives a removal was a pair of the original contents.
pub proof fn lemma_cache_remove_member(v: Seq<(u64, EntryV)>, k: u64)
    ensures
        forall|j: int|
            0 <= j < sp_cache_remove(v, k).len() ==> v.contains(#[trigger] sp_cache_remove(v, k)[j]),
{
    if sp_cache_has(v, k) {
        let i = sp_cache_idx(v, k);
        let w = v.remove(i);
        assert(0 <= i < v.len());
        assert forall|j: int| 0 <= j < w.len() implies v.contains(#[trigger] w[j]) by {
            if j < i {
                assert(w[j] == v[j]);
            } else {
                assert(w[j] == v[j + 1]);
            }
        }
    } else {
        assert forall|j: int| 0 <= j < v.len() implies v.contains(#[trigger] v[j]) by {}
    }
}

/// Every pair that survives an eviction was a pair of the original contents.
pub proof fn lemma_drop_first_member(v: Seq<(u64, EntryV)>)
    requires
        v.len() > 0,
    ensures
        forall|j: int|
            0 <= j < v.drop_first().len() ==> v.contains(#[trigger] v.drop_first()[j]),
{
    assert forall|j: int| 0 <= j < v.drop_first().len() implies v.contains(
        #[trigger] v.drop_first()[j],
    ) by {
        assert(v.drop_first()[j] == v[j + 1]);
    }
}

/// Whether the entry stored at `stored_at` has outlived `ttl` at `now`.
pub open spec fn sp_expired(stored_at: u64, ttl: u64, now: u64) -> bool {
    now >= stored_at + ttl
}

/// The fingerprint-keyed query cache, bounded and TTL-governed.
#[derive(Debug)]
pub struct QueryCache {
    entries: Vec<(u64, CacheEntry)>,
    max_size: usize,
    ttl_seconds: u64,
}

impl View for QueryCache {
    type V = Seq<(u64, EntryV)>;

    closed spec fn view(&self) -> Seq<(u64, EntryV)> {
        self.entries@.map_values(|p: (u64, CacheEntry)| (p.0, p.1@))
    }
}

impl QueryCache {
    /// Keys are distinct and the size respects the bound.
    pub open spec fn wf(&self) -> bool {
        &&& forall|i: int, j: int| 0 <= i < j < self@.len() ==> self@[i].0 != self@[j].0
        &&& self@.len() <= self.spec_max()
    }

    /// The configured capacity.
    pub closed spec fn spec_max(&self) -> int {
        self.max_size as int
    }

    /// The configured time to live, in seconds.
    pub closed spec fn spec_ttl(&self) -> u64 {
        self.ttl_seconds
    }

    /// Creates an empty cache with the given bound and time to live.
    pub fn new(max_size: usize, ttl_seconds: u64) -> (r: QueryCache)
        ensures
            r.wf(),
            r@ == Seq::<(u64, EntryV)>::empty(),
            r.spec_max() == max_size,
            r.spec_ttl() == ttl_seconds,
    {
        let r = QueryCache { entries: Vec::new(), max_size, ttl_seconds };
        proof {
            assert(r@ =~= Seq::<(u64, EntryV)>::empty());
        }
        r
    }

    /// The number of live entries.
    pub fn len(&self) -> (r: usize)
        ensures
            r == self@.len(),
    {
        self.entries.len()
    }

    /// The position of key `k`, if present.
    fn find(&self, k: u64) -> (r: Option<usize>)
        requires
            self.wf(),
        ensures
            match r {
                Some(i) => i < self@.len() && self@[i as int].0 == k && i == sp_cache_idx(self@, k),
                None => !sp_cache_has(self@, k),
            },
    {
        let n = self.entries.len();
        let mut i: usize = 0;
        while i < n
            invariant
                self.wf(),
                n == self@.len(),
                i <= n,
                forall|j: int| 0 <= j < i ==> self@[j].0 != k,
            decreases n - i,
        {
            if self.entries[i].0 == k {
                proof {
                    assert(self@[i as int].0 == k);
                    let m = sp_cache_idx(self@, k);
                    assert(0 <= m < self@.len() && self@[m].0 == k);
                    assert(m == i as int);
                }
                return Some(i);
            }
            i = i + 1;
        }
        proof {
            if sp_cache_has(self@, k) {
                let m = choose|m: int| 0 <= m < self@.len() && self@[m].0 == k;
                assert(self@[m].0 != k);
            }
        }
        None
    }

    /// Looks up `k` at time `now_s`. A live, fresh entry is returned as a
    /// copy and becomes the most recently used; an entry past its time to
    /// live is dropped and the lookup misses.
    #[verifier::loop_isolation(false)]
    pub fn get_from_cache(&mut self, k: u64, now_s: u64) -> (r: Option<CacheEntry>)
        requires
            old(self).wf(),
        ensures
            final(self).wf(),
            final(self).spec_max() == old(self).spec_max(),
            final(self).spec_ttl() == old(self).spec_ttl(),
            match r {
                Some(e) => {
                    &&& sp_cache_has(old(self)@, k)
                    &&& e@ == old(self)@[sp_cache_idx(old(self)@, k)].1
                    &&& !sp_expired(e@.stored_at, old(self).spec_ttl(), now_s)
                    &&& final(self)@ == sp_cache_remove(old(self)@, k).push((k, e@))
                },
                None => {
                    &&& (!sp_cache_has(old(self)@, k) || sp_expired(
                        old(self)@[sp_cache_idx(old(self)@, k)].1.stored_at,
                        old(self).spec_ttl(),
                        now_s,
                    ))
                    &&& final(self)@ == sp_cache_remove(old(self)@, k)
                },
            },
    {
        match self.find(k) {
            Some(i) => {
                let pair = self.entries.remove(i);
                proof {
                    assert(self@ =~= sp_cache_remove(old(self)@, k));
                }
                let expired = now_s >= pair.1.stored_at && (now_s - pair.1.stored_at)
                    >= self.ttl_seconds;
                proof {
                    assert(expired == sp_expired(pair.1@.stored_at, self.spec_ttl(), now_s));
                }
                if expired {
                    None
                } else {
                    let e = pair.1.duplicate();
                    self.entries.push(pair);
                    proof {
                        assert(self@ =~= sp_cache_remove(old(self)@, k).push((k, e@)));
                        lemma_cache_remove_props(old(self)@, k);
                        let fv = self@;
                        let pv = sp_cache_remove(old(self)@, k);
                        assert forall|a: int, b: int|
                            0 <= a < b < fv.len() implies fv[a].0 != fv[b].0 by {
                            if b == fv.len() - 1 {
                                assert(fv[a] == pv[a]);
                            }
                        }
                    }
                    Some(e)
                }
            },
            None => {
                proof {
                    assert(self@ =~= sp_cache_remove(old(self)@, k));
                }
                None
            },
        }
    }

    /// The position of the first live, fresh entry whose request names
    /// `qid`, if any.
    pub fn find_fresh_query_id(&self, qid: &str, now_s: u64) -> (r: Option<usize>)
        ensures
            match r {
                Some(i) => i < self@.len() && self@[i as int].1.request.query_id == qid@
                    && !sp_expired(self@[i as int].1.stored_at, self.spec_ttl(), now_s),
                None => forall|i: int|
                    0 <= i < self@.len() && (#[trigger] self@[i]).1.request.query_id == qid@
                        ==> sp_expired(self@[i].1.stored_at, self.spec_ttl(), now_s),
            },
    {
        let n = self.entries.len();
        let mut i: usize = 0;
        while i < n
            invariant
                n == self@.len(),
                i <= n,
                forall|j: int|
                    0 <= j < i && (#[trigger] self@[j]).1.request.query_id == qid@ ==> sp_expired(
                        self@[j].1.stored_at,
                        self.spec_ttl(),
                        now_s,
                    ),
            decreases n - i,
        {
            let stored = self.entries[i].1.stored_at;
            let fresh = !(now_s >= stored && (now_s - stored) >= self.ttl_seconds);
            if fresh && crate::strutil::str_eq(self.entries[i].1.request.query_id.as_str(), qid) {
                proof {
                    assert(self@[i as int].1.request.query_id == qid@);
                }
                return Some(i);
            }
            i = i + 1;
        }
        None
    }

    /// A copy of the entry at position `i`.
    pub fn entry_at(&self, i: usize) -> (r: CacheEntry)
        requires
            i < self@.len(),
        ensures
            r@ == self@[i as int].1,
    {
        self.entries[i].1.duplicate()
    }

    /// Stores `e` under `k`: the pair becomes the most recently used entry,
    /// an old binding for `k` is replaced, and when the cache is at its
    /// bound the least recently used entry is evicted.
    #[verifier::loop_isolation(false)]
    pub fn add_to_cache(&mut self, k: u64, e: CacheEntry)
        requires
            old(self).wf(),
        ensures
            final(self).wf(),
            final(self).spec_max() == old(self).spec_max(),
            final(self).spec_ttl() == old(self).spec_ttl(),
            final(self)@ == sp_cache_insert(old(self)@, k, e@, old(self).spec_max()),
    {
        let ghost ev = e@;
        match self.find(k) {
            Some(i) => {
                let _ = self.entries.remove(i);
            },
            None => (),
        }
        proof {
            assert(self@ =~= sp_cache_remove(old(self)@, k));
        }
        let ghost v1 = self@;
        if self.max_size == 0 {
            return ;
        }
        if self.entries.len() >= self.max_size {
            let _ = self.entries.remove(0);
            proof {
                assert(self@ =~= v1.drop_first());
            }
        }
        let ghost v2 = self@;
        self.entries.push((k, e));
        proof {
            assert(self@ =~= v2.push((k, ev)));
            lemma_cache_remove_props(old(self)@, k);
            if v1.len() > 0 && v2 != v1 {
                lemma_drop_first_distinct(v1);
            }
            let fv = self@;
            assert forall|a: int, b: int| 0 <= a < b < fv.len() implies fv[a].0 != fv[b].0 by {
                if b == fv.len() - 1 {
                    assert(fv[a] == v2[a]);
                    if v2 == v1 {
                        assert(v2[a].0 != k);
                    } else {
                        assert(v2[a] == v1[a + 1]);
                    }
                } else {
                    assert(fv[a] == v2[a] && fv[b] == v2[b]);
                    if v2 == v1 {
                    } else {
                        assert(v2[a] == v1[a + 1] && v2[b] == v1[b + 1]);
                    }
                }
            }
        }
    }
}

} // verus!
