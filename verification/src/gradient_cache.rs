//! Bounded key-value memoization with least-recently-used eviction.
//!
//! The cache is a sequence of key/value pairs ordered by recency, the most
//! recently used entry first.  A hit promotes its key to the front; inserting
//! a fresh key into a full cache first drops the entry at the back.  The
//! cardinality never exceeds the capacity after any operation completes.

use crate::text::str_eq;
use vstd::prelude::*;

verus! {

/// The cache as a mathematical value: key/value pairs, most recent first.
pub type CacheView = Seq<(Seq<char>, i64)>;

/// Index of the first entry holding `key`, or `-1` when absent.
pub open spec fn cache_idx(v: CacheView, key: Seq<char>) -> int
    decreases v.len(),
{
    if v.len() == 0 {
        -1
    } else if v[0].0 == key {
        0
    } else {
        let r = cache_idx(v.drop_first(), key);
        if r < 0 {
            -1
        } else {
            r + 1
        }
    }
}

/// Whether some entry holds `key`.
pub open spec fn cache_has(v: CacheView, key: Seq<char>) -> bool {
    cache_idx(v, key) >= 0
}

/// The value stored under `key`.
pub open spec fn cache_val(v: CacheView, key: Seq<char>) -> i64 {
    v[cache_idx(v, key)].1
}

/// No two entries hold the same key.
pub open spec fn distinct_keys(v: CacheView) -> bool {
    forall|i: int, j: int| 0 <= i < j < v.len() ==> (#[trigger] v[i]).0 != (#[trigger] v[j]).0
}

/// The cache after a hit on `key` promoted it to the front.
pub open spec fn promote(v: CacheView, key: Seq<char>) -> CacheView {
    let i = cache_idx(v, key);
    v.remove(i).insert(0, v[i])
}

/// The cache after `insert(key, x)`: an overwrite promotes, a fresh key into
/// a full cache first evicts the entry at the back, and a cache of capacity
/// zero can hold nothing.
pub open spec fn cache_insert(v: CacheView, cap: nat, key: Seq<char>, x: i64) -> CacheView {
    if cache_has(v, key) {
        v.remove(cache_idx(v, key)).insert(0, (key, x))
    } else if v.len() < cap {
        v.insert(0, (key, x))
    } else if cap > 0 {
        v.drop_last().insert(0, (key, x))
    } else {
        v
    }
}

/// `cache_idx` finds exactly the first occurrence of `key`.
pub proof fn lemma_cache_idx(v: CacheView, key: Seq<char>)
    ensures
        cache_idx(v, key) >= 0 ==> cache_idx(v, key) < v.len() && v[cache_idx(v, key)].0 == key
            && (forall|k: int| 0 <= k < cache_idx(v, key) ==> (#[trigger] v[k]).0 != key),
        cache_idx(v, key) < 0 ==> (forall|k: int| 0 <= k < v.len() ==> (#[trigger] v[k]).0 != key),
    decreases v.len(),
{
    if v.len() == 0 {
    } else if v[0].0 == key {
    } else {
        let w = v.drop_first();
        lemma_cache_idx(w, key);
        if cache_idx(v, key) >= 0 {
            assert forall|k: int| 0 <= k < cache_idx(v, key) implies (#[trigger] v[k]).0
                != key by {
                if k >= 1 {
                    assert(w[k - 1] == v[k]);
                    assert(w[k - 1].0 != key);
                }
            }
        } else {
            assert forall|k: int| 0 <= k < v.len() implies (#[trigger] v[k]).0 != key by {
                if k >= 1 {
                    assert(w[k - 1] == v[k]);
                    assert(w[k - 1].0 != key);
                }
            }
        }
    }
}

/// An entry holding `key` witnesses that the key is present.
pub proof fn lemma_cache_has_at(v: CacheView, key: Seq<char>, i: int)
    requires
        0 <= i < v.len(),
        v[i].0 == key,
    ensures
        cache_has(v, key),
        cache_idx(v, key) <= i,
    decreases v.len(),
{
    if v[0].0 == key {
    } else {
        lemma_cache_has_at(v.drop_first(), key, i - 1);
    }
}

/// The index at which `key` first occurs pins `cache_idx`.
pub proof fn lemma_cache_idx_at(v: CacheView, key: Seq<char>, i: int)
    requires
        0 <= i < v.len(),
        v[i].0 == key,
        forall|k: int| 0 <= k < i ==> (#[trigger] v[k]).0 != key,
    ensures
        cache_idx(v, key) == i,
{
    lemma_cache_has_at(v, key, i);
    lemma_cache_idx(v, key);
}

/// Bounded key-value store with least-recently-used eviction.  `entries`
/// holds the cached pairs by recency, most recently used first.
pub struct GradientCache {
    pub entries: Vec<(String, i64)>,
    pub capacity: usize,
}

impl View for GradientCache {
    type V = CacheView;

    open spec fn view(&self) -> CacheView {
        self.entries@.map_values(|e: (String, i64)| (e.0@, e.1))
    }
}

impl GradientCache {
    /// At most `capacity` entries, with pairwise distinct keys.
    pub open spec fn wf(self) -> bool {
        &&& self@.len() <= self.capacity
        &&& distinct_keys(self@)
    }

    /// An empty cache of the given capacity.
    pub fn new(capacity: usize) -> (c: GradientCache)
        ensures
            c.capacity == capacity,
            c@ =~= Seq::<(Seq<char>, i64)>::empty(),
            c.wf(),
    {
        GradientCache { entries: Vec::new(), capacity }
    }

    /// Position of `key` among the entries, front to back.
    fn find(&self, key: &str) -> (r: Option<usize>)
        ensures
            match r {
                Some(i) => i < self@.len() && cache_idx(self@, key@) == i,
                None => !cache_has(self@, key@),
            },
    {
        let mut i: usize = 0;
        while i < self.entries.len()
            invariant
                i <= self@.len(),
                self@.len() == self.entries@.len(),
                forall|k: int| 0 <= k < i ==> (#[trigger] self@[k]).0 != key@,
            decreases self@.len() - i,
        {
            if str_eq(self.entries[i].0.as_str(), key) {
                proof {
                    lemma_cache_idx_at(self@, key@, i as int);
                }
                return Some(i);
            }
            i = i + 1;
        }
        proof {
            lemma_cache_idx(self@, key@);
        }
        None
    }

    /// On a hit, promotes `key` to most recently used and returns its value;
    /// on a miss, returns nothing and changes nothing.
    pub fn get(&mut self, key: &str) -> (r: Option<i64>)
        requires
            old(self).wf(),
        ensures
            final(self).capacity == old(self).capacity,
            final(self).wf(),
            cache_has(old(self)@, key@) ==> r == Some(cache_val(old(self)@, key@))
                && final(self)@ == promote(old(self)@, key@),
            !cache_has(old(self)@, key@) ==> r is None && final(self)@ == old(self)@,
    {
        let ghost v0 = self@;
        match self.find(key) {
            Some(i) => {
                proof {
                    lemma_cache_idx(v0, key@);
                }
                let entry = self.entries.remove(i);
                let value = entry.1;
                self.entries.insert(0, entry);
                proof {
                    assert(self@ =~= promote(v0, key@));
                    lemma_promote_wf(v0, key@);
                }
                Some(value)
            },
            None => None,
        }
    }

    /// Inserts or overwrites `key`, marking it most recently used; a fresh
    /// key into a full cache first evicts the least recently used entry.
    pub fn insert(&mut self, key: String, value: i64)
        requires
            old(self).wf(),
        ensures
            final(self).capacity == old(self).capacity,
            final(self).wf(),
            final(self)@ == cache_insert(
                old(self)@,
                old(self).capacity as nat,
                key@,
                value,
            ),
    {
        let ghost v0 = self@;
        let ghost cap = self.capacity as nat;
        match self.find(key.as_str()) {
            Some(i) => {
                proof {
                    lemma_cache_idx(v0, key@);
                }
                self.entries.remove(i);
                self.entries.insert(0, (key, value));
                proof {
                    assert(self@ =~= cache_insert(v0, cap, key@, value));
                    lemma_insert_wf(v0, cap, key@, value);
                }
            },
            None => {
                if self.capacity == 0 {
                    proof {
                        assert(self@ =~= cache_insert(v0, cap, key@, value));
                    }
                    return ;
                }
                if self.entries.len() >= self.capacity {
                    self.entries.pop();
                }
                self.entries.insert(0, (key, value));
                proof {
                    assert(self@ =~= cache_insert(v0, cap, key@, value));
                    lemma_insert_wf(v0, cap, key@, value);
                }
            },
        }
    }

    /// Snapshot of the cached values, most recently used first.
    pub fn values(&self) -> (r: Vec<i64>)
        ensures
            r@.len() == self@.len(),
            forall|i: int| 0 <= i < r@.len() ==> r@[i] == (#[trigger] self@[i]).1,
    {
        let mut r: Vec<i64> = Vec::new();
        let mut i: usize = 0;
        while i < self.entries.len()
            invariant
                i <= self@.len(),
                self@.len() == self.entries@.len(),
                r@.len() == i,
                forall|k: int| 0 <= k < i ==> r@[k] == (#[trigger] self@[k]).1,
            decreases self@.len() - i,
        {
            r.push(self.entries[i].1);
            i = i + 1;
        }
        r
    }
}

/// Promotion keeps the keys pairwise distinct.
pub proof fn lemma_promote_wf(v: CacheView, key: Seq<char>)
    requires
        distinct_keys(v),
        cache_has(v, key),
    ensures
        promote(v, key).len() == v.len(),
        distinct_keys(promote(v, key)),
{
    lemma_cache_idx(v, key);
    let i = cache_idx(v, key);
    v.remove_ensures(i);
    let w = promote(v, key);
    assert forall|a: int, b: int| 0 <= a < b < w.len() implies (#[trigger] w[a]).0 != (
    #[trigger] w[b]).0 by {
        assert(w[0] == v[i]);
        assert(forall|k: int| 1 <= k < w.len() ==> w[k] == v.remove(i)[k - 1]);
    }
}

/// Insertion keeps the bound and the distinctness of the keys.
pub proof fn lemma_insert_wf(v: CacheView, cap: nat, key: Seq<char>, x: i64)
    requires
        v.len() <= cap,
        distinct_keys(v),
    ensures
        cache_insert(v, cap, key, x).len() <= cap,
        distinct_keys(cache_insert(v, cap, key, x)),
{
    lemma_cache_idx(v, key);
    let w = cache_insert(v, cap, key, x);
    if cache_has(v, key) {
        let i = cache_idx(v, key);
        v.remove_ensures(i);
        assert forall|a: int, b: int| 0 <= a < b < w.len() implies (#[trigger] w[a]).0 != (
        #[trigger] w[b]).0 by {
            assert(w[0] == (key, x));
            assert(forall|k: int| 1 <= k < w.len() ==> w[k] == v.remove(i)[k - 1]);
        }
    } else if v.len() < cap {
        assert forall|a: int, b: int| 0 <= a < b < w.len() implies (#[trigger] w[a]).0 != (
        #[trigger] w[b]).0 by {
            assert(w[0] == (key, x));
            assert(forall|k: int| 1 <= k < w.len() ==> w[k] == v[k - 1]);
        }
    } else if cap > 0 {
        assert forall|a: int, b: int| 0 <= a < b < w.len() implies (#[trigger] w[a]).0 != (
        #[trigger] w[b]).0 by {
            assert(w[0] == (key, x));
            assert(forall|k: int| 1 <= k < w.len() ==> w[k] == v.drop_last()[k - 1]);
            assert(forall|k: int| 0 <= k < v.len() - 1 ==> v.drop_last()[k] == v[k]);
        }
    }
}

/// Law: inserting a fresh key into a full cache evicts exactly the least
/// recently used entry: the new entry stands in front, every other entry
/// but the one at the back survives in order, and the size stays at the
/// capacity.
pub proof fn lemma_insert_full_evicts_lru(v: CacheView, cap: nat, key: Seq<char>, x: i64)
    requires
        distinct_keys(v),
        v.len() == cap,
        cap > 0,
        !cache_has(v, key),
    ensures
        cache_insert(v, cap, key, x).len() == cap,
        cache_insert(v, cap, key, x)[0] == (key, x),
        forall|i: int| 0 <= i < cap - 1 ==> cache_insert(v, cap, key, x)[i + 1] == v[i],
{
    let w = cache_insert(v, cap, key, x);
    assert(forall|k: int| 1 <= k < w.len() ==> w[k] == v.drop_last()[k - 1]);
    assert(forall|k: int| 0 <= k < v.len() - 1 ==> v.drop_last()[k] == v[k]);
}

/// Law: a hit re-orders recency so that the hit key stands in front and is
/// not the next eviction candidate, as long as any other entry remains.
pub proof fn lemma_get_shields_from_eviction(v: CacheView, key: Seq<char>)
    requires
        distinct_keys(v),
        cache_has(v, key),
        v.len() >= 2,
    ensures
        promote(v, key)[0].0 == key,
        promote(v, key).last().0 != key,
{
    lemma_cache_idx(v, key);
    let i = cache_idx(v, key);
    v.remove_ensures(i);
    let w = promote(v, key);
    assert(w[0] == v[i]);
    assert(forall|k: int| 1 <= k < w.len() ==> w[k] == v.remove(i)[k - 1]);
    if i == v.len() - 1 {
        assert(w.last() == v[v.len() - 2]);
    } else {
        assert(w.last() == v[v.len() - 1]);
    }
}

/// Law: after a hit promoted `key`, inserting one fresh key into the full
/// cache leaves `key` cached.
pub proof fn lemma_promoted_key_survives_insert(
    v: CacheView,
    cap: nat,
    key: Seq<char>,
    key2: Seq<char>,
    x: i64,
)
    requires
        distinct_keys(v),
        v.len() == cap,
        cap >= 2,
        cache_has(v, key),
        !cache_has(v, key2),
    ensures
        cache_has(cache_insert(promote(v, key), cap, key2, x), key),
        cache_has(cache_insert(promote(v, key), cap, key2, x), key2),
{
    lemma_promote_wf(v, key);
    lemma_cache_idx(v, key);
    let p = promote(v, key);
    assert(p[0] == v[cache_idx(v, key)]);
    assert(p[0].0 == key);
    // the fresh key is fresh for the promoted cache as well
    v.remove_ensures(cache_idx(v, key));
    assert forall|k: int| 0 <= k < p.len() implies (#[trigger] p[k]).0 != key2 by {
        lemma_cache_idx(v, key2);
        assert(forall|j: int| 1 <= j < p.len() ==> p[j] == v.remove(cache_idx(v, key))[j - 1]);
    }
    if cache_has(p, key2) {
        lemma_cache_idx(p, key2);
        assert(false);
    }
    let w = cache_insert(p, cap, key2, x);
    assert(forall|k: int| 1 <= k < w.len() ==> w[k] == p.drop_last()[k - 1]);
    assert(forall|k: int| 0 <= k < p.len() - 1 ==> p.drop_last()[k] == p[k]);
    assert(w[1] == p[0]);
    lemma_cache_has_at(w, key, 1);
    lemma_cache_has_at(w, key2, 0);
}

/// Law: two hits in a row with no insert between them return the same value.
pub proof fn lemma_get_idempotent(v: CacheView, key: Seq<char>)
    requires
        distinct_keys(v),
        cache_has(v, key),
    ensures
        cache_has(promote(v, key), key),
        cache_val(promote(v, key), key) == cache_val(v, key),
        promote(promote(v, key), key) == promote(v, key),
{
    lemma_cache_idx(v, key);
    let i = cache_idx(v, key);
    v.remove_ensures(i);
    let p = promote(v, key);
    assert(p[0] == v[i]);
    lemma_cache_idx_at(p, key, 0);
    assert(cache_val(p, key) == p[0].1);
    p.remove_ensures(0);
    assert(promote(p, key) =~= p);
}

} // verus!
