//! Ordered replay cache of fixed-width 40-byte keys.
//!
//! A key is five big-endian 64-bit words; comparing keys word by word is the
//! same as comparing the 40 raw bytes lexicographically, and the time
//! component occupies the most significant word. The cache is a sorted
//! vector, giving logarithmic membership and insertion and a contiguous
//! prefix eviction for garbage collection.

use vstd::prelude::*;

verus! {

/// A 40-byte replay key as five big-endian words. The token path stores
/// `subject(32B) || timestamp(8B)`; the compact path stores
/// `time_bucket(8B) || content_hash(32B)`. Word order equals the
/// lexicographic order of the underlying bytes.
#[derive(Clone, Copy, Debug, PartialEq, Eq, Structural)]
pub struct CacheKey {
    pub w0: u64,
    pub w1: u64,
    pub w2: u64,
    pub w3: u64,
    pub w4: u64,
}

/// Strict order on keys: lexicographic on `(w0, w1, w2, w3, w4)`.
pub open spec fn key_lt(a: CacheKey, b: CacheKey) -> bool {
    ||| a.w0 < b.w0
    ||| (a.w0 == b.w0 && a.w1 < b.w1)
    ||| (a.w0 == b.w0 && a.w1 == b.w1 && a.w2 < b.w2)
    ||| (a.w0 == b.w0 && a.w1 == b.w1 && a.w2 == b.w2 && a.w3 < b.w3)
    ||| (a.w0 == b.w0 && a.w1 == b.w1 && a.w2 == b.w2 && a.w3 == b.w3 && a.w4 < b.w4)
}

pub open spec fn key_le(a: CacheKey, b: CacheKey) -> bool {
    key_lt(a, b) || a == b
}

/// Non-strict sortedness: duplicate keys may sit next to each other.
pub open spec fn sorted(s: Seq<CacheKey>) -> bool {
    forall|i: int, j: int| 0 <= i < j < s.len() ==> key_le(s[i], s[j])
}

/// Exactly the entries whose leading time word is at least `threshold`,
/// in their original order.
pub open spec fn evicted(s: Seq<CacheKey>, threshold: u64) -> Seq<CacheKey> {
    s.filter(|k: CacheKey| k.w0 >= threshold)
}

pub proof fn lemma_key_le_total(a: CacheKey, b: CacheKey)
    ensures
        key_le(a, b) || key_le(b, a),
        key_le(a, b) && key_le(b, a) ==> a == b,
{
}

pub proof fn lemma_key_le_trans(a: CacheKey, b: CacheKey, c: CacheKey)
    ensures
        key_le(a, b) && key_le(b, c) ==> key_le(a, c),
{
}

/// Exact order on two keys, usable by the binary searches.
pub fn key_before(a: &CacheKey, b: &CacheKey) -> (r: bool)
    ensures
        r == key_lt(*a, *b),
{
    if a.w0 != b.w0 {
        a.w0 < b.w0
    } else if a.w1 != b.w1 {
        a.w1 < b.w1
    } else if a.w2 != b.w2 {
        a.w2 < b.w2
    } else if a.w3 != b.w3 {
        a.w3 < b.w3
    } else {
        a.w4 < b.w4
    }
}

/// Sorted set (with duplicates tolerated) of replay keys.
#[derive(Debug)]
pub struct ReplayCache {
    pub entries: Vec<CacheKey>,
}

impl View for ReplayCache {
    type V = Seq<CacheKey>;

    open spec fn view(&self) -> Seq<CacheKey> {
        self.entries@
    }
}

impl ReplayCache {
    pub open spec fn wf(self) -> bool {
        sorted(self@)
    }

    pub fn new() -> (r: ReplayCache)
        ensures
            r@ == Seq::<CacheKey>::empty(),
            r.wf(),
    {
        ReplayCache { entries: Vec::new() }
    }

    /// Index of the first entry not below `key`: everything before it is
    /// strictly smaller, everything from it on is at least `key`.
    fn lower_bound(&self, key: &CacheKey) -> (r: usize)
        requires
            self.wf(),
        ensures
            r <= self@.len(),
            forall|i: int| 0 <= i < r ==> key_lt(self@[i], *key),
            forall|i: int| r <= i < self@.len() ==> key_le(*key, self@[i]),
    {
        let mut lo: usize = 0;
        let mut hi: usize = self.entries.len();
        while lo < hi
            invariant
                lo <= hi <= self@.len(),
                self.wf(),
                forall|i: int| 0 <= i < lo ==> key_lt(self@[i], *key),
                forall|i: int| hi <= i < self@.len() ==> key_le(*key, self@[i]),
            decreases hi - lo,
        {
            let mid: usize = lo + (hi - lo) / 2;
            let probe = self.entries[mid];
            if key_before(&probe, key) {
                assert forall|i: int| 0 <= i < mid + 1 implies key_lt(self@[i], *key) by {
                    if i < mid {
                        lemma_key_le_total(self@[i], self@[mid as int]);
                        lemma_key_le_total(self@[i], *key);
                        lemma_key_le_trans(*key, self@[mid as int], self@[i]);
                    }
                }
                lo = mid + 1;
            } else {
                assert forall|i: int| mid <= i < self@.len() implies key_le(*key, self@[i]) by {
                    lemma_key_le_total(*key, self@[mid as int]);
                    lemma_key_le_trans(self@[mid as int], self@[i], self@[mid as int]);
                    if i > mid {
                        lemma_key_le_trans(*key, self@[mid as int], self@[i]);
                    }
                }
                hi = mid;
            }
        }
        lo
    }

    /// Whether `key` was already recorded.
    pub fn contains(&self, key: &CacheKey) -> (r: bool)
        requires
            self.wf(),
        ensures
            r == self@.contains(*key),
    {
        let i = self.lower_bound(key);
        if i < self.entries.len() && !key_before(key, &self.entries[i]) {
            assert(self@[i as int] == *key);
            true
        } else {
            proof {
                assert forall|j: int| 0 <= j < self@.len() implies self@[j] != *key by {
                    if j >= i {
                        assert(key_lt(*key, self@[i as int]));
                        if j > i {
                            assert(key_le(self@[i as int], self@[j]));
                        }
                    }
                }
            }
            false
        }
    }

    /// Record `key`, keeping the entries sorted. A key that is already
    /// present is inserted again beside its duplicate.
    pub fn insert(&mut self, key: CacheKey)
        requires
            old(self).wf(),
        ensures
            final(self).wf(),
            final(self)@.to_multiset() == old(self)@.to_multiset().insert(key),
            final(self)@.contains(key),
            forall|k: CacheKey| old(self)@.contains(k) ==> final(self)@.contains(k),
            final(self)@.len() == old(self)@.len() + 1,
    {
        let i = self.lower_bound(&key);
        let ghost pre = self@;
        self.entries.insert(i, key);
        proof {
            let post = self@;
            assert(post == pre.insert(i as int, key));
            assert forall|p: int, q: int| 0 <= p < q < post.len() implies key_le(
                post[p],
                post[q],
            ) by {
                lemma_key_le_total(post[p], post[q]);
            }
            vstd::seq_lib::to_multiset_insert(pre, i as int, key);
            assert(post[i as int] == key);
            assert forall|k: CacheKey| pre.contains(k) implies post.contains(k) by {
                let j = choose|j: int| 0 <= j < pre.len() && pre[j] == k;
                if j < i {
                    assert(post[j] == k);
                } else {
                    assert(post[j + 1] == k);
                }
            }
        }
    }

    /// Garbage collection: drop the contiguous prefix of entries whose
    /// leading time word lies strictly below `threshold`.
    pub fn evict_below(&mut self, threshold: u64)
        requires
            old(self).wf(),
        ensures
            final(self).wf(),
            final(self)@ == evicted(old(self)@, threshold),
    {
        let ghost pre = self@;
        let mut lo: usize = 0;
        let mut hi: usize = self.entries.len();
        while lo < hi
            invariant
                lo <= hi <= self@.len(),
                self.wf(),
                self@ == pre,
                forall|i: int| 0 <= i < lo ==> self@[i].w0 < threshold,
                forall|i: int| hi <= i < self@.len() ==> self@[i].w0 >= threshold,
            decreases hi - lo,
        {
            let mid: usize = lo + (hi - lo) / 2;
            if self.entries[mid].w0 < threshold {
                assert forall|i: int| 0 <= i < mid + 1 implies self@[i].w0 < threshold by {
                    if i < mid {
                        lemma_key_le_total(self@[i], self@[mid as int]);
                    }
                }
                lo = mid + 1;
            } else {
                assert forall|i: int| mid <= i < self@.len() implies self@[i].w0 >= threshold by {
                    if i > mid {
                        lemma_key_le_total(self@[mid as int], self@[i]);
                    }
                }
                hi = mid;
            }
        }
        let tail = self.entries.split_off(lo);
        self.entries = tail;
        proof {
            assert(self@ == pre.subrange(lo as int, pre.len() as int));
            lemma_partition_filter(pre, threshold, lo as int);
        }
    }
}

/// Garbage collection evicts exactly by the leading time word: an entry
/// below the threshold is gone afterwards, one at or above it remains.
pub proof fn lemma_evicted_membership(s: Seq<CacheKey>, threshold: u64, key: CacheKey)
    ensures
        s.contains(key) && key.w0 >= threshold ==> evicted(s, threshold).contains(key),
        key.w0 < threshold ==> !evicted(s, threshold).contains(key),
{
    let pred = |k: CacheKey| k.w0 >= threshold;
    if s.contains(key) && key.w0 >= threshold {
        let i = choose|i: int| 0 <= i < s.len() && s[i] == key;
        s.lemma_filter_contains(pred, i);
    }
    if key.w0 < threshold && evicted(s, threshold).contains(key) {
        let j = choose|j: int|
            0 <= j < evicted(s, threshold).len() && evicted(s, threshold)[j] == key;
        s.lemma_filter_pred(pred, j);
    }
}

/// No insert is lost: after a garbage collection at `threshold` followed by
/// one insertion, the inserted key is present and so is every old entry the
/// collection retained.
pub proof fn lemma_no_lost_entries(
    pre: Seq<CacheKey>,
    post: Seq<CacheKey>,
    threshold: u64,
    key: CacheKey,
)
    requires
        post.to_multiset() == evicted(pre, threshold).to_multiset().insert(key),
    ensures
        post.contains(key),
        forall|k: CacheKey| pre.contains(k) && k.w0 >= threshold ==> post.contains(k),
{
    broadcast use vstd::seq_lib::group_to_multiset_ensures;
    broadcast use vstd::multiset::group_multiset_axioms;

    let g = evicted(pre, threshold);
    assert(post.to_multiset().count(key) > 0);
    assert forall|k: CacheKey| pre.contains(k) && k.w0 >= threshold implies post.contains(k) by {
        lemma_evicted_membership(pre, threshold, k);
        assert(g.to_multiset().count(k) > 0);
        assert(post.to_multiset().count(k) >= g.to_multiset().count(k));
    }
}

/// In a sequence partitioned at `cut` by the leading-word test, the suffix
/// from `cut` is exactly the filtered sequence.
proof fn lemma_partition_filter(s: Seq<CacheKey>, threshold: u64, cut: int)
    requires
        0 <= cut <= s.len(),
        forall|i: int| 0 <= i < cut ==> s[i].w0 < threshold,
        forall|i: int| cut <= i < s.len() ==> s[i].w0 >= threshold,
    ensures
        s.subrange(cut, s.len() as int) == evicted(s, threshold),
    decreases s.len(),
{
    if s.len() == 0 {
        assert(s.subrange(0, 0) =~= evicted(s, threshold));
    } else {
        let last = s.last();
        let init = s.drop_last();
        assert(s == init.push(last));
        reveal_with_fuel(Seq::filter, 2);
        if cut == s.len() {
            lemma_partition_filter(init, threshold, init.len() as int);
            assert(evicted(s, threshold) == evicted(init, threshold));
            assert(s.subrange(cut, s.len() as int) =~= evicted(s, threshold));
        } else {
            lemma_partition_filter(init, threshold, cut);
            assert(evicted(s, threshold) == evicted(init, threshold).push(last));
            assert(s.subrange(cut, s.len() as int) =~= init.subrange(cut, init.len() as int).push(
                last,
            ));
        }
    }
}

} // verus!
