use vstd::prelude::*;

verus! {

/// Keys in strictly increasing order.
pub open spec fn strictly_increasing(s: Seq<u64>) -> bool {
    forall|i: int, j: int| 0 <= i < j < s.len() ==> s[i] < s[j]
}

/// The first position whose key is not below `k` in a strictly increasing key vector.
pub fn lower_bound(keys: &Vec<u64>, k: u64) -> (r: usize)
    requires
        strictly_increasing(keys@),
    ensures
        r <= keys@.len(),
        forall|i: int| 0 <= i < r ==> keys@[i] < k,
        forall|i: int| r <= i < keys@.len() ==> keys@[i] >= k,
{
    let mut lo: usize = 0;
    let mut hi: usize = keys.len();
    while lo < hi
        invariant
            lo <= hi <= keys@.len(),
            strictly_increasing(keys@),
            forall|i: int| 0 <= i < lo ==> keys@[i] < k,
            forall|i: int| hi <= i < keys@.len() ==> keys@[i] >= k,
        decreases hi - lo,
    {
        let mid = lo + (hi - lo) / 2;
        if keys[mid] < k {
            lo = mid + 1;
        } else {
            hi = mid;
        }
    }
    lo
}

/// Whether a strictly increasing key vector holds `k`, and at which position.
pub fn find_key(keys: &Vec<u64>, k: u64) -> (r: Option<usize>)
    requires
        strictly_increasing(keys@),
    ensures
        match r {
            Some(i) => i < keys@.len() && keys@[i as int] == k,
            None => !keys@.contains(k),
        },
{
    let i = lower_bound(keys, k);
    if i < keys.len() && keys[i] == k {
        Some(i)
    } else {
        None
    }
}

/// Inserting a key at its lower bound keeps a key vector strictly increasing.
pub proof fn lemma_insert_keeps_increasing(s: Seq<u64>, i: int, k: u64)
    requires
        strictly_increasing(s),
        0 <= i <= s.len(),
        forall|j: int| 0 <= j < i ==> s[j] < k,
        forall|j: int| i <= j < s.len() ==> s[j] > k,
    ensures
        strictly_increasing(s.insert(i, k)),
{
    let t = s.insert(i, k);
    assert forall|a: int, b: int| 0 <= a < b < t.len() implies t[a] < t[b] by {
        if b < i {
        } else if b == i {
        } else if a < i {
        } else if a == i {
        } else {
        }
    }
}

} // verus!

verus! {

/// Values grouped into buckets by a `u64` key, with the keys kept in ascending order.
#[derive(Debug)]
pub struct KeyedBuckets<T> {
    keys: Vec<u64>,
    buckets: Vec<Vec<T>>,
}

impl<T> KeyedBuckets<T> {
    /// Keys are stored once each, in ascending order, each with a bucket.
    pub closed spec fn wf(&self) -> bool {
        &&& self.keys@.len() == self.buckets@.len()
        &&& strictly_increasing(self.keys@)
    }

    /// The keys in ascending order.
    pub closed spec fn spec_keys(&self) -> Seq<u64> {
        self.keys@
    }

    pub proof fn lemma_wf_keys(&self)
        requires
            self.wf(),
        ensures
            strictly_increasing(self.spec_keys()),
    {
    }

    /// The bucket stored at a position.
    pub closed spec fn bucket_at(&self, i: int) -> Seq<T> {
        self.buckets@[i]@
    }

    /// The values recorded under a key, in insertion order.
    pub open spec fn bucket(&self, k: u64) -> Seq<T> {
        if self.spec_keys().contains(k) {
            self.bucket_at(self.spec_keys().index_of(k))
        } else {
            Seq::empty()
        }
    }

    pub fn new() -> (r: Self)
        ensures
            r.wf(),
            r.spec_keys() == Seq::<u64>::empty(),
    {
        Self { keys: Vec::new(), buckets: Vec::new() }
    }

    pub fn len(&self) -> (r: usize)
        requires
            self.wf(),
        ensures
            r == self.spec_keys().len(),
    {
        self.keys.len()
    }

    pub fn key_at(&self, i: usize) -> (r: u64)
        requires
            self.wf(),
            i < self.spec_keys().len(),
        ensures
            r == self.spec_keys()[i as int],
    {
        self.keys[i]
    }

    pub fn bucket_ref(&self, i: usize) -> (r: &Vec<T>)
        requires
            self.wf(),
            i < self.spec_keys().len(),
        ensures
            r@ == self.bucket_at(i as int),
    {
        &self.buckets[i]
    }

    /// Appends `x` to the bucket of `k`, creating the bucket where `k` is new.
    pub fn add(&mut self, k: u64, x: T)
        requires
            old(self).wf(),
        ensures
            final(self).wf(),
            final(self).spec_keys().to_set() == old(self).spec_keys().to_set().insert(k),
            final(self).bucket(k) == old(self).bucket(k).push(x),
            forall|j: u64| j != k ==> #[trigger] final(self).bucket(j) == old(self).bucket(j),
    {
        let i = lower_bound(&self.keys, k);
        if i < self.keys.len() && self.keys[i] == k {
            let mut b = self.buckets.remove(i);
            b.push(x);
            self.buckets.insert(i, b);
            proof {
                assert(self.keys@ == old(self).keys@);
                assert forall|a: int| 0 <= a < self.keys@.len() && self.keys@[a] == k implies a == i by {
                    if a < i {
                    } else if a > i {
                        assert(self.keys@[i as int] < self.keys@[a]);
                    }
                }
                assert(self.keys@.index_of(k) == i) by {
                    assert(self.keys@.contains(k));
                    let a = self.keys@.index_of(k);
                }
                assert(self.buckets@ =~= old(self).buckets@.update(i as int, b));
                assert forall|j: u64| j != k implies #[trigger] self.bucket(j) == old(self).bucket(j) by {
                    if self.keys@.contains(j) {
                        let a = self.keys@.index_of(j);
                        assert(self.keys@[a] == j);
                        assert(a != i);
                    }
                }
                assert(self.keys@.to_set() =~= old(self).keys@.to_set().insert(k));
            }
        } else {
            proof {
                assert forall|j: int| i <= j < self.keys@.len() implies self.keys@[j] > k by {
                    if j > i {
                        assert(self.keys@[i as int] < self.keys@[j]);
                    }
                }
                lemma_insert_keeps_increasing(self.keys@, i as int, k);
            }
            let mut b: Vec<T> = Vec::new();
            b.push(x);
            self.keys.insert(i, k);
            self.buckets.insert(i, b);
            proof {
                let ok = old(self).keys@;
                let nk = self.keys@;
                assert(!ok.contains(k)) by {
                    if ok.contains(k) {
                        let a = ok.index_of(k);
                        assert(ok[a] == k);
                    }
                }
                assert(nk[i as int] == k);
                assert(nk.index_of(k) == i) by {
                    let a = nk.index_of(k);
                    assert(nk[a] == k);
                    if a < i {
                        assert(ok[a] == k);
                    } else if a > i {
                        assert(ok[a - 1] == k);
                    }
                }
                assert(self.bucket(k) =~= old(self).bucket(k).push(x));
                assert forall|j: u64| j != k implies #[trigger] self.bucket(j) == old(self).bucket(j) by {
                    if nk.contains(j) {
                        let a = nk.index_of(j);
                        assert(nk[a] == j);
                        if a < i {
                            assert(ok[a] == j);
                            assert(ok.contains(j));
                            let b2 = ok.index_of(j);
                            assert(ok[b2] == j);
                            if b2 != a {
                                if b2 < a {
                                    assert(ok[b2] < ok[a]);
                                } else {
                                    assert(ok[a] < ok[b2]);
                                }
                            }
                        } else {
                            assert(a > i);
                            assert(ok[a - 1] == j);
                            assert(ok.contains(j));
                            let b2 = ok.index_of(j);
                            assert(ok[b2] == j);
                            if b2 != a - 1 {
                                if b2 < a - 1 {
                                    assert(ok[b2] < ok[a - 1]);
                                } else {
                                    assert(ok[a - 1] < ok[b2]);
                                }
                            }
                        }
                    } else {
                        if ok.contains(j) {
                            let b2 = ok.index_of(j);
                            assert(ok[b2] == j);
                            if b2 < i {
                                assert(nk[b2] == j);
                            } else {
                                assert(nk[b2 + 1] == j);
                            }
                        }
                    }
                }
                assert(nk.to_set() =~= ok.to_set().insert(k)) by {
                    assert forall|z: u64| nk.to_set().contains(z) <==> ok.to_set().insert(k).contains(z) by {
                        if nk.contains(z) {
                            let a = nk.index_of(z);
                            if a < i {
                                assert(ok[a] == z);
                            } else if a > i {
                                assert(ok[a - 1] == z);
                            }
                        }
                        if ok.contains(z) {
                            let b2 = ok.index_of(z);
                            if b2 < i {
                                assert(nk[b2] == z);
                            } else {
                                assert(nk[b2 + 1] == z);
                            }
                        }
                    }
                }
            }
        }
    }
}

} // verus!
