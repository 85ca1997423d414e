use vstd::prelude::*;
use std::collections::HashMap;

verus! {

use vstd::std_specs::iter::IteratorSpec;

broadcast use vstd::std_specs::hash::group_hash_axioms;

/// A store with two key spaces. A primary key (`k1`) owns exactly one value;
/// a secondary key (`k2`) groups any number of primary keys into a bucket.
/// Every primary key present belongs to exactly one bucket, every bucket
/// member has a primary entry, and no bucket is kept once it is empty.
///
/// The abstract state is a pair of maps: `entries()`, from primary key to
/// value, and `assoc()`, from primary key to its secondary key. The two
/// always have the same domain.
#[verifier::reject_recursive_types(V)]
pub struct DualHashMap<V> {
    data: HashMap<u64, V>,
    owner: HashMap<u64, u64>,
    buckets: HashMap<u64, Vec<u64>>,
}

/// One bucket is sound: non-empty, duplicate-free, and every member is
/// owned, under `owner`, by exactly this secondary key.
spec fn bucket_entry_ok(owner: Map<u64, u64>, b: Seq<u64>, k2: u64) -> bool {
    &&& b.len() > 0
    &&& b.no_duplicates()
    &&& forall|i: int|
        0 <= i < b.len() ==> owner.contains_key(#[trigger] b[i]) && owner[b[i]] == k2
}

/// Every owned primary key is a member of the bucket of its secondary key.
spec fn owner_covered(owner: Map<u64, u64>, buckets: Map<u64, Vec<u64>>) -> bool {
    forall|k1: u64| #[trigger]
        owner.contains_key(k1) ==> buckets.contains_key(owner[k1])
            && buckets[owner[k1]]@.contains(k1)
}

/// Every stored bucket is sound.
spec fn buckets_ok(owner: Map<u64, u64>, buckets: Map<u64, Vec<u64>>) -> bool {
    forall|k2: u64| #[trigger] buckets.contains_key(k2) ==> bucket_entry_ok(owner, buckets[k2]@, k2)
}

/// A sequence of length one holds a single value.
proof fn lemma_singleton_contains(b: Seq<u64>, x: u64, y: u64)
    requires
        b.len() == 1,
        b.contains(x),
        b.contains(y),
    ensures
        x == y,
{
    let ix = choose|i: int| 0 <= i < b.len() && b[i] == x;
    let iy = choose|i: int| 0 <= i < b.len() && b[i] == y;
}

/// One step of any iterator whose yielded sequence is known ahead.
fn iter_next<I: Iterator>(iter: &mut I) -> (ret: Option<I::Item>)
    ensures
        (*final(iter)).obeys_prophetic_iter_laws() == (*old(iter)).obeys_prophetic_iter_laws(),
        (*final(iter)).obeys_prophetic_iter_laws() ==> ({
            if (*old(iter)).remaining().len() > 0 {
                &&& (*final(iter)).remaining() == (*old(iter)).remaining().drop_first()
                &&& ret == Some((*old(iter)).remaining()[0])
            } else {
                &&& (*final(iter)).remaining() == (*old(iter)).remaining()
                &&& ret is None
            }
        }),
{
    iter.next()
}

/// The keys of `m`, each exactly once, in unspecified order.
fn keys_vec<T>(m: &HashMap<u64, T>) -> (ks: Vec<u64>)
    ensures
        ks@.no_duplicates(),
        ks@.to_set() == m@.dom(),
{
    let mut iter = m.keys();
    let ghost total = iter.remaining();
    proof {
        assert(total.unref().no_duplicates()) by {
            assert forall|p: int, q: int|
                0 <= p < total.unref().len() && 0 <= q < total.unref().len() && p
                    != q implies total.unref()[p] != total.unref()[q] by {
                assert(total[p] != total[q]);
            }
        }
        assert(total.skip(0) =~= total);
    }
    let mut ks: Vec<u64> = Vec::new();
    let mut done = false;
    while !done
        invariant
            iter.obeys_prophetic_iter_laws(),
            total.unref().to_set() == m@.dom(),
            total.unref().no_duplicates(),
            ks@.len() <= total.len(),
            iter.remaining() == total.skip(ks@.len() as int),
            forall|j: int| 0 <= j < ks@.len() ==> ks@[j] == total.unref()[j],
            done ==> ks@.len() == total.len(),
            total.len() == m@.dom().len(),
        decreases m@.dom().len() - ks@.len() + if done {
            0int
        } else {
            1int
        },
    {
        match iter_next(&mut iter) {
            Some(k) => {
                proof {
                    let n = ks@.len() as int;
                    assert(total.skip(n)[0] == total[n]);
                    assert(total.skip(n).drop_first() =~= total.skip(n + 1));
                }
                ks.push(*k);
            },
            None => {
                done = true;
            },
        }
    }
    proof {
        assert(ks@ =~= total.unref());
    }
    ks
}

/// Position of `k1` in `b`, which must occur in it.
fn index_of(b: &Vec<u64>, k1: u64) -> (i: usize)
    requires
        b@.contains(k1),
    ensures
        i < b@.len(),
        b@[i as int] == k1,
{
    let mut i: usize = 0;
    while i < b.len()
        invariant
            i <= b@.len(),
            b@.contains(k1),
            forall|j: int| 0 <= j < i ==> b@[j] != k1,
        decreases b@.len() - i,
    {
        if b[i] == k1 {
            return i;
        }
        i = i + 1;
    }
    proof {
        let j = choose|j: int| 0 <= j < b@.len() && b@[j] == k1;
        assert(false);
    }
    0
}

/// Removing position `i` from a duplicate-free sequence removes exactly the
/// element there, as a set, and keeps the rest duplicate-free.
proof fn lemma_seq_remove_at(b: Seq<u64>, i: int)
    requires
        b.no_duplicates(),
        0 <= i < b.len(),
    ensures
        b.remove(i).no_duplicates(),
        forall|x: u64| b.remove(i).contains(x) <==> (b.contains(x) && x != b[i]),
        b.remove(i).len() == b.len() - 1,
{
    b.remove_ensures(i);
    let r = b.remove(i);
    assert forall|x: u64| r.contains(x) implies (b.contains(x) && x != b[i]) by {
        let idx = choose|idx: int| 0 <= idx < r.len() && r[idx] == x;
        if idx < i {
            assert(b[idx] == x);
        } else {
            assert(b[idx + 1] == x);
        }
    };
    assert forall|x: u64| b.contains(x) && x != b[i] implies r.contains(x) by {
        let idx = choose|idx: int| 0 <= idx < b.len() && b[idx] == x;
        if idx < i {
            assert(r[idx] == x);
        } else {
            assert(r[idx - 1] == x);
        }
    };
    assert forall|p: int, q: int|
        0 <= p < r.len() && 0 <= q < r.len() && p != q implies r[p] != r[q] by {
        let p0 = if p < i {
            p
        } else {
            p + 1
        };
        let q0 = if q < i {
            q
        } else {
            q + 1
        };
        assert(r[p] == b[p0]);
        assert(r[q] == b[q0]);
    };
}

/// Takes `k1` out of the bucket of `k2`, dropping the bucket if `k1` was
/// its last member.
fn remove_from_bucket(buckets: &mut HashMap<u64, Vec<u64>>, k2: u64, k1: u64)
    requires
        old(buckets)@.contains_key(k2),
        old(buckets)@[k2]@.contains(k1),
        old(buckets)@[k2]@.no_duplicates(),
    ensures
        old(buckets)@[k2]@.len() == 1 ==> final(buckets)@ == old(buckets)@.remove(k2),
        old(buckets)@[k2]@.len() > 1 ==> {
            &&& final(buckets)@.dom() == old(buckets)@.dom()
            &&& final(buckets)@[k2]@.no_duplicates()
            &&& forall|x: u64|
                final(buckets)@[k2]@.contains(x) <==> (old(buckets)@[k2]@.contains(x) && x != k1)
            &&& final(buckets)@[k2]@.len() == old(buckets)@[k2]@.len() - 1
            &&& forall|j: u64|
                j != k2 && old(buckets)@.contains_key(j) ==> final(buckets)@[j] == old(buckets)@[j]
        },
{
    let mut b = buckets.remove(&k2).unwrap();
    let i = index_of(&b, k1);
    proof {
        lemma_seq_remove_at(b@, i as int);
    }
    b.remove(i);
    if b.len() > 0 {
        buckets.insert(k2, b);
        proof {
            assert(final(buckets)@.dom() =~= old(buckets)@.dom());
        }
    }
}

/// Puts `k1` into the bucket of `k2`, creating the bucket if absent; `k1`
/// must not already be a member.
fn add_to_bucket(buckets: &mut HashMap<u64, Vec<u64>>, k2: u64, k1: u64)
    requires
        old(buckets)@.contains_key(k2) ==> !old(buckets)@[k2]@.contains(k1),
    ensures
        final(buckets)@.dom() == old(buckets)@.dom().insert(k2),
        forall|j: u64|
            j != k2 && old(buckets)@.contains_key(j) ==> final(buckets)@[j] == old(buckets)@[j],
        final(buckets)@[k2]@ == if old(buckets)@.contains_key(k2) {
            old(buckets)@[k2]@.push(k1)
        } else {
            seq![k1]
        },
{
    let mut b = match buckets.remove(&k2) {
        Some(b) => b,
        None => Vec::new(),
    };
    b.push(k1);
    buckets.insert(k2, b);
    proof {
        assert(final(buckets)@.dom() =~= old(buckets)@.dom().insert(k2));
        if !old(buckets)@.contains_key(k2) {
            assert(final(buckets)@[k2]@ =~= seq![k1]);
        }
    }
}

impl<V> DualHashMap<V> {
    /// The primary store: each primary key and the value it owns.
    pub closed spec fn entries(&self) -> Map<u64, V> {
        self.data@
    }

    /// The secondary association: each primary key and the one secondary
    /// key whose bucket holds it.
    pub closed spec fn assoc(&self) -> Map<u64, u64> {
        self.owner@
    }

    /// The bucket of `k2`: all primary keys currently grouped under it.
    pub open spec fn bucket_of(&self, k2: u64) -> Set<u64> {
        Set::new(|k1: u64| self.assoc().contains_key(k1) && self.assoc()[k1] == k2)
    }

    /// Whether some primary key is grouped under `k2`.
    pub open spec fn has_k2(&self, k2: u64) -> bool {
        exists|k1: u64| #[trigger] self.assoc().contains_key(k1) && self.assoc()[k1] == k2
    }

    /// The stored buckets, each as the set of its members.
    pub closed spec fn buckets_view(&self) -> Map<u64, Set<u64>> {
        self.buckets@.map_values(|b: Vec<u64>| b@.to_set())
    }

    /// The internal consistency of the three tables.
    pub closed spec fn wf(&self) -> bool {
        &&& self.owner@.dom() == self.data@.dom()
        &&& owner_covered(self.owner@, self.buckets@)
        &&& buckets_ok(self.owner@, self.buckets@)
    }

    /// An empty map.
    pub fn new() -> (m: Self)
        ensures
            m.wf(),
            m.entries() == Map::<u64, V>::empty(),
            m.assoc() == Map::<u64, u64>::empty(),
    {
        DualHashMap { data: HashMap::new(), owner: HashMap::new(), buckets: HashMap::new() }
    }

    /// The value owned by this primary key, if present.
    pub fn get_by_k1(&self, k1: &u64) -> (r: Option<&V>)
        ensures
            match r {
                Some(v) => self.entries().contains_key(*k1) && *v == self.entries()[*k1],
                None => !self.entries().contains_key(*k1),
            },
    {
        self.data.get(k1)
    }

    /// Whether this primary key owns a value.
    pub fn contains_k1(&self, k1: &u64) -> (b: bool)
        ensures
            b == self.entries().contains_key(*k1),
    {
        self.data.contains_key(k1)
    }

    /// Whether any primary key is grouped under this secondary key.
    pub fn contains_k2(&self, k2: &u64) -> (b: bool)
        requires
            self.wf(),
        ensures
            b == self.has_k2(*k2),
    {
        let b = self.buckets.contains_key(k2);
        proof {
            if b {
                let bs = self.buckets@[*k2]@;
                assert(self.assoc().contains_key(bs[0]) && self.assoc()[bs[0]] == *k2);
            } else if self.has_k2(*k2) {
                let k1 = choose|k1: u64| #[trigger]
                    self.assoc().contains_key(k1) && self.assoc()[k1] == *k2;
            }
        }
        b
    }

    /// The members of the bucket of `k2`, duplicate-free, or `None` if no
    /// primary key is grouped under `k2`.
    pub fn get_k1s_by_k2(&self, k2: &u64) -> (r: Option<&Vec<u64>>)
        requires
            self.wf(),
        ensures
            match r {
                Some(b) => {
                    &&& self.has_k2(*k2)
                    &&& b@.no_duplicates()
                    &&& b@.to_set() == self.bucket_of(*k2)
                    &&& b@.len() > 0
                },
                None => !self.has_k2(*k2),
            },
    {
        let r = self.buckets.get(k2);
        proof {
            match r {
                Some(b) => {
                    assert(self.assoc().contains_key(b@[0]) && self.assoc()[b@[0]] == *k2);
                    assert(b@.to_set() =~= self.bucket_of(*k2));
                },
                None => {
                    if self.has_k2(*k2) {
                        let k1 = choose|k1: u64| #[trigger]
                            self.assoc().contains_key(k1) && self.assoc()[k1] == *k2;
                    }
                },
            }
        }
        r
    }

    /// Stores `value` under `k1` and groups `k1` under `k2`. If `k1` was
    /// already present, its old value is discarded and it is first taken
    /// out of whichever bucket held it, pruning that bucket if it empties:
    /// an upsert with re-keying. Never fails.
    pub fn insert(&mut self, k1: u64, k2: u64, value: V)
        requires
            old(self).wf(),
        ensures
            final(self).wf(),
            final(self).entries() == old(self).entries().insert(k1, value),
            final(self).assoc() == old(self).assoc().insert(k1, k2),
    {
        let ghost o0 = old(self).owner@;
        let ghost b0 = old(self).buckets@;
        let had: Option<u64> = match self.owner.get(&k1) {
            Some(old_k2) => Some(*old_k2),
            None => None,
        };
        match had {
            Some(old_k2) => {
                if old_k2 != k2 {
                    proof {
                        assert(o0.contains_key(k1));
                        assert(b0[old_k2]@.contains(k1));
                    }
                    remove_from_bucket(&mut self.buckets, old_k2, k1);
                    let ghost b1 = self.buckets@;
                    proof {
                        let bold = b0[old_k2]@;
                        assert(b1.contains_key(k2) ==> b1[k2] == b0[k2] && !b1[k2]@.contains(k1))
                            by {
                            if b1.contains_key(k2) {
                                assert(b0.contains_key(k2));
                                if b0[k2]@.contains(k1) {
                                    let i = choose|i: int|
                                        0 <= i < b0[k2]@.len() && b0[k2]@[i] == k1;
                                    assert(o0[b0[k2]@[i]] == k2);
                                }
                            }
                        }
                    }
                    add_to_bucket(&mut self.buckets, k2, k1);
                    let ghost b2 = self.buckets@;
                    self.owner.insert(k1, k2);
                    proof {
                        let o1 = self.owner@;
                        let bold = b0[old_k2]@;
                        let dropped = bold.len() == 1;
                        assert(b2[k2]@.contains(k1)) by {
                            if b1.contains_key(k2) {
                                assert(b2[k2]@ == b1[k2]@.push(k1));
                                assert(b2[k2]@[b2[k2]@.len() - 1] == k1);
                            } else {
                                assert(b2[k2]@ == seq![k1]);
                                assert(b2[k2]@[0] == k1);
                            }
                        }
                        assert(owner_covered(o1, b2)) by {
                            assert forall|k: u64| #[trigger]
                                o1.contains_key(k) implies b2.contains_key(o1[k])
                                && b2[o1[k]]@.contains(k) by {
                                if k != k1 {
                                    let j = o0[k];
                                    assert(o0.contains_key(k));
                                    assert(b0.contains_key(j) && b0[j]@.contains(k));
                                    if j == old_k2 {
                                        if dropped {
                                            lemma_singleton_contains(bold, k, k1);
                                        }
                                        assert(b1.contains_key(old_k2));
                                        assert(b1[old_k2]@.contains(k));
                                        assert(b2[old_k2] == b1[old_k2]);
                                    } else {
                                        assert(b1.contains_key(j) && b1[j] == b0[j]);
                                        if j == k2 {
                                            assert(b2[k2]@ == b1[k2]@.push(k1));
                                            let i = choose|i: int|
                                                0 <= i < b1[j]@.len() && b1[j]@[i] == k;
                                            assert(b2[k2]@[i] == k);
                                        } else {
                                            assert(b2[j] == b1[j]);
                                        }
                                    }
                                }
                            }
                        }
                        assert(buckets_ok(o1, b2)) by {
                            assert forall|j: u64| #[trigger]
                                b2.contains_key(j) implies bucket_entry_ok(o1, b2[j]@, j) by {
                                if j == k2 {
                                    if b1.contains_key(k2) {
                                        let bb = b0[k2]@;
                                        assert(bucket_entry_ok(o0, bb, k2));
                                        assert(!bb.contains(k1));
                                        assert(b2[k2]@ == bb.push(k1));
                                        assert forall|p: int, q: int|
                                            0 <= p < b2[j]@.len() && 0 <= q < b2[j]@.len() && p
                                                != q implies b2[j]@[p] != b2[j]@[q] by {
                                            if p < bb.len() && q < bb.len() {
                                                assert(bb[p] != bb[q]);
                                            } else if p < bb.len() {
                                                assert(b2[j]@[q] == k1 && b2[j]@[p] == bb[p]);
                                            } else {
                                                assert(b2[j]@[p] == k1 && b2[j]@[q] == bb[q]);
                                            }
                                        }
                                        assert forall|i: int|
                                            0 <= i < b2[j]@.len() implies o1.contains_key(
                                            b2[j]@[i]) && o1[b2[j]@[i]] == j by {
                                            if i < bb.len() {
                                                assert(o0.contains_key(bb[i]) && o0[bb[i]] == k2);
                                            } else {
                                                assert(b2[j]@[i] == k1);
                                            }
                                        }
                                    } else {
                                        assert(b2[k2]@ == seq![k1]);
                                    }
                                } else if j == old_k2 {
                                    assert(b1.contains_key(old_k2));
                                    assert(!dropped);
                                    assert forall|i: int|
                                        0 <= i < b2[j]@.len() implies o1.contains_key(b2[j]@[i])
                                        && o1[b2[j]@[i]] == j by {
                                        assert(b2[old_k2] == b1[old_k2]);
                                        assert(b1[old_k2]@.contains(b1[old_k2]@[i]));
                                        assert(bold.contains(b1[old_k2]@[i]));
                                        let i0 = choose|i0: int|
                                            0 <= i0 < bold.len() && bold[i0] == b2[j]@[i];
                                        assert(o0.contains_key(bold[i0]) && o0[bold[i0]]
                                            == old_k2);
                                    }
                                } else {
                                    assert(b1.contains_key(j) && b1[j] == b0[j]);
                                    assert(b2[j] == b1[j]);
                                    assert(bucket_entry_ok(o0, b0[j]@, j));
                                    assert forall|i: int|
                                        0 <= i < b2[j]@.len() implies o1.contains_key(b2[j]@[i])
                                        && o1[b2[j]@[i]] == j by {
                                        assert(o0.contains_key(b0[j]@[i]) && o0[b0[j]@[i]] == j);
                                        assert(b0[j]@[i] != k1);
                                    }
                                }
                            }
                        }
                    }
                } else {
                    proof {
                        assert(o0.insert(k1, k2) =~= o0);
                    }
                }
            },
            None => {
                proof {
                    if self.buckets@.contains_key(k2) && self.buckets@[k2]@.contains(k1) {
                        let i = choose|i: int|
                            0 <= i < b0[k2]@.len() && b0[k2]@[i] == k1;
                        assert(o0.contains_key(b0[k2]@[i]));
                        assert(false);
                    }
                }
                add_to_bucket(&mut self.buckets, k2, k1);
                let ghost b2 = self.buckets@;
                self.owner.insert(k1, k2);
                proof {
                    let o1 = self.owner@;
                    assert(b2[k2]@.contains(k1)) by {
                        if b0.contains_key(k2) {
                            assert(b2[k2]@ == b0[k2]@.push(k1));
                            assert(b2[k2]@[b2[k2]@.len() - 1] == k1);
                        } else {
                            assert(b2[k2]@ == seq![k1]);
                            assert(b2[k2]@[0] == k1);
                        }
                    }
                    assert(owner_covered(o1, b2)) by {
                        assert forall|k: u64| #[trigger]
                            o1.contains_key(k) implies b2.contains_key(o1[k])
                            && b2[o1[k]]@.contains(k) by {
                            if k != k1 {
                                let j = o0[k];
                                assert(o0.contains_key(k));
                                assert(b0.contains_key(j) && b0[j]@.contains(k));
                                if j == k2 {
                                    assert(b2[k2]@ == b0[k2]@.push(k1));
                                    let i = choose|i: int| 0 <= i < b0[j]@.len() && b0[j]@[i] == k;
                                    assert(b2[k2]@[i] == k);
                                } else {
                                    assert(b2[j] == b0[j]);
                                }
                            }
                        }
                    }
                    assert(buckets_ok(o1, b2)) by {
                        assert forall|j: u64| #[trigger]
                            b2.contains_key(j) implies bucket_entry_ok(o1, b2[j]@, j) by {
                            if j == k2 {
                                if b0.contains_key(k2) {
                                    let bb = b0[k2]@;
                                    assert(bucket_entry_ok(o0, bb, k2));
                                    assert(!bb.contains(k1)) by {
                                        if bb.contains(k1) {
                                            let i = choose|i: int|
                                                0 <= i < bb.len() && bb[i] == k1;
                                            assert(o0.contains_key(bb[i]));
                                        }
                                    }
                                    assert(b2[k2]@ == bb.push(k1));
                                    assert forall|p: int, q: int|
                                        0 <= p < b2[j]@.len() && 0 <= q < b2[j]@.len() && p
                                            != q implies b2[j]@[p] != b2[j]@[q] by {
                                        if p < bb.len() && q < bb.len() {
                                            assert(bb[p] != bb[q]);
                                        } else if p < bb.len() {
                                            assert(b2[j]@[q] == k1 && b2[j]@[p] == bb[p]);
                                        } else {
                                            assert(b2[j]@[p] == k1 && b2[j]@[q] == bb[q]);
                                        }
                                    }
                                    assert forall|i: int|
                                        0 <= i < b2[j]@.len() implies o1.contains_key(b2[j]@[i])
                                        && o1[b2[j]@[i]] == j by {
                                        if i < bb.len() {
                                            assert(o0.contains_key(bb[i]) && o0[bb[i]] == k2);
                                        } else {
                                            assert(b2[j]@[i] == k1);
                                        }
                                    }
                                } else {
                                    assert(b2[k2]@ == seq![k1]);
                                }
                            } else {
                                assert(b0.contains_key(j));
                                assert(b2[j] == b0[j]);
                                assert(bucket_entry_ok(o0, b0[j]@, j));
                                assert forall|i: int|
                                    0 <= i < b2[j]@.len() implies o1.contains_key(b2[j]@[i])
                                    && o1[b2[j]@[i]] == j by {
                                    assert(o0.contains_key(b0[j]@[i]) && o0[b0[j]@[i]] == j);
                                    assert(b0[j]@[i] != k1);
                                }
                            }
                        }
                    }
                }
            },
        }
        self.data.insert(k1, value);
        proof {
            assert(self.owner@.dom() =~= self.data@.dom());
        }
    }

    /// Removes the value owned by `k1` and takes `k1` out of whichever
    /// bucket held it, pruning the bucket if it empties. A no-op if `k1`
    /// is absent.
    pub fn remove_by_k1(&mut self, k1: &u64)
        requires
            old(self).wf(),
        ensures
            final(self).wf(),
            final(self).entries() == old(self).entries().remove(*k1),
            final(self).assoc() == old(self).assoc().remove(*k1),
    {
        let ghost o0 = old(self).owner@;
        let ghost b0 = old(self).buckets@;
        let ghost d0 = old(self).data@;
        match self.owner.remove(k1) {
            Some(k2) => {
                self.data.remove(k1);
                proof {
                    assert(b0.contains_key(k2) && b0[k2]@.contains(*k1));
                    assert(bucket_entry_ok(o0, b0[k2]@, k2));
                }
                remove_from_bucket(&mut self.buckets, k2, *k1);
                proof {
                    let o1 = self.owner@;
                    let b2 = self.buckets@;
                    let bold = b0[k2]@;
                    let dropped = bold.len() == 1;
                    assert(o1.dom() =~= self.data@.dom());
                    assert(owner_covered(o1, b2)) by {
                        assert forall|k: u64| #[trigger]
                            o1.contains_key(k) implies b2.contains_key(o1[k])
                            && b2[o1[k]]@.contains(k) by {
                            let j = o0[k];
                            assert(o0.contains_key(k));
                            assert(b0.contains_key(j) && b0[j]@.contains(k));
                            if j == k2 {
                                if dropped {
                                    lemma_singleton_contains(bold, k, *k1);
                                }
                                assert(b2[k2]@.contains(k));
                            } else {
                                assert(b2[j] == b0[j]);
                            }
                        }
                    }
                    assert(buckets_ok(o1, b2)) by {
                        assert forall|j: u64| #[trigger]
                            b2.contains_key(j) implies bucket_entry_ok(o1, b2[j]@, j) by {
                            if j == k2 {
                                assert(!dropped);
                                assert forall|i: int|
                                    0 <= i < b2[j]@.len() implies o1.contains_key(b2[j]@[i])
                                    && o1[b2[j]@[i]] == j by {
                                    assert(b2[j]@.contains(b2[j]@[i]));
                                    assert(bold.contains(b2[j]@[i]) && b2[j]@[i] != *k1);
                                    let i0 = choose|i0: int|
                                        0 <= i0 < bold.len() && bold[i0] == b2[j]@[i];
                                    assert(o0.contains_key(bold[i0]) && o0[bold[i0]] == k2);
                                }
                            } else {
                                assert(b0.contains_key(j));
                                assert(b2[j] == b0[j]);
                                assert(bucket_entry_ok(o0, b0[j]@, j));
                                assert forall|i: int|
                                    0 <= i < b2[j]@.len() implies o1.contains_key(b2[j]@[i])
                                    && o1[b2[j]@[i]] == j by {
                                    assert(o0.contains_key(b0[j]@[i]) && o0[b0[j]@[i]] == j);
                                    assert(b0[j]@[i] != *k1);
                                }
                            }
                        }
                    }
                }
            },
            None => {
                proof {
                    assert(o0.remove(*k1) =~= o0);
                    assert(!d0.contains_key(*k1));
                    assert(d0.remove(*k1) =~= d0);
                }
            },
        }
    }

    /// Removes the entire bucket of `k2`: every primary key grouped under
    /// it and each of their values. A no-op if no primary key is grouped
    /// under `k2`.
    pub fn remove_by_k2(&mut self, k2: &u64)
        requires
            old(self).wf(),
        ensures
            final(self).wf(),
            final(self).entries() == old(self).entries().remove_keys(old(self).bucket_of(*k2)),
            final(self).assoc() == old(self).assoc().remove_keys(old(self).bucket_of(*k2)),
    {
        let ghost o0 = old(self).owner@;
        let ghost b0 = old(self).buckets@;
        let ghost d0 = old(self).data@;
        match self.buckets.remove(k2) {
            Some(b) => {
                proof {
                    assert(bucket_entry_ok(o0, b@, *k2));
                    assert(old(self).bucket_of(*k2) =~= b@.to_set()) by {
                        assert forall|k: u64|
                            old(self).bucket_of(*k2).contains(k) implies b@.contains(k) by {
                            assert(o0.contains_key(k) && o0[k] == *k2);
                            assert(b0[*k2]@.contains(k));
                        }
                    }
                    assert(o0.remove_keys(b@.take(0).to_set()) =~= o0);
                    assert(d0.remove_keys(b@.take(0).to_set()) =~= d0);
                }
                let mut i: usize = 0;
                while i < b.len()
                    invariant
                        i <= b@.len(),
                        self.buckets@ == b0.remove(*k2),
                        self.owner@ == o0.remove_keys(b@.take(i as int).to_set()),
                        self.data@ == d0.remove_keys(b@.take(i as int).to_set()),
                    decreases b@.len() - i,
                {
                    let k1 = b[i];
                    self.data.remove(&k1);
                    self.owner.remove(&k1);
                    proof {
                        assert(b@.take(i + 1).to_set() =~= b@.take(i as int).to_set().insert(
                            b@[i as int])) by {
                            assert(b@.take(i + 1) =~= b@.take(i as int).push(b@[i as int]));
                            b@.take(i as int).lemma_push_to_set_commute(b@[i as int]);
                        }
                        assert(self.owner@ =~= o0.remove_keys(b@.take(i + 1).to_set()));
                        assert(self.data@ =~= d0.remove_keys(b@.take(i + 1).to_set()));
                    }
                    i = i + 1;
                }
                proof {
                    assert(b@.take(b@.len() as int) =~= b@);
                    let o1 = self.owner@;
                    let b2 = self.buckets@;
                    let bset = b@.to_set();
                    assert(o1 == o0.remove_keys(bset));
                    assert(o1.dom() =~= self.data@.dom());
                    assert(owner_covered(o1, b2)) by {
                        assert forall|k: u64| #[trigger]
                            o1.contains_key(k) implies b2.contains_key(o1[k])
                            && b2[o1[k]]@.contains(k) by {
                            let j = o0[k];
                            assert(o0.contains_key(k));
                            assert(b0.contains_key(j) && b0[j]@.contains(k));
                            assert(j != *k2);
                        }
                    }
                    assert(buckets_ok(o1, b2)) by {
                        assert forall|j: u64| #[trigger]
                            b2.contains_key(j) implies bucket_entry_ok(o1, b2[j]@, j) by {
                            assert(b0.contains_key(j) && j != *k2);
                            assert(b2[j] == b0[j]);
                            assert(bucket_entry_ok(o0, b0[j]@, j));
                            assert forall|i2: int|
                                0 <= i2 < b2[j]@.len() implies o1.contains_key(b2[j]@[i2])
                                && o1[b2[j]@[i2]] == j by {
                                let m = b0[j]@[i2];
                                assert(o0.contains_key(m) && o0[m] == j);
                                assert(!bset.contains(m)) by {
                                    if b@.contains(m) {
                                        let im = choose|im: int|
                                            0 <= im < b@.len() && b@[im] == m;
                                        assert(o0[b@[im]] == *k2);
                                    }
                                }
                            }
                        }
                    }
                }
            },
            None => {
                proof {
                    assert(old(self).bucket_of(*k2) =~= Set::<u64>::empty()) by {
                        assert forall|k: u64|
                            !old(self).bucket_of(*k2).contains(k) by {
                            if o0.contains_key(k) && o0[k] == *k2 {
                                assert(b0.contains_key(*k2));
                            }
                        }
                    }
                    assert(o0.remove_keys(Set::<u64>::empty()) =~= o0);
                    assert(d0.remove_keys(Set::<u64>::empty()) =~= d0);
                }
            },
        }
    }

    /// `ks` lists each primary key exactly once, and `vs` the value each
    /// one owns, aligned by position.
    pub open spec fn values_listing(&self, ks: Seq<u64>, vs: Seq<&V>) -> bool {
        &&& ks.no_duplicates()
        &&& ks.to_set() == self.entries().dom()
        &&& vs.len() == ks.len()
        &&& forall|i: int|
            0 <= i < ks.len() ==> self.entries().contains_key(#[trigger] ks[i]) && *vs[i]
                == self.entries()[ks[i]]
    }

    /// `ks` lists each member of the bucket of `k2` exactly once, and `vs`
    /// the value each one owns, aligned by position.
    pub open spec fn bucket_listing(&self, k2: u64, ks: Seq<u64>, vs: Seq<&V>) -> bool {
        &&& ks.no_duplicates()
        &&& ks.to_set() == self.bucket_of(k2)
        &&& vs.len() == ks.len()
        &&& forall|i: int|
            0 <= i < ks.len() ==> self.entries().contains_key(#[trigger] ks[i]) && *vs[i]
                == self.entries()[ks[i]]
    }

    /// All primary keys, each exactly once, in unspecified order.
    pub fn get_keys1(&self) -> (ks: Vec<u64>)
        ensures
            ks@.no_duplicates(),
            ks@.to_set() == self.entries().dom(),
    {
        keys_vec(&self.data)
    }

    /// All secondary keys with a non-empty bucket, each exactly once, in
    /// unspecified order.
    pub fn get_keys2(&self) -> (ks: Vec<u64>)
        requires
            self.wf(),
        ensures
            ks@.no_duplicates(),
            forall|k2: u64| ks@.to_set().contains(k2) <==> self.has_k2(k2),
    {
        let ks = keys_vec(&self.buckets);
        proof {
            assert forall|k2: u64| ks@.to_set().contains(k2) <==> self.has_k2(k2) by {
                if self.buckets@.contains_key(k2) {
                    let bs = self.buckets@[k2]@;
                    assert(self.assoc().contains_key(bs[0]) && self.assoc()[bs[0]] == k2);
                }
                if self.has_k2(k2) {
                    let k1 = choose|k1: u64| #[trigger]
                        self.assoc().contains_key(k1) && self.assoc()[k1] == k2;
                    assert(self.buckets@.contains_key(k2));
                }
            }
        }
        ks
    }

    /// All stored values, one for each primary key, in unspecified order.
    pub fn get_values(&self) -> (vs: Vec<&V>)
        ensures
            exists|ks: Seq<u64>| self.values_listing(ks, vs@),
    {
        let ks = self.get_keys1();
        let mut vs: Vec<&V> = Vec::new();
        let mut i: usize = 0;
        while i < ks.len()
            invariant
                i <= ks@.len(),
                vs@.len() == i,
                ks@.no_duplicates(),
                ks@.to_set() == self.entries().dom(),
                forall|j: int|
                    0 <= j < i ==> self.entries().contains_key(#[trigger] ks@[j]) && *vs@[j]
                        == self.entries()[ks@[j]],
            decreases ks@.len() - i,
        {
            proof {
                assert(ks@.contains(ks@[i as int]));
            }
            let v = self.data.get(&ks[i]).unwrap();
            vs.push(v);
            i = i + 1;
        }
        proof {
            assert(self.values_listing(ks@, vs@));
        }
        vs
    }

    /// The values grouped under `k2`, one for each bucket member, in
    /// unspecified order; empty if no primary key is grouped under `k2`.
    pub fn get_by_k2(&self, k2: &u64) -> (vs: Vec<&V>)
        requires
            self.wf(),
        ensures
            exists|ks: Seq<u64>| self.bucket_listing(*k2, ks, vs@),
    {
        let mut vs: Vec<&V> = Vec::new();
        match self.buckets.get(k2) {
            Some(b) => {
                proof {
                    assert(bucket_entry_ok(self.owner@, b@, *k2));
                    assert(b@.to_set() =~= self.bucket_of(*k2)) by {
                        assert forall|k: u64|
                            self.bucket_of(*k2).contains(k) implies b@.contains(k) by {
                            assert(self.assoc().contains_key(k) && self.assoc()[k] == *k2);
                        }
                    }
                }
                let mut i: usize = 0;
                while i < b.len()
                    invariant
                        i <= b@.len(),
                        vs@.len() == i,
                        self.wf(),
                        bucket_entry_ok(self.owner@, b@, *k2),
                        forall|j: int|
                            0 <= j < i ==> self.entries().contains_key(#[trigger] b@[j]) && *vs@[j]
                                == self.entries()[b@[j]],
                    decreases b@.len() - i,
                {
                    let v = self.data.get(&b[i]).unwrap();
                    vs.push(v);
                    i = i + 1;
                }
                proof {
                    assert(self.bucket_listing(*k2, b@, vs@));
                }
            },
            None => {
                proof {
                    assert(self.bucket_of(*k2) =~= Set::<u64>::empty()) by {
                        assert forall|k: u64| !self.bucket_of(*k2).contains(k) by {
                            if self.assoc().contains_key(k) && self.assoc()[k] == *k2 {
                                assert(self.buckets@.contains_key(*k2));
                            }
                        }
                    }
                    assert(Seq::<u64>::empty().to_set() =~= Set::<u64>::empty());
                    assert(self.bucket_listing(*k2, Seq::<u64>::empty(), vs@));
                }
            },
        }
        vs
    }

    /// Rewrites the value owned by `k1` in place through `f`, leaving the
    /// key associations untouched. Returns whether `k1` was present; if it
    /// was not, `f` is never applied.
    pub fn get_mut_by_k1<F: FnOnce(V) -> V>(&mut self, k1: &u64, f: F) -> (found: bool)
        requires
            old(self).wf(),
            old(self).entries().contains_key(*k1) ==> call_requires(
                f,
                (old(self).entries()[*k1],),
            ),
        ensures
            final(self).wf(),
            found == old(self).entries().contains_key(*k1),
            final(self).assoc() == old(self).assoc(),
            !found ==> final(self).entries() == old(self).entries(),
            found ==> exists|v2: V|
                #[trigger] call_ensures(f, (old(self).entries()[*k1],), v2) && final(self).entries() == old(self).entries().insert(*k1, v2),
    {
        match self.data.remove(k1) {
            Some(v) => {
                let v2 = f(v);
                self.data.insert(*k1, v2);
                proof {
                    assert(self.data@ =~= old(self).data@.insert(*k1, v2));
                    assert(self.owner@.dom() =~= self.data@.dom());
                }
                true
            },
            None => {
                proof {
                    assert(old(self).data@.remove(*k1) =~= old(self).data@);
                }
                false
            },
        }
    }

    /// Rewrites every value grouped under `k2` in place through `f`,
    /// leaving the key associations untouched. Values outside the bucket
    /// are untouched; a no-op if no primary key is grouped under `k2`.
    pub fn for_each_mut_by_k2<F: Fn(V) -> V>(&mut self, k2: &u64, f: F)
        requires
            old(self).wf(),
            forall|k: u64|
                old(self).assoc().contains_key(k) && old(self).assoc()[k] == *k2
                    ==> call_requires(f, (old(self).entries()[k],)),
        ensures
            final(self).wf(),
            final(self).assoc() == old(self).assoc(),
            final(self).entries().dom() == old(self).entries().dom(),
            forall|k: u64|
                old(self).assoc().contains_key(k) && old(self).assoc()[k] == *k2
                    ==> call_ensures(f, (old(self).entries()[k],), #[trigger] final(self).entries()[k]),
            forall|k: u64|
                old(self).entries().contains_key(k) && !(old(self).assoc().contains_key(k) && old(self).assoc()[k] == *k2) ==> #[trigger] final(self).entries()[k] == old(self).entries()[k],
    {
        let ghost o0 = old(self).owner@;
        let ghost d0 = old(self).data@;
        match self.buckets.get(k2) {
            Some(b) => {
                proof {
                    assert(bucket_entry_ok(o0, b@, *k2));
                }
                let mut i: usize = 0;
                while i < b.len()
                    invariant
                        i <= b@.len(),
                        o0 == old(self).assoc(),
                        d0 == old(self).entries(),
                        self.owner@ == o0,
                        self.buckets@ == old(self).buckets@,
                        b@ == old(self).buckets@[*k2]@,
                        old(self).wf(),
                        bucket_entry_ok(o0, b@, *k2),
                        self.data@.dom() == d0.dom(),
                        forall|k: u64|
                            old(self).assoc().contains_key(k) && old(self).assoc()[k] == *k2
                                ==> call_requires(f, (d0[k],)),
                        forall|j: int|
                            0 <= j < i ==> call_ensures(
                                f,
                                (d0[b@[j]],),
                                #[trigger] self.data@[b@[j]],
                            ),
                        forall|k: u64|
                            d0.contains_key(k) && !b@.take(i as int).contains(k)
                                ==> #[trigger] self.data@[k] == d0[k],
                    decreases b@.len() - i,
                {
                    let k1 = b[i];
                    proof {
                        assert(o0.contains_key(k1) && o0[k1] == *k2);
                        assert(!b@.take(i as int).contains(k1)) by {
                            if b@.take(i as int).contains(k1) {
                                let j = choose|j: int| 0 <= j < i && b@.take(i as int)[j] == k1;
                                assert(b@[j] == b@[i as int]);
                            }
                        }
                        assert(d0.contains_key(k1));
                    }
                    let v = self.data.remove(&k1).unwrap();
                    let v2 = f(v);
                    self.data.insert(k1, v2);
                    proof {
                        assert(self.data@.dom() =~= d0.dom());
                        assert(b@.take(i + 1) =~= b@.take(i as int).push(b@[i as int]));
                        assert forall|k: u64|
                            d0.contains_key(k) && !b@.take(i + 1).contains(k) implies self.data@[k]
                            == d0[k] by {
                            if b@.take(i as int).contains(k) {
                                let j = choose|j: int| 0 <= j < i && b@.take(i as int)[j] == k;
                                assert(b@.take(i + 1)[j] == k);
                                assert(b@.take(i + 1).contains(k));
                            }
                            assert(b@.take(i + 1)[i as int] == k1);
                            if k == k1 {
                                assert(b@.take(i + 1).contains(k));
                            }
                        }
                    }
                    i = i + 1;
                }
                proof {
                    assert(b@.take(b@.len() as int) =~= b@);
                    assert forall|k: u64|
                        o0.contains_key(k) && o0[k] == *k2 implies call_ensures(
                        f,
                        (d0[k],),
                        self.data@[k],
                    ) by {
                        assert(b@.contains(k));
                        let j = choose|j: int| 0 <= j < b@.len() && b@[j] == k;
                    }
                    assert forall|k: u64|
                        d0.contains_key(k) && !(o0.contains_key(k) && o0[k] == *k2) implies self
                        .data@[k] == d0[k] by {
                        assert(!b@.contains(k)) by {
                            if b@.contains(k) {
                                let j = choose|j: int| 0 <= j < b@.len() && b@[j] == k;
                                assert(o0[b@[j]] == *k2);
                            }
                        }
                    }
                    assert(self.owner@.dom() =~= self.data@.dom());
                }
            },
            None => {
                proof {
                    assert forall|k: u64|
                        o0.contains_key(k) && o0[k] == *k2 implies false by {
                        assert(old(self).buckets@.contains_key(*k2));
                    }
                }
            },
        }
    }

    /// Rewrites every stored value in place through `f`, leaving the key
    /// associations untouched.
    pub fn get_values_mut<F: Fn(V) -> V>(&mut self, f: F)
        requires
            old(self).wf(),
            forall|k: u64| #[trigger]
                old(self).entries().contains_key(k) ==> call_requires(
                    f,
                    (old(self).entries()[k],),
                ),
        ensures
            final(self).wf(),
            final(self).assoc() == old(self).assoc(),
            final(self).entries().dom() == old(self).entries().dom(),
            forall|k: u64| #[trigger]
                old(self).entries().contains_key(k) ==> call_ensures(
                    f,
                    (old(self).entries()[k],),
                    final(self).entries()[k],
                ),
    {
        let ghost d0 = old(self).data@;
        let ks = keys_vec(&self.data);
        let mut i: usize = 0;
        while i < ks.len()
            invariant
                i <= ks@.len(),
                d0 == old(self).entries(),
                self.owner@ == old(self).owner@,
                self.buckets@ == old(self).buckets@,
                old(self).wf(),
                ks@.no_duplicates(),
                ks@.to_set() == d0.dom(),
                self.data@.dom() == d0.dom(),
                forall|k: u64| #[trigger] d0.contains_key(k) ==> call_requires(f, (d0[k],)),
                forall|j: int|
                    0 <= j < i ==> call_ensures(f, (d0[ks@[j]],), #[trigger] self.data@[ks@[j]]),
                forall|k: u64|
                    d0.contains_key(k) && !ks@.take(i as int).contains(k)
                        ==> #[trigger] self.data@[k] == d0[k],
            decreases ks@.len() - i,
        {
            let k1 = ks[i];
            proof {
                assert(ks@.contains(k1));
                assert(d0.contains_key(k1));
                assert(!ks@.take(i as int).contains(k1)) by {
                    if ks@.take(i as int).contains(k1) {
                        let j = choose|j: int| 0 <= j < i && ks@.take(i as int)[j] == k1;
                        assert(ks@[j] == ks@[i as int]);
                    }
                }
            }
            let v = self.data.remove(&k1).unwrap();
            let v2 = f(v);
            self.data.insert(k1, v2);
            proof {
                assert(self.data@.dom() =~= d0.dom());
                assert(ks@.take(i + 1) =~= ks@.take(i as int).push(ks@[i as int]));
                assert forall|k: u64|
                    d0.contains_key(k) && !ks@.take(i + 1).contains(k) implies self.data@[k]
                    == d0[k] by {
                    if ks@.take(i as int).contains(k) {
                        let j = choose|j: int| 0 <= j < i && ks@.take(i as int)[j] == k;
                        assert(ks@.take(i + 1)[j] == k);
                        assert(ks@.take(i + 1).contains(k));
                    }
                    assert(ks@.take(i + 1)[i as int] == k1);
                    if k == k1 {
                        assert(ks@.take(i + 1).contains(k));
                    }
                }
            }
            i = i + 1;
        }
        proof {
            assert forall|k: u64| #[trigger]
                d0.contains_key(k) implies call_ensures(f, (d0[k],), self.data@[k]) by {
                assert(ks@.contains(k));
                let j = choose|j: int| 0 <= j < ks@.len() && ks@[j] == k;
            }
            assert(self.owner@.dom() =~= self.data@.dom());
        }
    }

    /// How many primary keys own a value.
    pub fn len(&self) -> (n: usize)
        ensures
            n == self.entries().dom().len(),
    {
        self.data.len()
    }

    /// Whether no primary key owns a value.
    pub fn is_empty(&self) -> (b: bool)
        ensures
            b == (self.entries().dom().len() == 0),
    {
        self.data.is_empty()
    }

    /// Law: in a well-formed map the two indexes are consistent. The
    /// association has exactly the primary store's keys, so a primary key
    /// sits in exactly one bucket (never more); a bucket is stored exactly
    /// when some key is grouped under it, is never empty, holds exactly
    /// the keys associated with it, and every member owns a value.
    pub proof fn lemma_index_consistent(&self)
        requires
            self.wf(),
        ensures
            self.assoc().dom() == self.entries().dom(),
            self.entries().dom().finite(),
            forall|k2: u64| #[trigger] self.buckets_view().contains_key(k2) <==> self.has_k2(k2),
            forall|k2: u64| #[trigger]
                self.buckets_view().contains_key(k2) ==> self.buckets_view()[k2] == self.bucket_of(
                    k2,
                ),
            forall|k2: u64| #[trigger]
                self.buckets_view().contains_key(k2) ==> self.buckets_view()[k2]
                    != Set::<u64>::empty(),
            forall|k1: u64, k2a: u64, k2b: u64|
                #![trigger self.buckets_view()[k2a].contains(k1), self.buckets_view()[k2b].contains(k1)]
                self.buckets_view().contains_key(k2a) && self.buckets_view().contains_key(k2b)
                    && self.buckets_view()[k2a].contains(k1)
                    && self.buckets_view()[k2b].contains(k1) ==> k2a == k2b,
            forall|k1: u64, k2: u64|
                #[trigger] self.buckets_view().contains_key(k2)
                    && #[trigger] self.buckets_view()[k2].contains(k1)
                    ==> self.entries().contains_key(k1),
    {
        broadcast use vstd::set::group_set_axioms;

        assert forall|k2: u64| #[trigger]
            self.buckets_view().contains_key(k2) implies self.buckets_view()[k2] == self.bucket_of(
            k2,
        ) && self.buckets_view()[k2] != Set::<u64>::empty() && self.has_k2(k2) by {
            let b = self.buckets@[k2]@;
            assert(bucket_entry_ok(self.owner@, b, k2));
            assert(self.buckets_view()[k2] == b.to_set());
            assert(b.to_set() =~= self.bucket_of(k2)) by {
                assert forall|k: u64| self.bucket_of(k2).contains(k) implies b.contains(k) by {
                    assert(self.owner@.contains_key(k) && self.owner@[k] == k2);
                }
            }
            assert(b.to_set().contains(b[0]));
            assert(self.assoc().contains_key(b[0]) && self.assoc()[b[0]] == k2);
        }
        assert forall|k2: u64| self.has_k2(k2) implies self.buckets_view().contains_key(k2) by {
            let k1 = choose|k1: u64| #[trigger]
                self.assoc().contains_key(k1) && self.assoc()[k1] == k2;
            assert(self.buckets@.contains_key(k2));
        }
    }

    /// Law: removing an absent key, by either key space, changes nothing.
    /// A primary key that owns no value has nothing to remove; a secondary
    /// key with no bucket groups no keys, so its cascade is empty.
    pub proof fn lemma_remove_absent(&self, k1: u64, k2: u64)
        requires
            self.wf(),
        ensures
            !self.entries().contains_key(k1) ==> self.entries().remove(k1) == self.entries()
                && self.assoc().remove(k1) == self.assoc(),
            !self.has_k2(k2) ==> self.entries().remove_keys(self.bucket_of(k2)) == self.entries()
                && self.assoc().remove_keys(self.bucket_of(k2)) == self.assoc(),
    {
        if !self.entries().contains_key(k1) {
            assert(self.entries().remove(k1) =~= self.entries());
            assert(self.assoc().remove(k1) =~= self.assoc());
        }
        if !self.has_k2(k2) {
            assert(self.bucket_of(k2) =~= Set::<u64>::empty());
            assert(self.entries().remove_keys(self.bucket_of(k2)) =~= self.entries());
            assert(self.assoc().remove_keys(self.bucket_of(k2)) =~= self.assoc());
        }
    }

    /// Law: the cardinality follows the primary store alone. Storing under
    /// a primary key grows the count by one exactly when the key is new,
    /// and removing one shrinks it by one exactly when the key is present,
    /// however the secondary buckets are arranged.
    pub proof fn lemma_cardinality_step(m: Map<u64, V>, k1: u64, v: V)
        requires
            m.dom().finite(),
        ensures
            m.insert(k1, v).dom().len() == m.dom().len() + (if m.contains_key(k1) {
                0int
            } else {
                1int
            }),
            m.remove(k1).dom().len() == m.dom().len() - (if m.contains_key(k1) {
                1int
            } else {
                0int
            }),
    {
        broadcast use vstd::set::group_set_axioms;

        assert(m.insert(k1, v).dom() =~= m.dom().insert(k1));
        assert(m.remove(k1).dom() =~= m.dom().remove(k1));
    }
}

impl<V> Default for DualHashMap<V> {
    /// The same empty map as `new`.
    fn default() -> (m: Self)
        ensures
            m.wf(),
            m.entries() == Map::<u64, V>::empty(),
            m.assoc() == Map::<u64, u64>::empty(),
    {
        Self::new()
    }
}

} // verus!
