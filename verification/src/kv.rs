//! A key-value table backed by a vector of pairs with pairwise-distinct
//! keys. It gives the market's storage maps (id -> record, id -> id) plain
//! lookup semantics while exposing the underlying sequence of entries, so
//! that callers can also reason about sums over the stored values.

use vstd::prelude::*;

verus! {

/// Whether a sequence of pairs has pairwise-distinct keys.
pub open spec fn distinct_keys<V>(s: Seq<(u64, V)>) -> bool {
    forall|i: int, j: int| 0 <= i < j < s.len() ==> s[i].0 != s[j].0
}

/// The value stored under `k`, searching from the back of the sequence.
pub open spec fn seq_get<V>(s: Seq<(u64, V)>, k: u64) -> Option<V>
    decreases s.len(),
{
    if s.len() == 0 {
        None
    } else if s.last().0 == k {
        Some(s.last().1)
    } else {
        seq_get(s.drop_last(), k)
    }
}

/// A sequence without `k` among its keys stores nothing under `k`.
pub proof fn lemma_seq_get_absent<V>(s: Seq<(u64, V)>, k: u64)
    requires
        forall|i: int| 0 <= i < s.len() ==> s[i].0 != k,
    ensures
        seq_get(s, k) is None,
    decreases s.len(),
{
    if s.len() > 0 {
        lemma_seq_get_absent(s.drop_last(), k);
    }
}

/// With distinct keys, the entry at any index with key `k` is the one that
/// `seq_get` finds.
pub proof fn lemma_seq_get_present<V>(s: Seq<(u64, V)>, k: u64, i: int)
    requires
        distinct_keys(s),
        0 <= i < s.len(),
        s[i].0 == k,
    ensures
        seq_get(s, k) == Some(s[i].1),
    decreases s.len(),
{
    if i < s.len() - 1 {
        assert(distinct_keys(s.drop_last()));
        lemma_seq_get_present(s.drop_last(), k, i);
    }
}

/// A present key has an index holding its value.
pub proof fn lemma_seq_get_index<V>(s: Seq<(u64, V)>, k: u64) -> (i: int)
    requires
        seq_get(s, k) is Some,
    ensures
        0 <= i < s.len(),
        s[i].0 == k,
        Some(s[i].1) == seq_get(s, k),
    decreases s.len(),
{
    if s.last().0 == k {
        s.len() - 1
    } else {
        lemma_seq_get_index(s.drop_last(), k)
    }
}

/// How removing the entry at index `i` changes every lookup.
pub proof fn lemma_seq_get_remove<V>(s: Seq<(u64, V)>, i: int, k: u64)
    requires
        distinct_keys(s),
        0 <= i < s.len(),
    ensures
        seq_get(s.remove(i), k) == if s[i].0 == k {
            None::<V>
        } else {
            seq_get(s, k)
        },
    decreases s.len(),
{
    s.remove_ensures(i);
    if i == s.len() - 1 {
        assert(s.remove(i) =~= s.drop_last());
        if s[i].0 == k {
            lemma_seq_get_absent(s.drop_last(), k);
        }
    } else {
        assert(s.remove(i).last() == s.last());
        assert(s.remove(i).drop_last() =~= s.drop_last().remove(i));
        assert(distinct_keys(s.drop_last()));
        lemma_seq_get_remove(s.drop_last(), i, k);
    }
}

/// How overwriting the entry at index `i`, keeping its key, changes every
/// lookup.
pub proof fn lemma_seq_get_update<V>(s: Seq<(u64, V)>, i: int, p: (u64, V), k: u64)
    requires
        distinct_keys(s),
        0 <= i < s.len(),
        s[i].0 == p.0,
    ensures
        seq_get(s.update(i, p), k) == if p.0 == k {
            Some(p.1)
        } else {
            seq_get(s, k)
        },
    decreases s.len(),
{
    if i == s.len() - 1 {
        assert(s.update(i, p).last() == p);
        if p.0 != k {
            assert(s.update(i, p).drop_last() =~= s.drop_last());
        } else {
        }
    } else {
        assert(s.update(i, p).last() == s.last());
        assert(s.update(i, p).drop_last() =~= s.drop_last().update(i, p));
        assert(distinct_keys(s.drop_last()));
        lemma_seq_get_update(s.drop_last(), i, p, k);
    }
}

/// A key-value table with pairwise-distinct keys.
pub struct KvStore<V> {
    items: Vec<(u64, V)>,
}

impl<V> KvStore<V> {
    /// The stored entries, in insertion order.
    pub closed spec fn entries(&self) -> Seq<(u64, V)> {
        self.items@
    }

    /// Well-formedness: no key occurs twice.
    pub open spec fn wf(&self) -> bool {
        distinct_keys(self.entries())
    }

    /// The value stored under `k`, if any.
    pub open spec fn spec_get(&self, k: u64) -> Option<V> {
        seq_get(self.entries(), k)
    }

    /// An empty table.
    pub fn new() -> (r: Self)
        ensures
            r.wf(),
            r.entries() =~= Seq::<(u64, V)>::empty(),
    {
        KvStore { items: Vec::new() }
    }

    /// Look up the value stored under `k`.
    pub fn get(&self, k: u64) -> (r: Option<&V>)
        requires
            self.wf(),
        ensures
            match r {
                Some(v) => self.spec_get(k) == Some(*v),
                None => self.spec_get(k) is None,
            },
    {
        let n = self.items.len();
        let mut i: usize = 0;
        while i < n
            invariant
                n == self.entries().len(),
                i <= n,
                self.wf(),
                forall|j: int| 0 <= j < i ==> self.entries()[j].0 != k,
            decreases n - i,
        {
            if self.items[i].0 == k {
                proof {
                    lemma_seq_get_present(self.entries(), k, i as int);
                }
                return Some(&self.items[i].1);
            }
            i += 1;
        }
        proof {
            lemma_seq_get_absent(self.entries(), k);
        }
        None
    }

    /// Whether anything is stored under `k`.
    pub fn contains(&self, k: u64) -> (r: bool)
        requires
            self.wf(),
        ensures
            r == (self.spec_get(k) is Some),
    {
        self.get(k).is_some()
    }

    /// Store `v` under the fresh key `k`.
    pub fn put_new(&mut self, k: u64, v: V)
        requires
            old(self).wf(),
            old(self).spec_get(k) is None,
        ensures
            final(self).wf(),
            final(self).entries() == old(self).entries().push((k, v)),
            final(self).spec_get(k) == Some(v),
            forall|k2: u64| k2 != k ==> final(self).spec_get(k2) == old(self).spec_get(k2),
    {
        proof {
            assert forall|i: int| 0 <= i < self.entries().len() implies self.entries()[i].0 != k by {
                if self.entries()[i].0 == k {
                    lemma_seq_get_present(self.entries(), k, i);
                }
            }
        }
        self.items.push((k, v));
        proof {
            assert(self.entries().drop_last() =~= old(self).entries());
            assert forall|k2: u64| k2 != k implies self.spec_get(k2) == old(self).spec_get(k2) by {
                assert(seq_get(self.entries(), k2) == seq_get(self.entries().drop_last(), k2));
            }
        }
    }

    /// Overwrite the value stored under the existing key `k`.
    pub fn set(&mut self, k: u64, v: V)
        requires
            old(self).wf(),
            old(self).spec_get(k) is Some,
        ensures
            final(self).wf(),
            final(self).entries().len() == old(self).entries().len(),
            forall|i: int|
                0 <= i < old(self).entries().len() ==> (#[trigger] final(self).entries()[i]).0
                    == old(self).entries()[i].0,
            final(self).spec_get(k) == Some(v),
            forall|k2: u64| k2 != k ==> final(self).spec_get(k2) == old(self).spec_get(k2),
            exists|i: int|
                0 <= i < old(self).entries().len() && old(self).entries()[i].0 == k
                    && final(self).entries() == old(self).entries().update(i, (k, v)),
    {
        let n = self.items.len();
        let mut i: usize = 0;
        while i < n
            invariant
                n == self.entries().len(),
                i <= n,
                self.wf(),
                *self == *old(self),
                forall|j: int| 0 <= j < i ==> self.entries()[j].0 != k,
            decreases n - i,
        {
            if self.items[i].0 == k {
                self.items[i] = (k, v);
                proof {
                    let s0 = old(self).entries();
                    assert(self.entries() == s0.update(i as int, (k, v)));
                    assert forall|i2: int, j2: int|
                        0 <= i2 < j2 < self.entries().len() implies self.entries()[i2].0
                        != self.entries()[j2].0 by {
                        assert(s0[i2].0 == self.entries()[i2].0);
                        assert(s0[j2].0 == self.entries()[j2].0);
                    }
                    lemma_seq_get_update(s0, i as int, (k, v), k);
                    assert forall|k2: u64| k2 != k implies self.spec_get(k2) == old(
                        self,
                    ).spec_get(k2) by {
                        lemma_seq_get_update(s0, i as int, (k, v), k2);
                    }
                }
                return ;
            }
            i += 1;
        }
        proof {
            lemma_seq_get_absent(self.entries(), k);
        }
    }

    /// Remove and return the value stored under `k`, if any.
    pub fn remove(&mut self, k: u64) -> (r: Option<V>)
        requires
            old(self).wf(),
        ensures
            final(self).wf(),
            r == old(self).spec_get(k),
            final(self).spec_get(k) is None,
            forall|k2: u64| k2 != k ==> final(self).spec_get(k2) == old(self).spec_get(k2),
            match old(self).spec_get(k) {
                Some(_) => exists|i: int|
                    0 <= i < old(self).entries().len() && old(self).entries()[i].0 == k
                        && final(self).entries() == old(self).entries().remove(i),
                None => final(self).entries() == old(self).entries(),
            },
    {
        let n = self.items.len();
        let mut i: usize = 0;
        while i < n
            invariant
                n == self.entries().len(),
                i <= n,
                self.wf(),
                *self == *old(self),
                forall|j: int| 0 <= j < i ==> self.entries()[j].0 != k,
            decreases n - i,
        {
            if self.items[i].0 == k {
                proof {
                    lemma_seq_get_present(self.entries(), k, i as int);
                }
                let (_, v) = self.items.remove(i);
                proof {
                    let s0 = old(self).entries();
                    assert(self.entries() == s0.remove(i as int));
                    s0.remove_ensures(i as int);
                    assert forall|i2: int, j2: int|
                        0 <= i2 < j2 < self.entries().len() implies self.entries()[i2].0
                        != self.entries()[j2].0 by {
                        if j2 < i {
                            assert(s0[i2].0 != s0[j2].0);
                        } else if i2 < i {
                            assert(s0[i2].0 != s0[j2 + 1].0);
                        } else {
                            assert(s0[i2 + 1].0 != s0[j2 + 1].0);
                        }
                    }
                    lemma_seq_get_remove(s0, i as int, k);
                    assert forall|k2: u64| k2 != k implies self.spec_get(k2) == old(
                        self,
                    ).spec_get(k2) by {
                        lemma_seq_get_remove(s0, i as int, k2);
                    }
                }
                return Some(v);
            }
            i += 1;
        }
        proof {
            lemma_seq_get_absent(self.entries(), k);
        }
        None
    }
}

} // verus!
