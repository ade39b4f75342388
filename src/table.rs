use crate::keys::OrderedKey;
use std::cmp::Ordering;
use vstd::prelude::*;

verus! {

/// An append-only associative table kept sorted by key: each key appears
/// once, and walking the entries visits the keys in increasing order.
pub struct SortedTable<K: OrderedKey, V> {
    entries: Vec<(K, V)>,
    map: Ghost<Map<K::V, V>>,
}

impl<K: OrderedKey, V> View for SortedTable<K, V> {
    type V = Map<K::V, V>;

    closed spec fn view(&self) -> Map<K::V, V> {
        self.map@
    }
}

impl<K: OrderedKey, V> SortedTable<K, V> {
    /// The key of the `i`-th entry.
    pub closed spec fn key_at(self, i: int) -> K::V {
        self.entries@[i].0@
    }

    /// The value of the `i`-th entry.
    pub closed spec fn value_at(self, i: int) -> V {
        self.entries@[i].1
    }

    /// The number of entries.
    pub closed spec fn size(self) -> nat {
        self.entries@.len()
    }

    /// The entries in key order, as (key, value) pairs.
    pub open spec fn entries(self) -> Seq<(K::V, V)> {
        Seq::new(self.size(), |i: int| (self.key_at(i), self.value_at(i)))
    }

    pub closed spec fn wf(self) -> bool {
        &&& forall|i: int, j: int|
            0 <= i < j < self.entries@.len() ==> K::precedes(
                #[trigger] self.key_at(i),
                #[trigger] self.key_at(j),
            )
        &&& forall|i: int|
            0 <= i < self.entries@.len() ==> self.map@.contains_key(#[trigger] self.key_at(i))
                && self.map@[self.key_at(i)] == self.entries@[i].1
        &&& forall|k: K::V| #[trigger]
            self.map@.contains_key(k) ==> exists|i: int|
                0 <= i < self.entries@.len() && self.key_at(i) == k
    }

    /// The entries in key order agree with the table's map: each entry's key
    /// maps to its value, keys increase, and every key of the map has an entry.
    pub proof fn lemma_entries(self)
        requires
            self.wf(),
        ensures
            forall|i: int|
                0 <= i < self.size() ==> self@.contains_key(#[trigger] self.key_at(i))
                    && self@[self.key_at(i)] == self.value_at(i),
            forall|i: int, j: int|
                0 <= i < j < self.size() ==> K::precedes(
                    #[trigger] self.key_at(i),
                    #[trigger] self.key_at(j),
                ),
            forall|k: K::V| #[trigger]
                self@.contains_key(k) ==> exists|i: int| 0 <= i < self.size() && self.key_at(i) == k,
            self@.dom().finite(),
            self@.dom().len() == self.size(),
    {
        self.lemma_dom_is_keys();
    }

    proof fn lemma_dom_is_keys(self)
        requires
            self.wf(),
        ensures
            self@.dom() == self.entries@.map_values(|e: (K, V)| e.0@).to_set(),
            self@.dom().finite(),
            self@.dom().len() == self.size(),
    {
        let keys = self.entries@.map_values(|e: (K, V)| e.0@);
        assert forall|k: K::V| self@.dom().contains(k) <==> keys.to_set().contains(k) by {
            if self@.dom().contains(k) {
                let i = choose|i: int| 0 <= i < self.entries@.len() && self.key_at(i) == k;
                assert(keys[i] == k);
            }
            if keys.to_set().contains(k) {
                let i = choose|i: int| 0 <= i < keys.len() && keys[i] == k;
                assert(self.key_at(i) == k);
            }
        }
        assert(self@.dom() =~= keys.to_set());
        assert forall|i: int, j: int| 0 <= i < keys.len() && 0 <= j < keys.len() && i != j implies keys[i]
            != keys[j] by {
            if i < j {
                assert(K::precedes(self.key_at(i), self.key_at(j)));
                K::lemma_irreflexive(self.key_at(i));
            } else {
                assert(K::precedes(self.key_at(j), self.key_at(i)));
                K::lemma_irreflexive(self.key_at(j));
            }
        }
        assert(keys.no_duplicates());
        keys.unique_seq_to_set();
    }

    /// An empty table.
    pub fn new() -> (t: Self)
        ensures
            t.wf(),
            t@ == Map::<K::V, V>::empty(),
            t.size() == 0,
    {
        SortedTable { entries: Vec::new(), map: Ghost(Map::empty()) }
    }

    /// The number of entries, which is the number of keys of the map.
    pub fn len(&self) -> (n: usize)
        requires
            self.wf(),
        ensures
            n == self.size(),
            n == self@.dom().len(),
    {
        proof {
            self.lemma_dom_is_keys();
        }
        self.entries.len()
    }

    /// The `i`-th entry in key order.
    pub fn entry(&self, i: usize) -> (r: (&K, &V))
        requires
            self.wf(),
            i < self.size(),
        ensures
            r.0@ == self.key_at(i as int),
            *r.1 == self.value_at(i as int),
    {
        let e = &self.entries[i];
        (&e.0, &e.1)
    }

    /// Binary search: `Ok(i)` where entry `i` has the key, or `Err(p)` where
    /// `p` is the position at which the key would be inserted.
    fn locate(&self, k: &K) -> (r: Result<usize, usize>)
        requires
            self.wf(),
        ensures
            match r {
                Ok(i) => i < self.size() && self.key_at(i as int) == k@,
                Err(p) => p <= self.size() && (forall|j: int|
                    0 <= j < p ==> K::precedes(#[trigger] self.key_at(j), k@)) && (forall|j: int|
                    p <= j < self.size() ==> K::precedes(k@, #[trigger] self.key_at(j))),
            },
    {
        let mut lo: usize = 0;
        let mut hi: usize = self.entries.len();
        while lo < hi
            invariant
                self.wf(),
                lo <= hi <= self.size(),
                forall|j: int| 0 <= j < lo ==> K::precedes(#[trigger] self.key_at(j), k@),
                forall|j: int| hi <= j < self.size() ==> K::precedes(k@, #[trigger] self.key_at(j)),
            decreases hi - lo,
        {
            let mid = lo + (hi - lo) / 2;
            match self.entries[mid].0.compare(k) {
                Ordering::Equal => {
                    return Ok(mid);
                },
                Ordering::Less => {
                    proof {
                        assert forall|j: int| 0 <= j < mid + 1 implies K::precedes(
                            #[trigger] self.key_at(j),
                            k@,
                        ) by {
                            if j < mid {
                                assert(K::precedes(self.key_at(j), self.key_at(mid as int)));
                                K::lemma_transitive(self.key_at(j), self.key_at(mid as int), k@);
                            }
                        }
                    }
                    lo = mid + 1;
                },
                Ordering::Greater => {
                    proof {
                        assert forall|j: int| mid <= j < self.size() implies K::precedes(
                            k@,
                            #[trigger] self.key_at(j),
                        ) by {
                            if j > mid {
                                assert(K::precedes(self.key_at(mid as int), self.key_at(j)));
                                K::lemma_transitive(k@, self.key_at(mid as int), self.key_at(j));
                            }
                        }
                    }
                    hi = mid;
                },
            }
        }
        Err(lo)
    }

    /// The value stored under `k`, if any.
    pub fn get(&self, k: &K) -> (r: Option<&V>)
        requires
            self.wf(),
        ensures
            match r {
                Some(v) => self@.contains_key(k@) && *v == self@[k@],
                None => !self@.contains_key(k@),
            },
    {
        match self.locate(k) {
            Ok(i) => Some(&self.entries[i].1),
            Err(p) => {
                proof {
                    if self@.contains_key(k@) {
                        let i = choose|i: int| 0 <= i < self.size() && self.key_at(i) == k@;
                        K::lemma_irreflexive(k@);
                    }
                }
                None
            },
        }
    }

    /// Stores `v` under `k`, replacing a value already there.
    pub fn put(&mut self, k: K, v: V)
        requires
            old(self).wf(),
        ensures
            final(self).wf(),
            final(self)@ == old(self)@.insert(k@, v),
    {
        let ghost kv = k@;
        match self.locate(&k) {
            Ok(i) => {
                let ghost old_t = *self;
                self.entries.set(i, (k, v));
                proof {
                    self.map@ = self.map@.insert(kv, v);
                    assert forall|j: int| 0 <= j < self.size() implies #[trigger] self.key_at(j)
                        == old_t.key_at(j) by {}
                    assert forall|j: int| 0 <= j < self.size() && j != i implies old_t.key_at(j)
                        != kv by {
                        if j < i {
                            assert(K::precedes(old_t.key_at(j), old_t.key_at(i as int)));
                        } else {
                            assert(K::precedes(old_t.key_at(i as int), old_t.key_at(j)));
                        }
                        K::lemma_irreflexive(kv);
                    }
                    assert forall|key: K::V| #[trigger] self.map@.contains_key(key) implies exists|
                        j: int,
                    |
                        0 <= j < self.size() && self.key_at(j) == key by {
                        if key != kv {
                            assert(old_t.map@.contains_key(key));
                            let j = choose|j: int| 0 <= j < old_t.size() && old_t.key_at(j) == key;
                            assert(self.key_at(j) == key);
                        } else {
                            assert(self.key_at(i as int) == key);
                        }
                    }
                }
            },
            Err(p) => {
                let ghost old_t = *self;
                self.entries.insert(p, (k, v));
                proof {
                    self.map@ = self.map@.insert(kv, v);
                    assert forall|j: int| 0 <= j < self.size() implies #[trigger] self.key_at(j) == (
                    if j < p {
                        old_t.key_at(j)
                    } else if j == p {
                        kv
                    } else {
                        old_t.key_at(j - 1)
                    }) by {}
                    assert forall|a: int, b: int| 0 <= a < b < self.size() implies K::precedes(
                        #[trigger] self.key_at(a),
                        #[trigger] self.key_at(b),
                    ) by {
                        if a < p && b > p {
                            K::lemma_transitive(old_t.key_at(a), kv, old_t.key_at(b - 1));
                        } else if a < p && b < p {
                            assert(K::precedes(old_t.key_at(a), old_t.key_at(b)));
                        } else if a > p {
                            assert(K::precedes(old_t.key_at(a - 1), old_t.key_at(b - 1)));
                        }
                    }
                    assert forall|j: int| 0 <= j < self.size() implies self.map@.contains_key(
                        #[trigger] self.key_at(j),
                    ) && self.map@[self.key_at(j)] == self.entries@[j].1 by {
                        if j != p {
                            let oj = if j < p {
                                j
                            } else {
                                j - 1
                            };
                            assert(old_t.map@.contains_key(old_t.key_at(oj)));
                            if old_t.key_at(oj) == kv {
                                K::lemma_irreflexive(kv);
                            }
                        }
                    }
                    assert forall|key: K::V| #[trigger] self.map@.contains_key(key) implies exists|
                        i: int,
                    |
                        0 <= i < self.size() && self.key_at(i) == key by {
                        if key == kv {
                            assert(self.key_at(p as int) == kv);
                        } else {
                            assert(old_t.map@.contains_key(key));
                            let i = choose|i: int| 0 <= i < old_t.size() && old_t.key_at(i) == key;
                            if i < p {
                                assert(self.key_at(i) == key);
                            } else {
                                assert(self.key_at(i + 1) == key);
                            }
                        }
                    }
                }
            },
        }
    }
}

} // verus!
