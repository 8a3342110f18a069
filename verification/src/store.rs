//! A small association table keyed by up to three identifiers.
//!
//! Contract state is keyed storage: per-account snapshots, per-market
//! factors, per-(market, batch, account) reward indexes. This table holds
//! such entries in a vector with unique keys; unused key components are
//! zero. Lookups are specified through `lookup`, and mutations state exactly
//! which key changes.

use vstd::prelude::*;

verus! {

/// One keyed entry.
#[derive(Clone, Copy)]
pub struct Entry<V> {
    pub k1: u64,
    pub k2: u64,
    pub k3: u64,
    pub val: V,
}

/// Keyed storage with unique `(k1, k2, k3)` keys.
pub struct Table<V> {
    pub entries: Vec<Entry<V>>,
}

/// Whether two entries carry the same key.
pub open spec fn same_key<V>(x: Entry<V>, y: Entry<V>) -> bool {
    x.k1 == y.k1 && x.k2 == y.k2 && x.k3 == y.k3
}

/// Whether an entry carries the given key.
pub open spec fn has_key<V>(x: Entry<V>, a: u64, b: u64, c: u64) -> bool {
    x.k1 == a && x.k2 == b && x.k3 == c
}

impl<V: Copy> Table<V> {
    /// Keys are unique.
    pub open spec fn wf(self) -> bool {
        forall|i: int, j: int|
            0 <= i < j < self.entries.len() ==> !same_key(
                #[trigger] self.entries[i],
                #[trigger] self.entries[j],
            )
    }

    /// Whether some entry has this key.
    pub open spec fn contains_key(self, a: u64, b: u64, c: u64) -> bool {
        exists|i: int| 0 <= i < self.entries.len() && has_key(#[trigger] self.entries[i], a, b, c)
    }

    /// The index of the entry with this key, when there is one.
    pub open spec fn index_of(self, a: u64, b: u64, c: u64) -> int {
        choose|i: int| 0 <= i < self.entries.len() && has_key(#[trigger] self.entries[i], a, b, c)
    }

    /// The value stored under this key.
    pub open spec fn lookup(self, a: u64, b: u64, c: u64) -> Option<V> {
        if self.contains_key(a, b, c) {
            Some(self.entries[self.index_of(a, b, c)].val)
        } else {
            None
        }
    }

    /// An entry with this key at index `i` decides the lookup.
    pub proof fn lemma_lookup_at(self, a: u64, b: u64, c: u64, i: int)
        requires
            self.wf(),
            0 <= i < self.entries.len(),
            has_key(self.entries[i], a, b, c),
        ensures
            self.lookup(a, b, c) == Some(self.entries[i].val),
            self.index_of(a, b, c) == i,
    {
        assert(self.contains_key(a, b, c));
        let j = self.index_of(a, b, c);
        assert(0 <= j < self.entries.len() && has_key(self.entries[j], a, b, c));
        if i < j {
            assert(!same_key(self.entries[i], self.entries[j]));
            assert(false);
        } else if j < i {
            assert(!same_key(self.entries[j], self.entries[i]));
            assert(false);
        }
    }

    /// Creates an empty table.
    pub fn new() -> (r: Table<V>)
        ensures
            r.wf(),
            r.entries@.len() == 0,
            forall|a: u64, b: u64, c: u64| #[trigger] r.lookup(a, b, c) is None,
    {
        let t = Table { entries: Vec::new() };
        proof {
            assert forall|a: u64, b: u64, c: u64| #[trigger] t.lookup(a, b, c) is None by {
                assert(!t.contains_key(a, b, c));
            }
        }
        t
    }

    /// The number of entries.
    pub fn len(&self) -> (r: usize)
        ensures
            r == self.entries@.len(),
    {
        self.entries.len()
    }

    /// The entry at a position, for iteration.
    pub fn at(&self, i: usize) -> (r: Entry<V>)
        requires
            i < self.entries@.len(),
        ensures
            r == self.entries@[i as int],
    {
        self.entries[i]
    }

    /// The position of the entry with this key, if any.
    fn position(&self, a: u64, b: u64, c: u64) -> (r: Option<usize>)
        ensures
            match r {
                Some(i) => i < self.entries@.len() && has_key(self.entries@[i as int], a, b, c),
                None => !self.contains_key(a, b, c),
            },
    {
        let mut i: usize = 0;
        while i < self.entries.len()
            invariant
                i <= self.entries@.len(),
                forall|j: int| 0 <= j < i ==> !has_key(#[trigger] self.entries@[j], a, b, c),
            decreases self.entries@.len() - i,
        {
            let e = &self.entries[i];
            if e.k1 == a && e.k2 == b && e.k3 == c {
                return Some(i);
            }
            i = i + 1;
        }
        None
    }

    /// The value stored under this key, if any.
    pub fn get(&self, a: u64, b: u64, c: u64) -> (r: Option<V>)
        requires
            self.wf(),
        ensures
            r == self.lookup(a, b, c),
    {
        match self.position(a, b, c) {
            Some(i) => {
                proof {
                    self.lemma_lookup_at(a, b, c, i as int);
                }
                Some(self.entries[i].val)
            },
            None => None,
        }
    }

    /// Stores a value under a key, replacing any previous value.
    pub fn set(&mut self, a: u64, b: u64, c: u64, v: V)
        requires
            old(self).wf(),
        ensures
            final(self).wf(),
            final(self).lookup(a, b, c) == Some(v),
            forall|x: u64, y: u64, z: u64|
                !(x == a && y == b && z == c) ==> #[trigger] final(self).lookup(x, y, z) == old(
                    self,
                ).lookup(x, y, z),
    {
        let ghost old_t = *self;
        let e = Entry { k1: a, k2: b, k3: c, val: v };
        match self.position(a, b, c) {
            Some(i) => {
                self.entries.set(i, e);
                proof {
                    assert(forall|p: int|
                        0 <= p < self.entries@.len() && p != i ==> #[trigger] self.entries@[p]
                            == old_t.entries@[p]);
                    assert(self.wf()) by {
                        assert forall|p: int, q: int| 0 <= p < q < self.entries.len() implies !same_key(
                            #[trigger] self.entries@[p],
                            #[trigger] self.entries@[q],
                        ) by {
                            assert(!same_key(old_t.entries@[p], old_t.entries@[q]));
                            assert(same_key(self.entries@[i as int], old_t.entries@[i as int]));
                        }
                    }
                    self.lemma_lookup_at(a, b, c, i as int);
                    assert forall|x: u64, y: u64, z: u64| !(x == a && y == b && z == c) implies #[trigger] self.lookup(
                        x,
                        y,
                        z,
                    ) == old_t.lookup(x, y, z) by {
                        lemma_unrelated_key(old_t, *self, i as int, x, y, z);
                    }
                }
            },
            None => {
                self.entries.push(e);
                proof {
                    let n = old_t.entries@.len() as int;
                    assert(forall|p: int|
                        0 <= p < n ==> #[trigger] self.entries@[p] == old_t.entries@[p]);
                    assert(self.wf()) by {
                        assert forall|p: int, q: int| 0 <= p < q < self.entries.len() implies !same_key(
                            #[trigger] self.entries@[p],
                            #[trigger] self.entries@[q],
                        ) by {
                            if q < n {
                                assert(!same_key(old_t.entries@[p], old_t.entries@[q]));
                            } else {
                                assert(!has_key(old_t.entries@[p], a, b, c));
                            }
                        }
                    }
                    self.lemma_lookup_at(a, b, c, n);
                    assert forall|x: u64, y: u64, z: u64| !(x == a && y == b && z == c) implies #[trigger] self.lookup(
                        x,
                        y,
                        z,
                    ) == old_t.lookup(x, y, z) by {
                        lemma_unrelated_key(old_t, *self, n, x, y, z);
                    }
                }
            },
        }
    }

    /// Removes the value under a key, if any.
    pub fn remove(&mut self, a: u64, b: u64, c: u64)
        requires
            old(self).wf(),
        ensures
            final(self).wf(),
            final(self).lookup(a, b, c) is None,
            forall|x: u64, y: u64, z: u64|
                !(x == a && y == b && z == c) ==> #[trigger] final(self).lookup(x, y, z) == old(
                    self,
                ).lookup(x, y, z),
    {
        let ghost old_t = *self;
        match self.position(a, b, c) {
            Some(i) => {
                self.entries.remove(i);
                proof {
                    let s = old_t.entries@;
                    assert(forall|p: int|
                        0 <= p < self.entries@.len() ==> #[trigger] self.entries@[p] == (if p < i {
                            s[p]
                        } else {
                            s[p + 1]
                        }));
                    assert(self.wf()) by {
                        assert forall|p: int, q: int| 0 <= p < q < self.entries.len() implies !same_key(
                            #[trigger] self.entries@[p],
                            #[trigger] self.entries@[q],
                        ) by {
                            let p0: int = if p < i {
                                p
                            } else {
                                p + 1
                            };
                            let q0: int = if q < i {
                                q
                            } else {
                                q + 1
                            };
                            assert(!same_key(s[p0], s[q0]));
                        }
                    }
                    assert(!self.contains_key(a, b, c)) by {
                        if self.contains_key(a, b, c) {
                            let j = self.index_of(a, b, c);
                            assert(has_key(self.entries@[j], a, b, c));
                            if j < i {
                                assert(!same_key(s[j], s[i as int]));
                            } else {
                                assert(!same_key(s[i as int], s[j + 1]));
                            }
                        }
                    }
                    assert forall|x: u64, y: u64, z: u64| !(x == a && y == b && z == c) implies #[trigger] self.lookup(
                        x,
                        y,
                        z,
                    ) == old_t.lookup(x, y, z) by {
                        lemma_unrelated_key_removed(old_t, *self, i as int, x, y, z);
                    }
                }
            },
            None => {},
        }
    }
}

/// A lookup of a key other than the written one is unchanged by an update
/// or a push at index `i`.
proof fn lemma_unrelated_key<V: Copy>(
    old_t: Table<V>,
    new_t: Table<V>,
    i: int,
    x: u64,
    y: u64,
    z: u64,
)
    requires
        old_t.wf(),
        new_t.wf(),
        0 <= i < new_t.entries.len(),
        old_t.entries.len() == new_t.entries.len() || old_t.entries.len() + 1
            == new_t.entries.len(),
        forall|j: int|
            0 <= j < old_t.entries.len() && j != i ==> #[trigger] new_t.entries[j]
                == old_t.entries[j],
        !has_key(new_t.entries[i], x, y, z),
        old_t.entries.len() == new_t.entries.len() ==> !has_key(old_t.entries[i], x, y, z),
        old_t.entries.len() + 1 == new_t.entries.len() ==> i == old_t.entries.len(),
    ensures
        new_t.lookup(x, y, z) == old_t.lookup(x, y, z),
{
    if old_t.contains_key(x, y, z) {
        let j = old_t.index_of(x, y, z);
        assert(0 <= j < old_t.entries.len() && has_key(old_t.entries[j], x, y, z));
        old_t.lemma_lookup_at(x, y, z, j);
        assert(j != i);
        new_t.lemma_lookup_at(x, y, z, j);
    } else {
        if new_t.contains_key(x, y, z) {
            let j = choose|p: int|
                0 <= p < new_t.entries.len() && has_key(#[trigger] new_t.entries[p], x, y, z);
            assert(0 <= j < new_t.entries.len() && has_key(new_t.entries[j], x, y, z));
            assert(j != i);
            assert(j < old_t.entries.len());
            assert(old_t.entries[j] == new_t.entries[j]);
            assert(old_t.contains_key(x, y, z));
        }
    }
}

/// A lookup of a key other than the removed one is unchanged by removing
/// the entry at index `i`.
proof fn lemma_unrelated_key_removed<V: Copy>(
    old_t: Table<V>,
    new_t: Table<V>,
    i: int,
    x: u64,
    y: u64,
    z: u64,
)
    requires
        old_t.wf(),
        new_t.wf(),
        0 <= i < old_t.entries.len(),
        new_t.entries@ == old_t.entries@.remove(i),
        !has_key(old_t.entries[i], x, y, z),
    ensures
        new_t.lookup(x, y, z) == old_t.lookup(x, y, z),
{
    let s = old_t.entries@;
    assert(forall|p: int|
        0 <= p < new_t.entries@.len() ==> #[trigger] new_t.entries@[p] == (if p < i {
            s[p]
        } else {
            s[p + 1]
        }));
    if old_t.contains_key(x, y, z) {
        let j = old_t.index_of(x, y, z);
        assert(0 <= j < s.len() && has_key(s[j], x, y, z));
        old_t.lemma_lookup_at(x, y, z, j);
        assert(j != i);
        if j < i {
            new_t.lemma_lookup_at(x, y, z, j);
        } else {
            assert(new_t.entries[j - 1] == s[j]);
            new_t.lemma_lookup_at(x, y, z, j - 1);
        }
    } else {
        if new_t.contains_key(x, y, z) {
            let j = choose|p: int|
                0 <= p < new_t.entries.len() && has_key(#[trigger] new_t.entries[p], x, y, z);
            assert(0 <= j < new_t.entries@.len() && has_key(new_t.entries@[j], x, y, z));
            if j < i {
                assert(s[j] == new_t.entries@[j]);
                assert(old_t.contains_key(x, y, z));
            } else {
                assert(s[j + 1] == new_t.entries@[j]);
                assert(old_t.contains_key(x, y, z));
            }
        }
    }
}

} // verus!
