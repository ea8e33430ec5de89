//! Tables keyed by values that hold text.

use vstd::prelude::*;

verus! {

/// What a table can be keyed by.
pub trait TableKey: Sized {
    /// The key as a mathematical value.
    type Key;

    spec fn key(&self) -> Self::Key;

    fn same(&self, other: &Self) -> (r: bool)
        ensures
            r == (self.key() == other.key()),
    ;

    fn duplicate(&self) -> (r: Self)
        ensures
            r.key() == self.key(),
    ;
}

/// A table with at most one value for each key.
#[verifier::reject_recursive_types(K)]
pub struct KeyedTable<K: TableKey, V> {
    rows: Vec<(K, V)>,
}

/// The row that holds `key`.
spec fn row_of<K: TableKey, V>(rows: Seq<(K, V)>, key: K::Key) -> int {
    choose|i: int| 0 <= i < rows.len() && (#[trigger] rows[i]).0.key() == key
}

impl<K: TableKey, V> View for KeyedTable<K, V> {
    type V = Map<K::Key, V>;

    closed spec fn view(&self) -> Map<K::Key, V> {
        Map::new(
            |key: K::Key|
                exists|i: int| 0 <= i < self.rows@.len() && (#[trigger] self.rows@[i]).0.key() == key,
            |key: K::Key| self.rows@[row_of(self.rows@, key)].1,
        )
    }
}

impl<K: TableKey, V> KeyedTable<K, V> {
    /// No key occurs in two rows.
    pub closed spec fn wf(&self) -> bool {
        forall|i: int, j: int|
            0 <= i < self.rows@.len() && 0 <= j < self.rows@.len() && (#[trigger] self.rows@[i]).0.key()
                == (#[trigger] self.rows@[j]).0.key() ==> i == j
    }

    pub fn new() -> (r: Self)
        ensures
            r.wf(),
            r@ == Map::<K::Key, V>::empty(),
    {
        let r = KeyedTable { rows: Vec::new() };
        assert(r@ =~= Map::<K::Key, V>::empty());
        r
    }

    proof fn lemma_row(&self, i: int)
        requires
            self.wf(),
            0 <= i < self.rows@.len(),
        ensures
            self@.contains_key(self.rows@[i].0.key()),
            self@[self.rows@[i].0.key()] == self.rows@[i].1,
    {
        let key = self.rows@[i].0.key();
        assert(0 <= i < self.rows@.len() && self.rows@[i].0.key() == key);
        let j = row_of(self.rows@, key);
        assert(self.rows@[j].0.key() == self.rows@[i].0.key());
    }

    fn find(&self, key: &K) -> (r: Option<usize>)
        ensures
            match r {
                Some(i) => i < self.rows@.len() && self.rows@[i as int].0.key() == key.key(),
                None => forall|i: int|
                    0 <= i < self.rows@.len() ==> (#[trigger] self.rows@[i]).0.key() != key.key(),
            },
    {
        let mut i: usize = 0;
        while i < self.rows.len()
            invariant
                i <= self.rows@.len(),
                forall|j: int| 0 <= j < i ==> (#[trigger] self.rows@[j]).0.key() != key.key(),
            decreases self.rows@.len() - i,
        {
            if self.rows[i].0.same(key) {
                return Some(i);
            }
            i += 1;
        }
        None
    }

    pub fn contains(&self, key: &K) -> (r: bool)
        requires
            self.wf(),
        ensures
            r == self@.contains_key(key.key()),
    {
        match self.find(key) {
            Some(i) => {
                proof {
                    self.lemma_row(i as int);
                }
                true
            },
            None => false,
        }
    }

    pub fn get(&self, key: &K) -> (r: Option<&V>)
        requires
            self.wf(),
        ensures
            match r {
                Some(v) => self@.contains_key(key.key()) && self@[key.key()] == *v,
                None => !self@.contains_key(key.key()),
            },
    {
        match self.find(key) {
            Some(i) => {
                proof {
                    self.lemma_row(i as int);
                }
                Some(&self.rows[i].1)
            },
            None => None,
        }
    }

    /// Takes the value of `key` out of the table.
    pub fn remove(&mut self, key: &K) -> (r: Option<V>)
        requires
            old(self).wf(),
        ensures
            final(self).wf(),
            final(self)@ == old(self)@.remove(key.key()),
            match r {
                Some(v) => old(self)@.contains_key(key.key()) && old(self)@[key.key()] == v,
                None => !old(self)@.contains_key(key.key()),
            },
    {
        match self.find(key) {
            Some(i) => {
                let ghost before = *self;
                let (_, value) = self.rows.remove(i);
                proof {
                    before.lemma_row(i as int);
                    let rows = before.rows@;
                    let after = self.rows@;
                    let wanted = before@.remove(key.key());
                    assert(forall|j: int|
                        0 <= j < after.len() ==> #[trigger] after[j] == rows[if j < i {
                            j
                        } else {
                            j + 1
                        }]);
                    assert(self.wf());
                    assert forall|k: K::Key|
                        self@.contains_key(k) == #[trigger] wanted.contains_key(k) by {
                        if self@.contains_key(k) {
                            let j = row_of(after, k);
                            before.lemma_row(
                                if j < i {
                                    j
                                } else {
                                    j + 1
                                },
                            );
                        }
                        if wanted.contains_key(k) {
                            let j = row_of(rows, k);
                            assert(j != i);
                            self.lemma_row(
                                if j < i {
                                    j
                                } else {
                                    j - 1
                                },
                            );
                        }
                    }
                    assert forall|k: K::Key| #[trigger] self@.contains_key(k) implies self@[k]
                        == wanted[k] by {
                        let j = row_of(after, k);
                        self.lemma_row(j);
                        before.lemma_row(
                            if j < i {
                                j
                            } else {
                                j + 1
                            },
                        );
                    }
                    assert(self@ =~= wanted);
                }
                Some(value)
            },
            None => {
                assert(self@ =~= self@.remove(key.key()));
                None
            },
        }
    }

    /// Sets the value of `key`.
    pub fn insert(&mut self, key: K, value: V)
        requires
            old(self).wf(),
        ensures
            final(self).wf(),
            final(self)@ == old(self)@.insert(key.key(), value),
    {
        self.remove(&key);
        let ghost before = *self;
        self.rows.push((key, value));
        proof {
            let rows = before.rows@;
            let after = self.rows@;
            let wanted = old(self)@.insert(key.key(), value);
            assert(forall|j: int| 0 <= j < rows.len() ==> #[trigger] after[j] == rows[j]);
            assert forall|j: int| 0 <= j < rows.len() implies (#[trigger] after[j]).0.key()
                != key.key() by {
                before.lemma_row(j);
            }
            assert(self.wf());
            self.lemma_row(rows.len() as int);
            assert forall|k: K::Key| #[trigger]
                self@.contains_key(k) == wanted.contains_key(k) by {
                if self@.contains_key(k) && k != key.key() {
                    before.lemma_row(row_of(after, k));
                }
                if before@.contains_key(k) {
                    self.lemma_row(row_of(rows, k));
                }
            }
            assert forall|k: K::Key| #[trigger] self@.contains_key(k) implies self@[k]
                == wanted[k] by {
                if k != key.key() {
                    let j = row_of(after, k);
                    self.lemma_row(j);
                    before.lemma_row(j);
                }
            }
            assert(self@ =~= wanted);
        }
    }
}

/// Whether a mark made at `inserted` is still younger than `ttl` at `now`.
pub open spec fn is_fresh(inserted: u64, now: u64, ttl: u64) -> bool {
    now <= inserted || now - inserted < ttl
}

/// The marks that are still younger than `ttl` at `now`.
pub open spec fn fresh<T>(marks: Map<T, u64>, now: u64, ttl: u64) -> Map<T, u64> {
    marks.restrict(
        Set::new(|key: T| marks.contains_key(key) && is_fresh(marks[key], now, ttl)),
    )
}

/// Whether a kept row is one of the first `i` rows, and fresh.
spec fn comes_from<K: TableKey>(
    kept: (K, u64),
    rows: Seq<(K, u64)>,
    i: int,
    now: u64,
    ttl: u64,
) -> bool {
    exists|o: int|
        0 <= o < i && kept.0.key() == (#[trigger] rows[o]).0.key() && kept.1 == rows[o].1
            && is_fresh(kept.1, now, ttl)
}

impl<K: TableKey> KeyedTable<K, u64> {
    /// Drops the marks that have reached the age `ttl` at `now`.
    pub fn prune(&mut self, now: u64, ttl: u64)
        requires
            old(self).wf(),
            ttl > 0,
        ensures
            final(self).wf(),
            final(self)@ == fresh(old(self)@, now, ttl),
    {
        let mut kept: Vec<(K, u64)> = Vec::new();
        let mut i: usize = 0;
        while i < self.rows.len()
            invariant
                *self == *old(self),
                self.wf(),
                i <= self.rows@.len(),
                ttl > 0,
                forall|j: int|
                    0 <= j < kept@.len() ==> comes_from(
                        #[trigger] kept@[j],
                        self.rows@,
                        i as int,
                        now,
                        ttl,
                    ),
                forall|o: int|
                    0 <= o < i && is_fresh((#[trigger] self.rows@[o]).1, now, ttl) ==> exists|
                        j: int,
                    |
                        0 <= j < kept@.len() && (#[trigger] kept@[j]).0.key()
                            == self.rows@[o].0.key(),
                forall|j: int, l: int|
                    0 <= j < kept@.len() && 0 <= l < kept@.len() && (#[trigger] kept@[j]).0.key()
                        == (#[trigger] kept@[l]).0.key() ==> j == l,
            decreases self.rows@.len() - i,
        {
            let inserted: u64 = self.rows[i].1;
            let age: u64 = now.saturating_sub(inserted);
            let ghost before = kept@;
            if age < ttl {
                kept.push((self.rows[i].0.duplicate(), inserted));
            }
            proof {
                let rows = self.rows@;
                assert forall|j: int| 0 <= j < before.len() implies comes_from(
                    before[j],
                    rows,
                    i + 1,
                    now,
                    ttl,
                ) by {
                    assert(comes_from(before[j], rows, i as int, now, ttl));
                }
                assert(forall|j: int|
                    0 <= j < before.len() ==> #[trigger] kept@[j] == before[j]);
                if age < ttl {
                    assert(rows[i as int].0.key() == kept@[before.len() as int].0.key());
                    assert(comes_from(kept@[before.len() as int], rows, i + 1, now, ttl));
                    assert forall|j: int| 0 <= j < before.len() implies (
                    #[trigger] before[j]).0.key() != rows[i as int].0.key() by {
                        let o = choose|o: int|
                            0 <= o < i && before[j].0.key() == (#[trigger] rows[o]).0.key()
                                && before[j].1 == rows[o].1 && is_fresh(before[j].1, now, ttl);
                        assert(comes_from(before[j], rows, i as int, now, ttl));
                        assert(rows[o].0.key() != rows[i as int].0.key());
                    }
                }
                assert forall|o: int|
                    0 <= o < i + 1 && is_fresh((#[trigger] rows[o]).1, now, ttl) implies exists|
                    j: int,
                |
                    0 <= j < kept@.len() && (#[trigger] kept@[j]).0.key() == rows[o].0.key() by {
                    if o < i {
                        let j = choose|j: int|
                            0 <= j < before.len() && (#[trigger] before[j]).0.key()
                                == rows[o].0.key();
                        assert(kept@[j] == before[j]);
                    } else {
                        assert(kept@[before.len() as int].0.key() == rows[o].0.key());
                    }
                }
            }
            i += 1;
        }
        let ghost before = *self;
        self.rows = kept;
        proof {
            let rows = before.rows@;
            let after = self.rows@;
            let wanted = fresh(before@, now, ttl);
            assert(self.wf());
            assert forall|j: int| 0 <= j < after.len() implies before@.contains_key(
                (#[trigger] after[j]).0.key(),
            ) && before@[after[j].0.key()] == after[j].1 && is_fresh(after[j].1, now, ttl) by {
                assert(comes_from(after[j], rows, rows.len() as int, now, ttl));
                let o = choose|o: int|
                    0 <= o < rows.len() && after[j].0.key() == (#[trigger] rows[o]).0.key()
                        && after[j].1 == rows[o].1 && is_fresh(after[j].1, now, ttl);
                before.lemma_row(o);
            }
            assert forall|k: K::Key| #[trigger]
                self@.contains_key(k) == wanted.contains_key(k) by {
                if self@.contains_key(k) {
                    let j = row_of(after, k);
                    assert(after[j].0.key() == k);
                }
                if wanted.contains_key(k) {
                    let o = row_of(rows, k);
                    before.lemma_row(o);
                    let j = choose|j: int|
                        0 <= j < after.len() && (#[trigger] after[j]).0.key() == rows[o].0.key();
                    self.lemma_row(j);
                }
            }
            assert forall|k: K::Key| #[trigger] self@.contains_key(k) implies self@[k]
                == wanted[k] by {
                let j = row_of(after, k);
                self.lemma_row(j);
                assert(after[j].0.key() == k);
            }
            assert(self@ =~= wanted);
        }
    }
}

/// A mark is kept until it has reached the age, whichever clock reading it was
/// made at, and the others stay with it.
pub proof fn marks_are_kept_until_their_age<T>(marks: Map<T, u64>, key: T, now: u64, ttl: u64)
    ensures
        fresh(marks, now, ttl).contains_key(key) <==> marks.contains_key(key) && (now
            <= marks[key] || now - marks[key] < ttl),
        fresh(marks, now, ttl).contains_key(key) ==> fresh(marks, now, ttl)[key] == marks[key],
{
}

} // verus!
