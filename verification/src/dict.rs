//! A table from names to values, kept in the order in which the names were
//! first written. A name is looked up at its first entry, and written there.

use vstd::prelude::*;

verus! {

/// A table from names to values.
#[derive(Debug)]
pub struct Dict<V> {
    entries: Vec<(String, V)>,
}

/// Whether `i` is the first place at which `k` stands in `names`.
pub open spec fn first_at(names: Seq<Seq<char>>, k: Seq<char>, i: int) -> bool {
    &&& 0 <= i < names.len()
    &&& names[i] == k
    &&& forall|j: int| 0 <= j < i ==> names[j] != k
}

/// Where `k` first stands in `names`.
pub open spec fn first_of(names: Seq<Seq<char>>, k: Seq<char>) -> int {
    choose|i: int| first_at(names, k, i)
}

/// There is one first place at most.
pub proof fn lemma_first_of(names: Seq<Seq<char>>, k: Seq<char>, i: int)
    requires
        first_at(names, k, i),
    ensures
        first_of(names, k) == i,
{
    let c = first_of(names, k);
    assert(first_at(names, k, c));
    if c < i {
        assert(names[c] != k);
    } else if i < c {
        assert(names[i] != k);
    }
}

/// A name that stands somewhere has a first place, which is no later.
pub proof fn lemma_first_exists(names: Seq<Seq<char>>, k: Seq<char>, n: int)
    requires
        0 <= n < names.len(),
        names[n] == k,
    ensures
        first_at(names, k, first_of(names, k)),
        first_of(names, k) <= n,
    decreases n,
{
    if exists|j: int| 0 <= j < n && names[j] == k {
        let j = choose|j: int| 0 <= j < n && names[j] == k;
        lemma_first_exists(names, k, j);
    } else {
        assert(first_at(names, k, n));
        lemma_first_of(names, k, n);
    }
}

impl<V: View> Dict<V> {
    /// The names of the table, oldest first.
    pub closed spec fn names(&self) -> Seq<Seq<char>> {
        Seq::new(self.entries.len() as nat, |i: int| self.entries[i].0@)
    }

    /// The values of the table, in the order of `names`.
    pub closed spec fn values(&self) -> Seq<V::V> {
        Seq::new(self.entries.len() as nat, |i: int| self.entries[i].1@)
    }

    /// The table as a map from each name to its value.
    pub open spec fn map(&self) -> Map<Seq<char>, V::V> {
        Map::new(
            |k: Seq<char>| self.names().contains(k),
            |k: Seq<char>| self.values()[first_of(self.names(), k)],
        )
    }

    /// An empty table.
    pub fn new() -> (d: Self)
        ensures
            d.names() == Seq::<Seq<char>>::empty(),
            d.values() == Seq::<V::V>::empty(),
            d.map() == Map::<Seq<char>, V::V>::empty(),
    {
        let d = Dict { entries: Vec::new() };
        assert(d.names() =~= Seq::<Seq<char>>::empty());
        assert(d.values() =~= Seq::<V::V>::empty());
        assert(d.map() =~= Map::<Seq<char>, V::V>::empty());
        d
    }

    /// How many entries the table has.
    pub fn len(&self) -> (n: usize)
        ensures
            n == self.names().len(),
            n == self.values().len(),
    {
        self.entries.len()
    }

    /// The name of the entry at place `i`.
    pub fn name_at(&self, i: usize) -> (name: &String)
        requires
            i < self.names().len(),
        ensures
            name@ == self.names()[i as int],
    {
        &self.entries[i].0
    }

    /// The value of the entry at place `i`.
    pub fn value_at(&self, i: usize) -> (value: &V)
        requires
            i < self.names().len(),
        ensures
            value@ == self.values()[i as int],
    {
        &self.entries[i].1
    }

    /// Where the name first stands in the table.
    pub fn position(&self, key: &String) -> (r: Option<usize>)
        ensures
            r is Some <==> self.map().contains_key(key@),
            r is Some ==> first_at(self.names(), key@, r->0 as int),
            r is Some ==> self.map()[key@] == self.values()[r->0 as int],
    {
        let mut i: usize = 0;
        while i < self.entries.len()
            invariant
                i <= self.entries.len(),
                forall|j: int| 0 <= j < i ==> self.names()[j] != key@,
            decreases self.entries.len() - i,
        {
            if self.entries[i].0 == *key {
                proof {
                    assert(self.names()[i as int] == key@);
                    lemma_first_of(self.names(), key@, i as int);
                }
                return Some(i);
            }
            i += 1;
        }
        None
    }

    /// Whether the name stands in the table.
    pub fn contains_key(&self, key: &String) -> (r: bool)
        ensures
            r == self.map().contains_key(key@),
    {
        self.position(key).is_some()
    }

    /// The value of a name.
    pub fn get(&self, key: &String) -> (r: Option<&V>)
        ensures
            r is Some <==> self.map().contains_key(key@),
            r is Some ==> r->0@ == self.map()[key@],
    {
        match self.position(key) {
            Some(i) => Some(self.value_at(i)),
            None => None,
        }
    }

    /// Adds an entry behind the last. Where the name stands already, the new
    /// entry is never looked up.
    pub(crate) fn push(&mut self, key: String, value: V)
        ensures
            final(self).names() == old(self).names().push(key@),
            final(self).values() == old(self).values().push(value@),
    {
        self.entries.push((key, value));
        assert(self.names() =~= old(self).names().push(key@));
        assert(self.values() =~= old(self).values().push(value@));
    }

    /// Writes `value` under `key`: in place of the value that the name had, or
    /// as a new last entry.
    pub fn insert(&mut self, key: String, value: V)
        ensures
            final(self).map() == old(self).map().insert(key@, value@),
            old(self).map().contains_key(key@) ==> final(self).names() == old(self).names(),
            !old(self).map().contains_key(key@) ==> final(self).names() == old(self).names().push(
                key@,
            ),
    {
        let ghost before = *self;
        let ghost goal = before.map().insert(key@, value@);
        match self.position(&key) {
            Some(i) => {
                self.entries.set(i, (key, value));
                proof {
                    assert(self.names() =~= before.names());
                    assert(self.values() =~= before.values().update(i as int, value@));
                    assert forall|k: Seq<char>| #[trigger]
                        goal.contains_key(k) implies self.map()[k] == goal[k] by {
                        let n = before.names().index_of(k);
                        assert(before.names()[n] == k);
                        lemma_first_exists(before.names(), k, n);
                        if k != key@ {
                            assert(first_of(before.names(), k) != i);
                        } else {
                            lemma_first_of(before.names(), key@, i as int);
                        }
                    }
                    assert forall|k: Seq<char>| #[trigger]
                        self.map().contains_key(k) <==> goal.contains_key(k) by {
                        assert(before.map().contains_key(key@));
                    }
                    assert(self.map() =~= goal);
                }
            },
            None => {
                self.entries.push((key, value));
                proof {
                    let n = before.entries.len() as int;
                    assert(self.names() =~= before.names().push(key@));
                    assert(self.values() =~= before.values().push(value@));
                    assert(self.names()[n] == key@);
                    assert forall|k: Seq<char>| #[trigger] goal.contains_key(k) implies (
                    self.map().contains_key(k) && self.map()[k] == goal[k]) by {
                        if k == key@ {
                            assert(first_at(self.names(), k, n));
                            lemma_first_of(self.names(), k, n);
                        } else {
                            let j = before.names().index_of(k);
                            assert(before.names()[j] == k);
                            lemma_first_exists(before.names(), k, j);
                            let f = first_of(before.names(), k);
                            assert(first_at(self.names(), k, f)) by {
                                assert forall|x: int| 0 <= x < f implies self.names()[x]
                                    != k by {
                                    assert(before.names()[x] != k);
                                }
                            }
                            lemma_first_of(self.names(), k, f);
                        }
                    }
                    assert forall|k: Seq<char>| #[trigger]
                        self.map().contains_key(k) implies goal.contains_key(k) by {
                        let j = self.names().index_of(k);
                        assert(self.names()[j] == k);
                        if j < n {
                            assert(before.names()[j] == k);
                        }
                    }
                    assert(self.map() =~= goal);
                }
            },
        }
    }
}

} // verus!
