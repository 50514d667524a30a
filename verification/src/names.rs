//! Tables keyed by name. An entry is found by the first key that matches,
//! and a name is entered at most once by `insert`.

use vstd::prelude::*;
use vstd::string::*;

verus! {

/// A name with what is stored under it.
pub struct Entry<V> {
    pub key: String,
    pub value: V,
}

/// The first index at which `keys` holds `k`.
pub open spec fn position(keys: Seq<Seq<char>>, k: Seq<char>) -> Option<int>
    decreases keys.len(),
{
    if keys.len() == 0 {
        None
    } else if keys[0] == k {
        Some(0)
    } else {
        match position(keys.drop_first(), k) {
            Some(i) => Some(i + 1),
            None => None,
        }
    }
}

/// `position` gives an index that holds the key, with no earlier one; it
/// gives `None` exactly when no index holds the key.
pub proof fn lemma_position(keys: Seq<Seq<char>>, k: Seq<char>)
    ensures
        match position(keys, k) {
            Some(i) => 0 <= i < keys.len() && keys[i] == k && forall|j: int|
                0 <= j < i ==> keys[j] != k,
            None => forall|j: int| 0 <= j < keys.len() ==> keys[j] != k,
        },
    decreases keys.len(),
{
    if keys.len() > 0 && keys[0] != k {
        let rest = keys.drop_first();
        lemma_position(rest, k);
        match position(rest, k) {
            Some(i) => {
                assert forall|j: int| 0 <= j < i + 1 implies keys[j] != k by {
                    if j > 0 {
                        assert(rest[j - 1] == keys[j]);
                    }
                }
            },
            None => {
                assert forall|j: int| 0 <= j < keys.len() implies keys[j] != k by {
                    if j > 0 {
                        assert(rest[j - 1] == keys[j]);
                    }
                }
            },
        }
    }
}

/// An index that holds the key and has no earlier one is the key's
/// position; where no index holds the key, it has none.
pub proof fn lemma_position_is(keys: Seq<Seq<char>>, k: Seq<char>, at: Option<int>)
    requires
        match at {
            Some(i) => 0 <= i < keys.len() && keys[i] == k && forall|j: int|
                0 <= j < i ==> keys[j] != k,
            None => forall|j: int| 0 <= j < keys.len() ==> keys[j] != k,
        },
    ensures
        position(keys, k) == at,
{
    lemma_position(keys, k);
    match (position(keys, k), at) {
        (Some(p), Some(i)) => {
            if p < i {
                assert(keys[p] != k);
            } else if i < p {
                assert(keys[i] != k);
            }
        },
        (Some(p), None) => {
            assert(keys[p] != k);
        },
        (None, Some(i)) => {
            assert(keys[i] != k);
        },
        (None, None) => {},
    }
}

/// The position of a key after one more key was added at the end.
pub proof fn lemma_position_push(keys: Seq<Seq<char>>, added: Seq<char>, k: Seq<char>)
    ensures
        position(keys.push(added), k) == match position(keys, k) {
            Some(i) => Some(i),
            None => if added == k {
                Some(keys.len() as int)
            } else {
                None
            },
        },
{
    lemma_position(keys, k);
    let at = match position(keys, k) {
        Some(i) => Some(i),
        None => if added == k {
            Some(keys.len() as int)
        } else {
            None
        },
    };
    lemma_position_is(keys.push(added), k, at);
}

/// The position of a key after an entry with another key was taken out
/// at `i`: as before, one less where it lay after `i`.
pub proof fn lemma_position_remove(keys: Seq<Seq<char>>, i: int, k: Seq<char>)
    requires
        0 <= i < keys.len(),
        keys[i] != k,
    ensures
        position(keys.remove(i), k) == match position(keys, k) {
            Some(p) => Some(
                if p < i {
                    p
                } else {
                    p - 1
                },
            ),
            None => None,
        },
{
    lemma_position(keys, k);
    let at = match position(keys, k) {
        Some(p) => Some(
            if p < i {
                p
            } else {
                p - 1
            },
        ),
        None => None,
    };
    let rest = keys.remove(i);
    assert forall|j: int| 0 <= j < rest.len() implies rest[j] == keys[if j < i {
        j
    } else {
        j + 1
    }] by {}
    lemma_position_is(rest, k, at);
}

/// A list holds a name exactly where the name has a position in it.
pub proof fn lemma_has_name(names: Seq<Seq<char>>, k: Seq<char>)
    ensures
        has_name(names, k) <==> names.contains(k),
{
    lemma_position(names, k);
    if names.contains(k) {
        let i = choose|i: int| 0 <= i < names.len() && names[i] == k;
        assert(names[i] == k);
    }
}

/// Whether `names` holds `k`.
pub open spec fn has_name(names: Seq<Seq<char>>, k: Seq<char>) -> bool {
    position(names, k) is Some
}

/// The views of a list of names.
pub open spec fn names_view(names: Seq<String>) -> Seq<Seq<char>> {
    names.map_values(|s: String| s@)
}

/// The first index at which `names` holds `k`.
pub fn find_name(names: &Vec<String>, k: &str) -> (r: Option<usize>)
    ensures
        match r {
            Some(i) => position(names_view(names@), k@) == Some(i as int),
            None => position(names_view(names@), k@) is None,
        },
{
    let key = String::from_str(k);
    let mut i: usize = 0;
    while i < names.len()
        invariant
            i <= names.len(),
            key@ == k@,
            forall|j: int| 0 <= j < i ==> names_view(names@)[j] != k@,
        decreases names.len() - i,
    {
        if names[i] == key {
            proof {
                lemma_position_is(names_view(names@), k@, Some(i as int));
            }
            return Some(i);
        }
        i = i + 1;
    }
    proof {
        lemma_position_is(names_view(names@), k@, None);
    }
    None
}

/// Whether `names` holds `k`.
pub fn contains_name(names: &Vec<String>, k: &str) -> (r: bool)
    ensures
        r == has_name(names_view(names@), k@),
{
    find_name(names, k).is_some()
}

/// A table from names to values, in the order in which the names were
/// first entered.
pub struct NameMap<V> {
    pub entries: Vec<Entry<V>>,
}

impl<V> NameMap<V> {
    /// The keys, entry by entry.
    pub open spec fn keys(&self) -> Seq<Seq<char>> {
        self.entries@.map_values(|e: Entry<V>| e.key@)
    }

    /// The number of entries.
    pub open spec fn count(&self) -> nat {
        self.entries@.len()
    }

    /// Whether the table has an entry for `k`.
    pub open spec fn has(&self, k: Seq<char>) -> bool {
        position(self.keys(), k) is Some
    }

    /// What the table holds for `k`.
    pub open spec fn at(&self, k: Seq<char>) -> V
        recommends
            self.has(k),
    {
        self.entries@[position(self.keys(), k).unwrap()].value
    }

    /// What the table holds for `k`, if anything.
    pub open spec fn lookup(&self, k: Seq<char>) -> Option<V> {
        match position(self.keys(), k) {
            Some(i) => Some(self.entries@[i].value),
            None => None,
        }
    }

    /// The table as a map from names to values.
    pub open spec fn map(&self) -> Map<Seq<char>, V> {
        Map::new(|k: Seq<char>| self.has(k), |k: Seq<char>| self.at(k))
    }

    /// The empty table.
    pub fn new() -> (r: Self)
        ensures
            r.entries@.len() == 0,
            forall|k: Seq<char>| !r.has(k),
            r.map() == Map::<Seq<char>, V>::empty(),
    {
        let r = NameMap { entries: Vec::new() };
        assert(r.keys() =~= Seq::<Seq<char>>::empty());
        assert(r.map() =~= Map::<Seq<char>, V>::empty());
        r
    }

    /// The number of entries.
    pub fn len(&self) -> (n: usize)
        ensures
            n == self.count(),
    {
        self.entries.len()
    }

    /// The index of the entry for `k`.
    pub fn find(&self, k: &str) -> (r: Option<usize>)
        ensures
            match r {
                Some(i) => position(self.keys(), k@) == Some(i as int) && i < self.entries@.len(),
                None => position(self.keys(), k@) is None,
            },
    {
        let key = String::from_str(k);
        let mut i: usize = 0;
        while i < self.entries.len()
            invariant
                i <= self.entries.len(),
                key@ == k@,
                forall|j: int| 0 <= j < i ==> self.keys()[j] != k@,
            decreases self.entries.len() - i,
        {
            if self.entries[i].key == key {
                proof {
                    lemma_position_is(self.keys(), k@, Some(i as int));
                }
                return Some(i);
            }
            i = i + 1;
        }
        proof {
            lemma_position_is(self.keys(), k@, None);
        }
        None
    }

    /// Whether the table has an entry for `k`.
    pub fn contains_key(&self, k: &str) -> (r: bool)
        ensures
            r == self.has(k@),
    {
        self.find(k).is_some()
    }

    /// What the table holds for `k`, if anything.
    pub fn get(&self, k: &str) -> (r: Option<&V>)
        ensures
            match r {
                Some(v) => self.lookup(k@) == Some(*v),
                None => self.lookup(k@) is None,
            },
    {
        match self.find(k) {
            Some(i) => Some(&self.entries[i].value),
            None => None,
        }
    }

    /// Enters `value` under `key`, in place of what was there.
    pub fn insert(&mut self, key: String, value: V)
        ensures
            final(self).lookup(key@) == Some(value),
            forall|k: Seq<char>| k != key@ ==> final(self).lookup(k) == old(self).lookup(k),
            final(self).map() == old(self).map().insert(key@, value),
            final(self).entries@ == match position(old(self).keys(), key@) {
                Some(i) => old(self).entries@.update(i, Entry { key, value }),
                None => old(self).entries@.push(Entry { key, value }),
            },
    {
        let at = self.find(key.as_str());
        let ghost before = self.keys();
        let ghost shown = key@;
        let ghost before_map = self.map();
        proof {
            lemma_position(before, shown);
        }
        match at {
            Some(i) => {
                self.entries.set(i, Entry { key, value });
                proof {
                    assert(self.keys() =~= before);
                    assert forall|k: Seq<char>| k != shown implies self.lookup(k) == old(self).lookup(k) by {
                        lemma_position(before, k);
                    }
                }
            },
            None => {
                self.entries.push(Entry { key, value });
                proof {
                    assert(self.keys() =~= before.push(shown));
                    assert forall|k: Seq<char>| true implies position(self.keys(), k) == match position(
                        before,
                        k,
                    ) {
                        Some(i) => Some(i),
                        None => if shown == k {
                            Some(before.len() as int)
                        } else {
                            None
                        },
                    } by {
                        lemma_position_push(before, shown, k);
                    }
                    assert forall|k: Seq<char>| k != shown implies self.lookup(k) == old(self).lookup(k) by {
                        lemma_position(before, k);
                    }
                }
            },
        }
        proof {
            assert forall|k: Seq<char>| self.has(k) <==> (k == shown || old(self).has(k)) by {
                if k != shown {
                    assert(self.lookup(k) == old(self).lookup(k));
                }
            }
            assert forall|k: Seq<char>| self.has(k) implies #[trigger] self.at(k) == (if k == shown {
                value
            } else {
                old(self).at(k)
            }) by {
                if k != shown {
                    assert(self.lookup(k) == old(self).lookup(k));
                }
            }
            assert(self.map() =~= before_map.insert(shown, value));
        }
    }

    /// Takes out the entry for `k`, if there is one, and gives its value.
    pub fn remove(&mut self, k: &str) -> (r: Option<V>)
        ensures
            match position(old(self).keys(), k@) {
                Some(i) => r == Some(old(self).entries@[i].value) && final(self).entries@ == old(self).entries@.remove(i),
                None => r is None && final(self).entries@ == old(self).entries@,
            },
    {
        match self.find(k) {
            Some(i) => {
                let e = self.entries.remove(i);
                Some(e.value)
            },
            None => None,
        }
    }

    /// Takes out every entry for `k` and gives the value that the table
    /// held for it, if any. What the table holds for other names stays.
    pub fn remove_all(&mut self, k: &str) -> (r: Option<V>)
        ensures
            r == old(self).lookup(k@),
            final(self).map() == old(self).map().remove(k@),
    {
        let first = self.remove(k);
        proof {
            lemma_position(old(self).keys(), k@);
            assert forall|other: Seq<char>| other != k@ implies self.lookup(other) == old(self).lookup(other) by {
                match position(old(self).keys(), k@) {
                    Some(i) => {
                        assert(self.keys() =~= old(self).keys().remove(i));
                        lemma_position_remove(old(self).keys(), i, other);
                        lemma_position(old(self).keys(), other);
                    },
                    None => {},
                }
            }
        }
        loop
            invariant
                first == old(self).lookup(k@),
                forall|other: Seq<char>|
                    other != k@ ==> self.lookup(other) == old(self).lookup(other),
            decreases self.entries@.len(),
        {
            let ghost before = *self;
            match self.find(k) {
                Some(i) => {
                    let _ = self.entries.remove(i);
                    proof {
                        lemma_position(before.keys(), k@);
                        assert forall|other: Seq<char>| other != k@ implies self.lookup(other)
                            == before.lookup(other) by {
                            assert(self.keys() =~= before.keys().remove(i as int));
                            lemma_position_remove(before.keys(), i as int, other);
                            lemma_position(before.keys(), other);
                        }
                    }
                },
                None => {
                    proof {
                        assert forall|other: Seq<char>| self.has(other) <==> (other != k@ && old(self).has(other)) by {
                            if other != k@ {
                                assert(self.lookup(other) == old(self).lookup(other));
                            }
                        }
                        assert forall|other: Seq<char>| self.has(other) implies #[trigger] self.at(
                            other,
                        ) == old(self).at(other) by {
                            assert(self.lookup(other) == old(self).lookup(other));
                        }
                        assert(self.map() =~= old(self).map().remove(k@));
                    }
                    return first;
                },
            }
        }
    }

    /// Removes every entry.
    pub fn clear(&mut self)
        ensures
            final(self).entries@.len() == 0,
    {
        self.entries.clear();
    }
}

} // verus!
