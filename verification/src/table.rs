//! A table from text keys to values, in the order in which keys were first set.
use vstd::prelude::*;

use crate::text;

verus! {

/// A table from text keys to values. Each key stands in it once.
#[derive(Debug)]
pub struct Table<T> {
    entries: Vec<(String, T)>,
}

/// Whether `key` stands in the entries at `i`.
spec fn stands<T>(entries: Seq<(String, T)>, key: Seq<char>, i: int) -> bool {
    0 <= i < entries.len() && entries[i].0@ == key
}

/// Where `key` stands in the entries.
spec fn place<T>(entries: Seq<(String, T)>, key: Seq<char>) -> int {
    choose|i: int| stands(entries, key, i)
}

/// Whether no key stands in the entries twice.
spec fn distinct<T>(entries: Seq<(String, T)>) -> bool {
    forall|i: int, j: int|
        0 <= i < j < entries.len() ==> (#[trigger] entries[i]).0@ != (#[trigger] entries[j]).0@
}

/// The map that the entries give.
spec fn map_of<T: View>(entries: Seq<(String, T)>) -> Map<Seq<char>, T::V> {
    Map::new(
        |key: Seq<char>| exists|i: int| stands(entries, key, i),
        |key: Seq<char>| entries[place(entries, key)].1@,
    )
}

/// The map holds what each entry says, and nothing else.
proof fn lemma_map_of<T: View>(entries: Seq<(String, T)>)
    requires
        distinct(entries),
    ensures
        forall|i: int|
            0 <= i < entries.len() ==> map_of(entries).dom().contains((#[trigger] entries[i]).0@)
                && map_of(entries)[entries[i].0@] == entries[i].1@,
        forall|key: Seq<char>| #[trigger]
            map_of(entries).dom().contains(key) ==> stands(entries, key, place(entries, key)),
{
    assert forall|i: int| 0 <= i < entries.len() implies map_of(entries).dom().contains(
        (#[trigger] entries[i]).0@,
    ) && map_of(entries)[entries[i].0@] == entries[i].1@ by {
        assert(stands(entries, entries[i].0@, i));
        let j = place(entries, entries[i].0@);
        assert(stands(entries, entries[i].0@, j));
        assert(entries[i].0@ == entries[j].0@);
    }
}

impl<T: View> View for Table<T> {
    type V = Map<Seq<char>, T::V>;

    closed spec fn view(&self) -> Map<Seq<char>, T::V> {
        map_of(self.entries@)
    }
}

impl<T> Table<T> {
    #[verifier::type_invariant]
    spec fn well_formed(self) -> bool {
        distinct(self.entries@)
    }

    /// The keys, in the order in which they were first set.
    pub closed spec fn keys(self) -> Seq<Seq<char>> {
        self.entries@.map_values(|entry: (String, T)| entry.0@)
    }
}

impl<T: View> Table<T> {
    /// The keys of the table are those of its map, each once.
    pub proof fn lemma_keys(&self)
        requires
            self.distinct_keys(),
        ensures
            self.keys().no_duplicates(),
            forall|key: Seq<char>| self.keys().contains(key) <==> #[trigger] self@.dom().contains(key),
    {
        lemma_map_of(self.entries@);
        assert forall|key: Seq<char>| self.keys().contains(key) <==> #[trigger] self@.dom().contains(
            key,
        ) by {
            if self.keys().contains(key) {
                let i = choose|i: int| 0 <= i < self.keys().len() && self.keys()[i] == key;
                assert(self.entries@[i].0@ == key);
            }
            if self@.dom().contains(key) {
                let i = place(self.entries@, key);
                assert(self.keys()[i] == key);
            }
        }
    }

    /// Whether no key stands in the table twice, as is the case in every table.
    pub closed spec fn distinct_keys(self) -> bool {
        distinct(self.entries@)
    }

    /// A table without entries.
    pub fn new() -> (r: Self)
        ensures
            r@ == Map::<Seq<char>, T::V>::empty(),
            r.keys() == Seq::<Seq<char>>::empty(),
            r.distinct_keys(),
    {
        let r = Table { entries: Vec::new() };
        assert(r@ =~= Map::<Seq<char>, T::V>::empty());
        assert(r.keys() =~= Seq::<Seq<char>>::empty());
        r
    }

    /// How many entries there are.
    pub fn len(&self) -> (r: usize)
        ensures
            r == self.keys().len(),
            self.distinct_keys(),
    {
        proof {
            use_type_invariant(self);
        }
        self.entries.len()
    }

    /// The `i`th key.
    pub fn key_at(&self, i: usize) -> (r: &str)
        requires
            i < self.keys().len(),
        ensures
            r@ == self.keys()[i as int],
            self@.dom().contains(r@),
    {
        proof {
            use_type_invariant(self);
            lemma_map_of(self.entries@);
        }
        self.entries[i].0.as_str()
    }

    /// The value of the `i`th key.
    pub fn value_at(&self, i: usize) -> (r: &T)
        requires
            i < self.keys().len(),
        ensures
            r@ == self@[self.keys()[i as int]],
    {
        proof {
            use_type_invariant(self);
            lemma_map_of(self.entries@);
        }
        &self.entries[i].1
    }

    /// Where `key` stands.
    fn find(&self, key: &str) -> (r: Option<usize>)
        ensures
            r matches Some(i) ==> stands(self.entries@, key@, i as int),
            r is None ==> !self@.dom().contains(key@),
    {
        let mut i: usize = 0;
        while i < self.entries.len()
            invariant
                i <= self.entries@.len(),
                forall|j: int| 0 <= j < i ==> !#[trigger] stands(self.entries@, key@, j),
            decreases self.entries.len() - i,
        {
            if text::same(self.entries[i].0.as_str(), key) {
                return Some(i);
            }
            i += 1;
        }
        None
    }

    /// The value of `key`.
    pub fn get(&self, key: &str) -> (r: Option<&T>)
        ensures
            r is Some <==> self@.dom().contains(key@),
            r matches Some(value) ==> value@ == self@[key@],
    {
        proof {
            use_type_invariant(self);
            lemma_map_of(self.entries@);
        }
        match self.find(key) {
            Some(i) => Some(&self.entries[i].1),
            None => None,
        }
    }

    /// Takes the entry of `key` out.
    pub fn take(&mut self, key: &str) -> (r: Option<T>)
        ensures
            r is Some <==> old(self)@.dom().contains(key@),
            r matches Some(value) ==> value@ == old(self)@[key@],
            final(self)@ == old(self)@.remove(key@),
    {
        proof {
            use_type_invariant(&*self);
        }
        let found = self.find(key);
        let ghost before = self.entries@;
        proof {
            lemma_map_of(before);
        }
        match found {
            Some(i) => {
                let mut entries: Vec<(String, T)> = Vec::new();
                std::mem::swap(&mut entries, &mut self.entries);
                let entry = entries.remove(i);
                assert forall|a: int, b: int| 0 <= a < b < entries@.len() implies (
                #[trigger] entries@[a]).0@ != (#[trigger] entries@[b]).0@ by {
                    let c = if a < i {
                        a
                    } else {
                        a + 1
                    };
                    let d = if b < i {
                        b
                    } else {
                        b + 1
                    };
                    assert(entries@[a] == before[c] && entries@[b] == before[d]);
                }
                proof {
                    lemma_map_of(entries@);
                    assert(map_of(entries@) =~= map_of(before).remove(key@)) by {
                        assert forall|k: Seq<char>| #[trigger]
                            map_of(entries@).dom().contains(k) <==> map_of(before).remove(
                                key@,
                            ).dom().contains(k) by {
                            if map_of(entries@).dom().contains(k) {
                                let a = place(entries@, k);
                                let c = if a < i {
                                    a
                                } else {
                                    a + 1
                                };
                                assert(entries@[a] == before[c]);
                                assert(stands(before, k, c));
                            }
                            if map_of(before).dom().contains(k) && k != key@ {
                                let c = place(before, k);
                                let a = if c < i {
                                    c
                                } else {
                                    c - 1
                                };
                                assert(entries@[a] == before[c]);
                                assert(stands(entries@, k, a));
                            }
                        }
                        assert forall|k: Seq<char>| #[trigger]
                            map_of(entries@).dom().contains(k) implies map_of(entries@)[k]
                            == map_of(before)[k] by {
                            let a = place(entries@, k);
                            let c = if a < i {
                                a
                            } else {
                                a + 1
                            };
                            assert(entries@[a] == before[c]);
                        }
                    }
                }
                self.entries = entries;
                Some(entry.1)
            },
            None => {
                assert(self@.remove(key@) =~= self@);
                None
            },
        }
    }

    /// Sets `key` to `value`. A key that was there keeps its place.
    pub fn insert(&mut self, key: String, value: T)
        ensures
            final(self)@ == old(self)@.insert(key@, value@),
            final(self).keys() == (if old(self)@.dom().contains(key@) {
                old(self).keys()
            } else {
                old(self).keys().push(key@)
            }),
            final(self).distinct_keys(),
    {
        proof {
            use_type_invariant(&*self);
        }
        let found = self.find(key.as_str());
        let ghost before = self.entries@;
        let ghost keys = self.keys();
        proof {
            lemma_map_of(before);
        }
        let ghost wanted = key@;
        let ghost set = value@;
        let mut entries: Vec<(String, T)> = Vec::new();
        std::mem::swap(&mut entries, &mut self.entries);
        match found {
            Some(i) => {
                entries.set(i, (key, value));
                assert(entries@.map_values(|entry: (String, T)| entry.0@) =~= keys);
                proof {
                    lemma_map_of(entries@);
                    assert(map_of(entries@) =~= map_of(before).insert(wanted, set)) by {
                        assert forall|k: Seq<char>| #[trigger]
                            map_of(entries@).dom().contains(k) <==> map_of(before).insert(
                                wanted,
                                set,
                            ).dom().contains(k) by {
                            if map_of(entries@).dom().contains(k) {
                                assert(stands(before, k, place(entries@, k)));
                            }
                            if map_of(before).dom().contains(k) {
                                assert(stands(entries@, k, place(before, k)));
                            }
                        }
                        assert forall|k: Seq<char>| #[trigger]
                            map_of(entries@).dom().contains(k) implies map_of(entries@)[k]
                            == map_of(before).insert(wanted, set)[k] by {
                            let a = place(entries@, k);
                            if k != wanted {
                                assert(entries@[a] == before[a]);
                            }
                        }
                    }
                }
            },
            None => {
                entries.push((key, value));
                assert(entries@.map_values(|entry: (String, T)| entry.0@) =~= keys.push(wanted));
                assert forall|a: int| 0 <= a < before.len() implies (#[trigger] before[a]).0@
                    != wanted by {
                    if before[a].0@ == wanted {
                        assert(stands(before, wanted, a));
                    }
                }
                proof {
                    lemma_map_of(entries@);
                    assert(map_of(entries@) =~= map_of(before).insert(wanted, set)) by {
                        assert forall|k: Seq<char>| #[trigger]
                            map_of(entries@).dom().contains(k) <==> map_of(before).insert(
                                wanted,
                                set,
                            ).dom().contains(k) by {
                            if map_of(entries@).dom().contains(k) {
                                let a = place(entries@, k);
                                if a < before.len() {
                                    assert(stands(before, k, a));
                                }
                            }
                            if map_of(before).dom().contains(k) {
                                assert(stands(entries@, k, place(before, k)));
                            }
                            assert(stands(entries@, wanted, before.len() as int));
                        }
                        assert forall|k: Seq<char>| #[trigger]
                            map_of(entries@).dom().contains(k) implies map_of(entries@)[k]
                            == map_of(before).insert(wanted, set)[k] by {
                            let a = place(entries@, k);
                            if a < before.len() {
                                assert(entries@[a] == before[a]);
                            }
                        }
                    }
                }
            },
        }
        self.entries = entries;
    }
}

} // verus!
