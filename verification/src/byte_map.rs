//! A map from byte strings to values that keeps its keys in lexicographic
//! order, so that walking it visits the keys as an ordered key-value tree
//! would.

use vstd::prelude::*;
use vstd::slice::slice_to_vec;
use crate::byte_order::{compare_bytes, lemma_lex_irreflexive, lemma_lex_transitive, lex_less, strictly_ascending, ByteOrder};

verus! {

/// An ordered map keyed by byte strings.
///
/// Its view is the mathematical map; `keys()` is the same domain as a
/// strictly ascending sequence, which fixes the order of a walk.
pub struct ByteMap<V> {
    entries: Vec<(Vec<u8>, V)>,
}

impl<V> View for ByteMap<V> {
    type V = Map<Seq<u8>, V>;

    closed spec fn view(&self) -> Map<Seq<u8>, V> {
        Map::new(
            |k: Seq<u8>| self.keys().contains(k),
            |k: Seq<u8>| self.entries[self.keys().index_of(k)].1,
        )
    }
}

impl<V> ByteMap<V> {
    #[verifier::type_invariant]
    spec fn ordered(&self) -> bool {
        strictly_ascending(self.keys())
    }

    /// The keys, in the order in which a walk visits them.
    pub closed spec fn keys(&self) -> Seq<Seq<u8>> {
        Seq::new(self.entries.len() as nat, |i: int| self.entries[i].0@)
    }

    proof fn lemma_index_of_key(&self, i: int)
        requires
            strictly_ascending(self.keys()),
            0 <= i < self.keys().len(),
        ensures
            self.keys().index_of(self.keys()[i]) == i,
            self@.contains_key(self.keys()[i]),
            self@[self.keys()[i]] == self.entries[i].1,
    {
        let keys = self.keys();
        let j = keys.index_of(keys[i]);
        assert(keys.contains(keys[i]));
        if j < i {
            assert(lex_less(keys[j], keys[i]));
            lemma_lex_irreflexive(keys[i]);
        } else if i < j {
            assert(lex_less(keys[i], keys[j]));
            lemma_lex_irreflexive(keys[i]);
        }
    }

    /// An empty map.
    pub fn new() -> (m: Self)
        ensures
            m@ == Map::<Seq<u8>, V>::empty(),
            m.keys() == Seq::<Seq<u8>>::empty(),
    {
        let m = ByteMap { entries: Vec::new() };
        assert(m.keys() =~= Seq::<Seq<u8>>::empty());
        assert(m@ =~= Map::<Seq<u8>, V>::empty());
        m
    }

    /// The number of keys.
    pub fn len(&self) -> (n: usize)
        ensures
            n == self.keys().len(),
            strictly_ascending(self.keys()),
            forall|k: Seq<u8>| self@.contains_key(k) <==> self.keys().contains(k),
    {
        proof {
            use_type_invariant(self);
        }
        self.entries.len()
    }

    /// The key at position `i` of the walk.
    pub fn key_at(&self, i: usize) -> (k: &Vec<u8>)
        requires
            i < self.keys().len(),
        ensures
            k@ == self.keys()[i as int],
    {
        &self.entries[i].0
    }

    /// The value stored under the key at position `i` of the walk.
    pub fn value_at(&self, i: usize) -> (v: &V)
        requires
            i < self.keys().len(),
        ensures
            self@.contains_key(self.keys()[i as int]),
            *v == self@[self.keys()[i as int]],
    {
        proof {
            use_type_invariant(self);
            self.lemma_index_of_key(i as int);
        }
        &self.entries[i].1
    }

    /// All keys, in the order of the walk.
    pub fn key_list(&self) -> (list: Vec<Vec<u8>>)
        ensures
            list@.len() == self.keys().len(),
            forall|i: int| 0 <= i < list@.len() ==> (#[trigger] list@[i])@ == self.keys()[i],
            strictly_ascending(self.keys()),
            forall|k: Seq<u8>| self@.contains_key(k) <==> self.keys().contains(k),
    {
        proof {
            use_type_invariant(self);
        }
        let mut list: Vec<Vec<u8>> = Vec::new();
        let mut i: usize = 0;
        while i < self.entries.len()
            invariant
                i <= self.entries.len(),
                list@.len() == i,
                forall|j: int| 0 <= j < i ==> (#[trigger] list@[j])@ == self.keys()[j],
            decreases self.entries.len() - i,
        {
            list.push(self.entries[i].0.clone());
            i += 1;
        }
        list
    }

    /// Where `key` stands, or where it would be inserted.
    fn locate(&self, key: &[u8]) -> (r: (usize, bool))
        ensures
            r.0 <= self.keys().len(),
            r.1 ==> r.0 < self.keys().len() && self.keys()[r.0 as int] == key@,
            !r.1 ==> !self.keys().contains(key@),
            forall|j: int| 0 <= j < r.0 ==> lex_less(#[trigger] self.keys()[j], key@),
            forall|j: int| r.0 <= j < self.keys().len() && !(r.1 && j == r.0) ==> lex_less(key@, #[trigger] self.keys()[j]),
    {
        proof {
            use_type_invariant(self);
        }
        let ghost keys = self.keys();
        let mut i: usize = 0;
        while i < self.entries.len()
            invariant
                keys == self.keys(),
                strictly_ascending(keys),
                i <= self.entries.len(),
                self.entries.len() == keys.len(),
                forall|j: int| 0 <= j < i ==> lex_less(#[trigger] keys[j], key@),
            decreases self.entries.len() - i,
        {
            let order = compare_bytes(self.entries[i].0.as_slice(), key);
            assert(self.entries[i as int].0@ == keys[i as int]);
            match order {
                ByteOrder::Less => {
                    i += 1;
                },
                ByteOrder::Equal => {
                    assert forall|j: int| i < j < keys.len() implies lex_less(key@, #[trigger] keys[j]) by {
                        assert(lex_less(keys[i as int], keys[j]));
                    }
                    return (i, true);
                },
                ByteOrder::Greater => {
                    assert forall|j: int| i <= j < keys.len() implies lex_less(key@, #[trigger] keys[j]) by {
                        if i < j {
                            assert(lex_less(keys[i as int], keys[j]));
                            lemma_lex_transitive(key@, keys[i as int], keys[j]);
                        }
                    }
                    assert forall|j: int| 0 <= j < keys.len() implies keys[j] != key@ by {
                        lemma_lex_irreflexive(key@);
                    }
                    return (i, false);
                },
            }
        }
        assert forall|j: int| 0 <= j < keys.len() implies keys[j] != key@ by {
            lemma_lex_irreflexive(key@);
        }
        (i, false)
    }

    /// Whether a value is stored under `key`.
    pub fn contains_key(&self, key: &[u8]) -> (b: bool)
        ensures
            b == self@.contains_key(key@),
    {
        let (_, found) = self.locate(key);
        found
    }

    /// The value stored under `key`, if any.
    pub fn get(&self, key: &[u8]) -> (r: Option<&V>)
        ensures
            match r {
                Some(v) => self@.contains_key(key@) && *v == self@[key@],
                None => !self@.contains_key(key@),
            },
    {
        let (i, found) = self.locate(key);
        if found {
            proof {
                use_type_invariant(self);
                self.lemma_index_of_key(i as int);
            }
            Some(&self.entries[i].1)
        } else {
            None
        }
    }

    /// Stores `value` under `key`, replacing what was stored there.
    pub fn insert(&mut self, key: &[u8], value: V)
        ensures
            final(self)@ == old(self)@.insert(key@, value),
    {
        proof {
            use_type_invariant(&*self);
        }
        let (i, found) = self.locate(key);
        let ghost before = *self;
        let mut entries: Vec<(Vec<u8>, V)> = Vec::new();
        core::mem::swap(&mut self.entries, &mut entries);
        if found {
            let (k, _) = entries.remove(i);
            entries.insert(i, (k, value));
            let ghost keys = Seq::new(entries.len() as nat, |j: int| entries[j].0@);
            proof {
                assert(keys =~= before.keys());
            }
            core::mem::swap(&mut self.entries, &mut entries);
            proof {
                assert(self.keys() =~= keys);
                assert forall|k: Seq<u8>| self@.contains_key(k) implies #[trigger] self@[k] == before@.insert(key@, value)[k] by {
                    let j = keys.index_of(k);
                    self.lemma_index_of_key(j);
                    before.lemma_index_of_key(j);
                    self.lemma_index_of_key(i as int);
                }
                assert(self@ =~= before@.insert(key@, value));
            }
        } else {
            entries.insert(i, (slice_to_vec(key), value));
            let ghost keys = Seq::new(entries.len() as nat, |j: int| entries[j].0@);
            proof {
                assert(keys =~= before.keys().insert(i as int, key@));
                assert forall|a: int, b: int| 0 <= a < b < keys.len() implies lex_less(#[trigger] keys[a], #[trigger] keys[b]) by {
                    if a < i && b > i {
                        assert(keys[a] == before.keys()[a]);
                        assert(keys[b] == before.keys()[b - 1]);
                    } else if a < i && b < i {
                        assert(keys[a] == before.keys()[a]);
                        assert(keys[b] == before.keys()[b]);
                    } else if a > i {
                        assert(keys[a] == before.keys()[a - 1]);
                        assert(keys[b] == before.keys()[b - 1]);
                    } else if a == i {
                        assert(keys[b] == before.keys()[b - 1]);
                    } else {
                        assert(keys[a] == before.keys()[a]);
                    }
                }
            }
            core::mem::swap(&mut self.entries, &mut entries);
            proof {
                assert(self.keys() =~= keys);
                assert forall|k: Seq<u8>| self@.contains_key(k) <==> before@.insert(key@, value).contains_key(k) by {
                    if before.keys().contains(k) {
                        let j = before.keys().index_of(k);
                        assert(keys[if j < i { j } else { j + 1 }] == k);
                    }
                    assert(keys[i as int] == key@);
                    if keys.contains(k) && k != key@ {
                        let j = keys.index_of(k);
                        assert(before.keys()[if j < i { j } else { j - 1 }] == k);
                    }
                }
                assert forall|k: Seq<u8>| self@.contains_key(k) implies #[trigger] self@[k] == before@.insert(key@, value)[k] by {
                    let j = keys.index_of(k);
                    self.lemma_index_of_key(j);
                    if j != i {
                        let j0 = if j < i { j } else { j - 1 };
                        assert(before.keys()[j0] == k);
                        before.lemma_index_of_key(j0);
                    }
                }
                assert(self@ =~= before@.insert(key@, value));
            }
        }
    }

    /// Takes out what is stored under `key`.
    pub fn remove(&mut self, key: &[u8]) -> (r: Option<V>)
        ensures
            final(self)@ == old(self)@.remove(key@),
            match r {
                Some(v) => old(self)@.contains_key(key@) && v == old(self)@[key@],
                None => !old(self)@.contains_key(key@),
            },
    {
        proof {
            use_type_invariant(&*self);
        }
        let (i, found) = self.locate(key);
        let ghost before = *self;
        if found {
            proof {
                before.lemma_index_of_key(i as int);
            }
            let mut entries: Vec<(Vec<u8>, V)> = Vec::new();
            core::mem::swap(&mut self.entries, &mut entries);
            let (_, v) = entries.remove(i);
            let ghost keys = Seq::new(entries.len() as nat, |j: int| entries[j].0@);
            proof {
                assert(keys =~= before.keys().remove(i as int));
                assert forall|a: int, b: int| 0 <= a < b < keys.len() implies lex_less(#[trigger] keys[a], #[trigger] keys[b]) by {
                    let a0 = if a < i { a } else { a + 1 };
                    let b0 = if b < i { b } else { b + 1 };
                    assert(keys[a] == before.keys()[a0]);
                    assert(keys[b] == before.keys()[b0]);
                }
            }
            core::mem::swap(&mut self.entries, &mut entries);
            proof {
                assert(self.keys() =~= keys);
                assert forall|k: Seq<u8>| self@.contains_key(k) <==> before@.remove(key@).contains_key(k) by {
                    if before.keys().contains(k) && k != key@ {
                        let j = before.keys().index_of(k);
                        assert(keys[if j < i { j } else { j - 1 }] == k);
                    }
                    if keys.contains(k) {
                        let j = keys.index_of(k);
                        let j0 = if j < i { j } else { j + 1 };
                        assert(before.keys()[j0] == k);
                        if k == key@ {
                            assert(lex_less(before.keys()[j0], before.keys()[i as int]) || lex_less(before.keys()[i as int], before.keys()[j0]));
                            lemma_lex_irreflexive(k);
                        }
                    }
                }
                assert forall|k: Seq<u8>| self@.contains_key(k) implies #[trigger] self@[k] == before@.remove(key@)[k] by {
                    let j = keys.index_of(k);
                    self.lemma_index_of_key(j);
                    let j0 = if j < i { j } else { j + 1 };
                    assert(before.keys()[j0] == k);
                    before.lemma_index_of_key(j0);
                }
                assert(self@ =~= before@.remove(key@));
            }
            Some(v)
        } else {
            None
        }
    }
}

} // verus!
