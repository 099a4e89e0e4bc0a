//! A small dictionary keyed by text, kept in sorted key order.
//!
//! Calibrations and presets are both stored this way: few entries, looked up
//! by a name, listed alphabetically, and written back to the config file in a
//! stable order.

use vstd::prelude::*;
use crate::text::{
    lemma_text_lt_irreflexive, lemma_text_lt_transitive, lemma_text_lt_trichotomy, same_text,
    text_less, text_lt,
};
use vstd::string::StringExecFns;

verus! {

/// Entries sorted strictly by key, so every key occurs once.
#[verifier::reject_recursive_types(T)]
pub struct KeyedStore<T> {
    entries: Vec<(String, T)>,
}

impl<T> KeyedStore<T> {
    /// The keys, in stored order.
    pub closed spec fn key_seq(&self) -> Seq<Seq<char>> {
        Seq::new(self.entries@.len(), |i: int| self.entries@[i].0@)
    }

    /// The stored keys are strictly ascending.
    pub closed spec fn wf(&self) -> bool {
        forall|i: int, j: int|
            0 <= i < j < self.entries@.len() ==> text_lt(
                #[trigger] self.key_seq()[i],
                #[trigger] self.key_seq()[j],
            )
    }

    spec fn has_key(&self, k: Seq<char>) -> bool {
        exists|i: int| 0 <= i < self.entries@.len() && self.key_seq()[i] == k
    }

    spec fn index_of(&self, k: Seq<char>) -> int {
        choose|i: int| 0 <= i < self.entries@.len() && self.key_seq()[i] == k
    }

    /// What the store holds: each key with its value.
    pub closed spec fn contents(&self) -> Map<Seq<char>, T> {
        Map::new(|k: Seq<char>| self.has_key(k), |k: Seq<char>| self.entries@[self.index_of(k)].1)
    }

    /// The keys in the order `keys` lists them.
    pub closed spec fn sorted_keys(&self) -> Seq<Seq<char>> {
        self.key_seq()
    }

    /// The entry at position `i` is what the contents hold for its key.
    proof fn lemma_entry(&self, i: int)
        requires
            self.wf(),
            0 <= i < self.entries@.len(),
        ensures
            self.contents().contains_key(self.key_seq()[i]),
            self.contents()[self.key_seq()[i]] == self.entries@[i].1,
    {
        let k = self.key_seq()[i];
        assert(self.has_key(k));
        let j = self.index_of(k);
        if j != i {
            lemma_text_lt_irreflexive(k);
            if j < i {
                assert(text_lt(self.key_seq()[j], self.key_seq()[i]));
            } else {
                assert(text_lt(self.key_seq()[i], self.key_seq()[j]));
            }
        }
    }

    /// The contents equal `m` when both hold the same keys with the same values.
    proof fn lemma_contents_are(&self, m: Map<Seq<char>, T>)
        requires
            self.wf(),
            forall|i: int|
                0 <= i < self.entries@.len() ==> #[trigger] m.contains_key(self.key_seq()[i])
                    && m[self.key_seq()[i]] == self.entries@[i].1,
            forall|k: Seq<char>|
                #[trigger] m.contains_key(k) ==> exists|i: int|
                    0 <= i < self.entries@.len() && self.key_seq()[i] == k,
        ensures
            self.contents() == m,
    {
        assert forall|k: Seq<char>| #[trigger] self.contents().contains_key(k) implies m.contains_key(k)
            && self.contents()[k] == m[k] by {
            let i = self.index_of(k);
            self.lemma_entry(i);
            assert(m.contains_key(self.key_seq()[i]));
        }
        assert forall|k: Seq<char>| #[trigger] m.contains_key(k) implies self.contents().contains_key(
            k,
        ) by {
            let i = choose|i: int| 0 <= i < self.entries@.len() && self.key_seq()[i] == k;
            self.lemma_entry(i);
        }
        assert(self.contents() =~= m);
    }

    /// An empty store.
    pub fn new() -> (r: Self)
        ensures
            r.wf(),
            r.contents() == Map::<Seq<char>, T>::empty(),
            r.sorted_keys().len() == 0,
    {
        let r = KeyedStore { entries: Vec::new() };
        assert(r.contents() =~= Map::<Seq<char>, T>::empty());
        r
    }

    /// Where `key` is or would go: every key before `pos` sorts before it,
    /// none from `pos` on does, and `found` says whether `key` sits at `pos`.
    fn find(&self, key: &str) -> (r: (usize, bool))
        requires
            self.wf(),
        ensures
            r.0 <= self.entries@.len(),
            forall|i: int| 0 <= i < r.0 ==> text_lt(#[trigger] self.key_seq()[i], key@),
            forall|i: int|
                r.0 <= i < self.entries@.len() ==> !text_lt(#[trigger] self.key_seq()[i], key@),
            r.1 == (r.0 < self.entries@.len() && self.key_seq()[r.0 as int] == key@),
            r.1 == self.contents().contains_key(key@),
    {
        let n = self.entries.len();
        let mut p: usize = 0;
        while p < n && text_less(self.entries[p].0.as_str(), key)
            invariant
                p <= n,
                n == self.entries@.len(),
                forall|i: int| 0 <= i < p ==> text_lt(#[trigger] self.key_seq()[i], key@),
            decreases n - p,
        {
            p += 1;
        }
        proof {
            assert forall|i: int| p <= i < n implies !text_lt(#[trigger] self.key_seq()[i], key@) by {
                if i > p && text_lt(self.key_seq()[i], key@) {
                    assert(text_lt(self.key_seq()[p as int], self.key_seq()[i]));
                    lemma_text_lt_transitive(self.key_seq()[p as int], self.key_seq()[i], key@);
                }
            }
        }
        let found = p < n && same_text(self.entries[p].0.as_str(), key);
        proof {
            if found {
                self.lemma_entry(p as int);
            } else if self.has_key(key@) {
                let i = choose|i: int| 0 <= i < self.entries@.len() && self.key_seq()[i] == key@;
                lemma_text_lt_irreflexive(key@);
                if i > p {
                    assert(text_lt(self.key_seq()[p as int], self.key_seq()[i]));
                }
            }
        }
        (p, found)
    }

    /// The value stored under `key`, if any.
    pub fn get(&self, key: &str) -> (r: Option<&T>)
        requires
            self.wf(),
        ensures
            match r {
                Some(v) => self.contents().contains_key(key@) && *v == self.contents()[key@],
                None => !self.contents().contains_key(key@),
            },
    {
        let (p, found) = self.find(key);
        if found {
            proof {
                self.lemma_entry(p as int);
            }
            Some(&self.entries[p].1)
        } else {
            None
        }
    }

    /// Store `value` under `key`, replacing what was there.
    pub fn insert(&mut self, key: &str, value: T)
        requires
            old(self).wf(),
        ensures
            final(self).wf(),
            final(self).contents() == old(self).contents().insert(key@, value),
    {
        let ghost before = *self;
        let (p, found) = self.find(key);
        let k = String::from_str(key);
        if found {
            self.entries.set(p, (k, value));
            proof {
                assert(self.key_seq() =~= before.key_seq());
                assert forall|i: int| 0 <= i < before.entries@.len() && i != p implies before.key_seq()[i]
                    != key@ by {
                    lemma_text_lt_irreflexive(key@);
                    if i < p {
                        assert(text_lt(before.key_seq()[i], before.key_seq()[p as int]));
                    } else {
                        assert(text_lt(before.key_seq()[p as int], before.key_seq()[i]));
                    }
                }
                let m = before.contents().insert(key@, value);
                assert forall|i: int| 0 <= i < self.entries@.len() implies #[trigger] m.contains_key(
                    self.key_seq()[i],
                ) && m[self.key_seq()[i]] == self.entries@[i].1 by {
                    before.lemma_entry(i);
                }
                assert forall|k2: Seq<char>| #[trigger] m.contains_key(k2) implies exists|i: int|
                    0 <= i < self.entries@.len() && self.key_seq()[i] == k2 by {
                    if k2 != key@ {
                        let i = before.index_of(k2);
                        assert(self.key_seq()[i] == k2);
                    } else {
                        assert(self.key_seq()[p as int] == k2);
                    }
                }
                self.lemma_contents_are(m);
            }
        } else {
            self.entries.insert(p, (k, value));
            proof {
                assert(self.key_seq() =~= before.key_seq().insert(p as int, key@));
                assert forall|i: int, j: int|
                    0 <= i < j < self.entries@.len() implies text_lt(
                    #[trigger] self.key_seq()[i],
                    #[trigger] self.key_seq()[j],
                ) by {
                    if j == p {
                        assert(text_lt(before.key_seq()[i], key@));
                    } else if i == p {
                        let o = j - 1;
                        lemma_text_lt_trichotomy(before.key_seq()[p as int], key@);
                        if o > p {
                            assert(text_lt(before.key_seq()[p as int], before.key_seq()[o]));
                            lemma_text_lt_transitive(
                                key@,
                                before.key_seq()[p as int],
                                before.key_seq()[o],
                            );
                        } else {
                            lemma_text_lt_trichotomy(before.key_seq()[o], key@);
                        }
                    } else {
                        let oi = if i < p { i } else { i - 1 };
                        let oj = if j < p { j } else { j - 1 };
                        assert(text_lt(before.key_seq()[oi], before.key_seq()[oj]));
                    }
                }
                let m = before.contents().insert(key@, value);
                assert forall|i: int| 0 <= i < self.entries@.len() implies #[trigger] m.contains_key(
                    self.key_seq()[i],
                ) && m[self.key_seq()[i]] == self.entries@[i].1 by {
                    if i < p {
                        before.lemma_entry(i);
                        lemma_text_lt_irreflexive(key@);
                    } else if i > p {
                        before.lemma_entry(i - 1);
                        if before.key_seq()[i - 1] == key@ {
                            lemma_text_lt_irreflexive(key@);
                        }
                    }
                }
                assert forall|k2: Seq<char>| #[trigger] m.contains_key(k2) implies exists|i: int|
                    0 <= i < self.entries@.len() && self.key_seq()[i] == k2 by {
                    if k2 != key@ {
                        let i = before.index_of(k2);
                        if i < p {
                            assert(self.key_seq()[i] == k2);
                        } else {
                            assert(self.key_seq()[i + 1] == k2);
                        }
                    } else {
                        assert(self.key_seq()[p as int] == k2);
                    }
                }
                self.lemma_contents_are(m);
            }
        }
    }

    /// Remove `key`; says whether it was there.
    pub fn remove(&mut self, key: &str) -> (r: bool)
        requires
            old(self).wf(),
        ensures
            final(self).wf(),
            r == old(self).contents().contains_key(key@),
            final(self).contents() == old(self).contents().remove(key@),
    {
        let ghost before = *self;
        let (p, found) = self.find(key);
        if !found {
            proof {
                assert(before.contents().remove(key@) =~= before.contents());
            }
            return false;
        }
        self.entries.remove(p);
        proof {
            assert(self.key_seq() =~= before.key_seq().remove(p as int));
            assert forall|i: int, j: int|
                0 <= i < j < self.entries@.len() implies text_lt(
                #[trigger] self.key_seq()[i],
                #[trigger] self.key_seq()[j],
            ) by {
                let oi = if i < p { i } else { i + 1 };
                let oj = if j < p { j } else { j + 1 };
                assert(text_lt(before.key_seq()[oi], before.key_seq()[oj]));
            }
            let m = before.contents().remove(key@);
            assert forall|i: int| 0 <= i < self.entries@.len() implies #[trigger] m.contains_key(
                self.key_seq()[i],
            ) && m[self.key_seq()[i]] == self.entries@[i].1 by {
                let o = if i < p { i } else { i + 1 };
                before.lemma_entry(o);
                lemma_text_lt_irreflexive(key@);
                if o < p {
                    assert(text_lt(before.key_seq()[o], before.key_seq()[p as int]));
                } else {
                    assert(text_lt(before.key_seq()[p as int], before.key_seq()[o]));
                }
            }
            assert forall|k2: Seq<char>| #[trigger] m.contains_key(k2) implies exists|i: int|
                0 <= i < self.entries@.len() && self.key_seq()[i] == k2 by {
                let o = before.index_of(k2);
                if o < p {
                    assert(self.key_seq()[o] == k2);
                } else {
                    assert(o != p);
                    assert(self.key_seq()[o - 1] == k2);
                }
            }
            self.lemma_contents_are(m);
        }
        true
    }

    /// How many keys are stored.
    pub fn len(&self) -> (r: usize)
        requires
            self.wf(),
        ensures
            r == self.contents().len(),
            self.contents().dom().finite(),
    {
        proof {
            self.lemma_contents_finite();
        }
        self.entries.len()
    }

    /// The contents of a store in order are finite, one key per entry.
    pub proof fn lemma_contents_finite(&self)
        requires
            self.wf(),
        ensures
            self.contents().dom().finite(),
            self.contents().len() == self.sorted_keys().len(),
    {
        let ks = self.key_seq();
        assert forall|i: int, j: int| 0 <= i < ks.len() && 0 <= j < ks.len() && i != j implies ks[i]
            != ks[j] by {
            if i < j {
                lemma_text_lt_irreflexive(ks[i]);
                assert(text_lt(ks[i], ks[j]));
            } else {
                lemma_text_lt_irreflexive(ks[j]);
                assert(text_lt(ks[j], ks[i]));
            }
        }
        assert(ks.no_duplicates());
        ks.unique_seq_to_set();
        assert(self.contents().dom() =~= ks.to_set());
    }

    /// Whether nothing is stored.
    pub fn is_empty(&self) -> (r: bool)
        requires
            self.wf(),
        ensures
            r == (self.contents().len() == 0),
    {
        self.len() == 0
    }

    /// The keys in ascending order.
    pub fn keys(&self) -> (r: Vec<String>)
        requires
            self.wf(),
        ensures
            r@.len() == self.sorted_keys().len(),
            forall|i: int| 0 <= i < r@.len() ==> #[trigger] r@[i]@ == self.sorted_keys()[i],
            forall|i: int, j: int|
                0 <= i < j < r@.len() ==> text_lt(#[trigger] r@[i]@, #[trigger] r@[j]@),
            forall|k: Seq<char>|
                self.contents().contains_key(k) <==> exists|i: int| 0 <= i < r@.len() && r@[i]@ == k,
    {
        let mut r: Vec<String> = Vec::new();
        let n = self.entries.len();
        for i in 0..n
            invariant
                n == self.entries@.len(),
                r@.len() == i,
                forall|j: int| 0 <= j < i ==> #[trigger] r@[j]@ == self.key_seq()[j],
        {
            r.push(self.entries[i].0.clone());
        }
        proof {
            assert forall|i: int, j: int| 0 <= i < j < r@.len() implies text_lt(
                #[trigger] r@[i]@,
                #[trigger] r@[j]@,
            ) by {
                assert(text_lt(self.key_seq()[i], self.key_seq()[j]));
            }
            assert forall|k: Seq<char>| self.contents().contains_key(k) implies exists|i: int|
                0 <= i < r@.len() && r@[i]@ == k by {
                let i = self.index_of(k);
                assert(r@[i]@ == k);
            }
            assert forall|k: Seq<char>| (exists|i: int| 0 <= i < r@.len() && r@[i]@ == k) implies self.contents().contains_key(k) by {
                let i = choose|i: int| 0 <= i < r@.len() && r@[i]@ == k;
                self.lemma_entry(i);
            }
        }
        r
    }
}

} // verus!
