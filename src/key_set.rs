use vstd::prelude::*;

use crate::text::{
    lemma_lex_asymmetric, lemma_lex_irreflexive, lemma_lex_total, lemma_lex_transitive, lex_lt,
    text_lt,
};

verus! {

/// Whether each key sorts strictly before the next one.
pub open spec fn strictly_sorted(keys: Seq<Seq<char>>) -> bool {
    forall|i: int, j: int| 0 <= i < j < keys.len() ==> lex_lt(#[trigger] keys[i], #[trigger] keys[j])
}

/// A set of text keys, held in ascending lexicographic order without repeats.
pub struct KeySet {
    items: Vec<String>,
}

impl KeySet {
    /// The keys in their stored order.
    pub closed spec fn keys(&self) -> Seq<Seq<char>> {
        self.items@.map_values(|s: String| s@)
    }

    pub closed spec fn wf(&self) -> bool {
        strictly_sorted(self.keys())
    }

    pub fn new() -> (r: KeySet)
        ensures
            r.wf(),
            r@ == Set::<Seq<char>>::empty(),
            r.keys().len() == 0,
    {
        let r = KeySet { items: Vec::new() };
        assert(r.keys().to_set() =~= Set::<Seq<char>>::empty());
        r
    }

    /// Adds `key`; a key already present leaves the set as it was.
    pub fn insert(&mut self, key: String)
        requires
            old(self).wf(),
        ensures
            final(self).wf(),
            final(self)@ == old(self)@.insert(key@),
    {
        let n = self.items.len();
        let mut k: usize = 0;
        while k < n && text_lt(self.items[k].as_str(), key.as_str())
            invariant
                n == self.items@.len(),
                k <= n,
                forall|i: int| 0 <= i < k ==> lex_lt(#[trigger] self.keys()[i], key@),
            decreases n - k,
        {
            assert(self.keys()[k as int] == self.items@[k as int]@);
            k = k + 1;
        }
        let ghost old_keys = self.keys();
        proof {
            assert forall|i: int| 0 <= i < old_keys.len() implies #[trigger] old_keys[i] == self.items@[i]@ by {}
        }
        if k < n && self.items[k] == key {
            assert(old_keys.to_set().insert(key@) =~= old_keys.to_set()) by {
                assert(old_keys[k as int] == key@);
            }
            return;
        }
        proof {
            if k < n {
                lemma_lex_total(old_keys[k as int], key@);
                assert(lex_lt(key@, old_keys[k as int]));
                assert forall|j: int| k <= j < n implies lex_lt(key@, #[trigger] old_keys[j]) by {
                    if j > k {
                        lemma_lex_transitive(key@, old_keys[k as int], old_keys[j]);
                    }
                }
            }
        }
        self.items.insert(k, key);
        proof {
            let nk = self.keys();
            assert(nk =~= old_keys.insert(k as int, key@));
            assert forall|i: int, j: int| 0 <= i < j < nk.len() implies lex_lt(
                #[trigger] nk[i],
                #[trigger] nk[j],
            ) by {
                if i < k && j == k {
                } else if i < k && j > k {
                    assert(nk[j] == old_keys[j - 1]);
                } else if i == k {
                    assert(nk[j] == old_keys[j - 1]);
                } else if i > k {
                    assert(nk[i] == old_keys[i - 1] && nk[j] == old_keys[j - 1]);
                }
            }
            assert forall|x: Seq<char>| nk.to_set().contains(x) <==> old_keys.to_set().insert(
                key@,
            ).contains(x) by {
                if nk.contains(x) {
                    let i = choose|i: int| 0 <= i < nk.len() && nk[i] == x;
                    if i < k {
                        assert(old_keys[i] == x);
                    } else if i > k {
                        assert(old_keys[i - 1] == x);
                    }
                }
                if old_keys.contains(x) {
                    let i = choose|i: int| 0 <= i < old_keys.len() && old_keys[i] == x;
                    if i < k {
                        assert(nk[i] == x);
                    } else {
                        assert(nk[i + 1] == x);
                    }
                }
                if x == key@ {
                    assert(nk[k as int] == x);
                }
            }
            assert(nk.to_set() =~= old_keys.to_set().insert(key@));
        }
    }

    /// Adds every key of `other`.
    pub fn union_with(&mut self, other: &KeySet)
        requires
            old(self).wf(),
            other.wf(),
        ensures
            final(self).wf(),
            final(self)@ == old(self)@.union(other@),
    {
        let ghost start = self@;
        let n = other.items.len();
        let mut i: usize = 0;
        while i < n
            invariant
                n == other.items@.len(),
                i <= n,
                self.wf(),
                self@ == start.union(other.keys().take(i as int).to_set()),
            decreases n - i,
        {
            proof {
                assert(other.keys().take(i + 1) =~= other.keys().take(i as int).push(
                    other.items@[i as int]@,
                ));
                other.keys().take(i as int).lemma_push_to_set_commute(other.items@[i as int]@);
            }
            self.insert(other.items[i].clone());
            assert(self@ =~= start.union(other.keys().take(i + 1).to_set()));
            i = i + 1;
        }
        assert(other.keys().take(n as int) =~= other.keys());
    }

    /// Whether `key` is in the set.
    pub fn contains(&self, key: &str) -> (r: bool)
        ensures
            r == self@.contains(key@),
    {
        let n = self.items.len();
        let mut i: usize = 0;
        while i < n
            invariant
                n == self.items@.len(),
                i <= n,
                forall|j: int| 0 <= j < i ==> #[trigger] self.keys()[j] != key@,
            decreases n - i,
        {
            let item = self.items[i].as_str();
            assert(self.keys()[i as int] == item@);
            if !text_lt(item, key) && !text_lt(key, item) {
                proof {
                    lemma_lex_total(item@, key@);
                }
                return true;
            }
            proof {
                lemma_lex_irreflexive(key@);
            }
            i = i + 1;
        }
        false
    }

    pub fn len(&self) -> (r: usize)
        requires
            self.wf(),
        ensures
            r == self@.len(),
    {
        proof {
            self.lemma_distinct();
            self.keys().unique_seq_to_set();
        }
        self.items.len()
    }

    /// The keys, in ascending order.
    pub fn to_vec(&self) -> (r: Vec<String>)
        ensures
            r@.map_values(|s: String| s@) == self.keys(),
    {
        self.items.clone()
    }

    proof fn lemma_distinct(&self)
        requires
            self.wf(),
        ensures
            self.keys().no_duplicates(),
    {
        assert forall|i: int, j: int|
            0 <= i < self.keys().len() && 0 <= j < self.keys().len() && i != j implies self.keys()[i]
            != self.keys()[j] by {
            if i < j {
                lemma_lex_asymmetric(self.keys()[i], self.keys()[j]);
                lemma_lex_irreflexive(self.keys()[i]);
            } else {
                lemma_lex_irreflexive(self.keys()[j]);
            }
        }
    }
}

impl View for KeySet {
    type V = Set<Seq<char>>;

    open spec fn view(&self) -> Set<Seq<char>> {
        self.keys().to_set()
    }
}

} // verus!
