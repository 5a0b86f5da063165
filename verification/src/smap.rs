//! An ordered map keyed by strings, iterated in key order (the role a
//! `BTreeMap<String, V>` plays in the CLI's data).

use vstd::prelude::*;

use crate::text::{same, lemma_lex_asym, lemma_lex_irrefl, lemma_lex_total, lemma_lex_trans, lex_less, lex_lt};

verus! {

/// Keys strictly increasing in `lex_lt` order.
pub open spec fn strictly_sorted(keys: Seq<Seq<char>>) -> bool {
    forall|i: int, j: int| 0 <= i < j < keys.len() ==> lex_lt(#[trigger] keys[i], #[trigger] keys[j])
}

/// Strictly sorted keys are pairwise distinct.
pub proof fn lemma_sorted_distinct(keys: Seq<Seq<char>>, i: int, j: int)
    requires
        strictly_sorted(keys),
        0 <= i < keys.len(),
        0 <= j < keys.len(),
        i != j,
    ensures
        keys[i] != keys[j],
{
    if i < j {
        assert(lex_lt(keys[i], keys[j]));
        lemma_lex_irrefl(keys[i]);
    } else {
        assert(lex_lt(keys[j], keys[i]));
        lemma_lex_irrefl(keys[j]);
    }
}

/// Strictly sorted keys hold no duplicates.
pub proof fn lemma_sorted_distinct_all(keys: Seq<Seq<char>>)
    requires
        strictly_sorted(keys),
    ensures
        keys.no_duplicates(),
{
    assert forall|i: int, j: int| 0 <= i < keys.len() && 0 <= j < keys.len() && i != j implies keys[i] != keys[j] by {
        lemma_sorted_distinct(keys, i, j);
    }
}

/// Map from string keys to values, kept in increasing key order.
#[derive(Debug)]
pub struct StrMap<V> {
    keys: Vec<String>,
    vals: Vec<V>,
}

impl<V> StrMap<V> {
    /// The keys, in iteration order.
    pub closed spec fn kseq(&self) -> Seq<Seq<char>> {
        self.keys@.map_values(|k: String| k@)
    }

    /// The values, in iteration order.
    pub closed spec fn vseq(&self) -> Seq<V> {
        self.vals@
    }

    /// The number of entries.
    pub open spec fn size(&self) -> nat {
        self.kseq().len()
    }

    /// Keys are strictly increasing and each key has one value.
    #[verifier::type_invariant]
    pub closed spec fn inv(&self) -> bool {
        self.keys.len() == self.vals.len() && strictly_sorted(self.kseq())
    }

    /// The map seen as a mathematical map.
    pub open spec fn as_map(&self) -> Map<Seq<char>, V> {
        Map::new(
            |k: Seq<char>| self.kseq().contains(k),
            |k: Seq<char>| self.vseq()[self.kseq().index_of(k)],
        )
    }

    /// What the invariant provides to callers.
    pub proof fn lemma_inv(&self)
        requires
            self.inv(),
        ensures
            self.kseq().len() == self.vseq().len(),
            strictly_sorted(self.kseq()),
    {
    }

    /// An empty map.
    pub fn new() -> (m: Self)
        ensures
            m.kseq() == Seq::<Seq<char>>::empty(),
            m.vseq() == Seq::<V>::empty(),
    {
        let m = StrMap { keys: Vec::new(), vals: Vec::new() };
        proof {
            assert(m.kseq() =~= Seq::<Seq<char>>::empty());
        }
        m
    }

    /// The number of entries.
    pub fn len(&self) -> (n: usize)
        ensures
            n == self.size(),
            n == self.vseq().len(),
    {
        proof {
            use_type_invariant(self);
        }
        self.keys.len()
    }

    /// The key at position `i` in iteration order.
    pub fn key_at(&self, i: usize) -> (k: &String)
        requires
            i < self.size(),
        ensures
            k@ == self.kseq()[i as int],
    {
        &self.keys[i]
    }

    /// The value at position `i` in iteration order.
    pub fn value_at(&self, i: usize) -> (v: &V)
        requires
            i < self.size(),
        ensures
            *v == self.vseq()[i as int],
    {
        proof {
            use_type_invariant(self);
        }
        &self.vals[i]
    }

    /// The position of `key`, if present.
    pub fn find(&self, key: &str) -> (r: Option<usize>)
        ensures
            match r {
                Some(i) => i < self.size() && self.kseq()[i as int] == key@,
                None => !self.kseq().contains(key@),
            },
    {
        let mut i: usize = 0;
        while i < self.keys.len()
            invariant
                i <= self.keys.len(),
                forall|k: int| 0 <= k < i ==> self.kseq()[k] != key@,
            decreases self.keys.len() - i,
        {
            if same(self.keys[i].as_str(), key) {
                return Some(i);
            }
            i = i + 1;
        }
        None
    }

    /// The value stored under `key`, if any.
    pub fn get(&self, key: &str) -> (r: Option<&V>)
        ensures
            match r {
                Some(v) => self.as_map().contains_key(key@) && *v == self.as_map()[key@],
                None => !self.as_map().contains_key(key@),
            },
    {
        proof {
            use_type_invariant(self);
        }
        match self.find(key) {
            Some(i) => {
                proof {
                    self.lemma_index_of(i as int);
                }
                Some(&self.vals[i])
            },
            None => None,
        }
    }

    /// Whether `key` has an entry.
    pub fn contains_key(&self, key: &str) -> (b: bool)
        ensures
            b == self.as_map().contains_key(key@),
    {
        self.find(key).is_some()
    }

    /// The entry at position `i` is the map's entry for its key.
    pub proof fn lemma_entry_at(&self, i: int)
        requires
            self.inv(),
            0 <= i < self.size(),
        ensures
            self.as_map().contains_key(self.kseq()[i]),
            self.as_map()[self.kseq()[i]] == self.vseq()[i],
    {
        self.lemma_index_of(i);
    }

    proof fn lemma_index_of(&self, i: int)
        requires
            self.inv(),
            0 <= i < self.size(),
        ensures
            self.kseq().index_of(self.kseq()[i]) == i,
    {
        let k = self.kseq()[i];
        assert(self.kseq().contains(k));
        let j = self.kseq().index_of(k);
        if j != i {
            lemma_sorted_distinct(self.kseq(), i, j);
        }
    }

    /// Inserts or replaces the entry for `key`.
    pub fn insert(&mut self, key: String, value: V)
        ensures
            final(self).as_map() == old(self).as_map().insert(key@, value),
    {
        proof {
            use_type_invariant(&*self);
            self.lemma_index_of_all();
        }
        let ghost ks = self.kseq();
        let ghost vs = self.vseq();
        let ghost old_map = self.as_map();
        let mut taken = StrMap { keys: Vec::new(), vals: Vec::new() };
        std::mem::swap(self, &mut taken);
        let StrMap { mut keys, mut vals } = taken;
        assert(keys@.map_values(|k: String| k@) == ks);
        let mut i: usize = 0;
        while i < keys.len() && lex_less(keys[i].as_str(), key.as_str())
            invariant
                i <= keys.len(),
                keys@.map_values(|k: String| k@) == ks,
                keys.len() == vals.len(),
                strictly_sorted(ks),
                forall|k: int| 0 <= k < i ==> lex_lt(#[trigger] ks[k], key@),
            decreases keys.len() - i,
        {
            i = i + 1;
        }
        if i < keys.len() && same(keys[i].as_str(), key.as_str()) {
            vals.set(i, value);
            let fresh = StrMap { keys, vals };
            proof {
                assert(fresh.kseq() == ks);
                fresh.lemma_index_of_all();
                assert(ks[i as int] == key@);
                assert forall|k: Seq<char>| #[trigger] fresh.as_map().contains_key(k) implies fresh.as_map()[k]
                    == old_map.insert(key@, value)[k] by {
                    let j = ks.index_of(k);
                    if k == key@ {
                        assert(j == i);
                    } else {
                        assert(j != i);
                    }
                }
                assert(fresh.as_map() =~= old_map.insert(key@, value));
            }
            *self = fresh;
        } else {
            proof {
                if i < ks.len() {
                    lemma_lex_total(ks[i as int], key@);
                }
            }
            let ghost kv = key@;
            keys.insert(i, key);
            vals.insert(i, value);
            let ghost nks = keys@.map_values(|k: String| k@);
            proof {
                assert(nks =~= ks.insert(i as int, kv));
                assert forall|a: int, b: int| 0 <= a < b < nks.len() implies lex_lt(
                    #[trigger] nks[a],
                    #[trigger] nks[b],
                ) by {
                    if b < i {
                    } else if a < i && b == i {
                    } else if a < i {
                        assert(lex_lt(ks[a], kv));
                        assert(lex_lt(kv, ks[b - 1])) by {
                            if b - 1 > i {
                                assert(lex_lt(ks[i as int], ks[b - 1]));
                                lemma_lex_trans(kv, ks[i as int], ks[b - 1]);
                            }
                        }
                        lemma_lex_trans(ks[a], kv, ks[b - 1]);
                    } else if a == i {
                        if b - 1 > i {
                            assert(lex_lt(ks[i as int], ks[b - 1]));
                            lemma_lex_trans(kv, ks[i as int], ks[b - 1]);
                        }
                    } else {
                        assert(lex_lt(ks[a - 1], ks[b - 1]));
                    }
                }
            }
            let fresh = StrMap { keys, vals };
            proof {
                assert(fresh.kseq() == nks);
                fresh.lemma_index_of_all();
                assert(!ks.contains(kv)) by {
                    if ks.contains(kv) {
                        let j = ks.index_of(kv);
                        if j < i {
                            assert(lex_lt(ks[j], kv));
                            lemma_lex_irrefl(kv);
                        } else if j > i {
                            assert(lex_lt(ks[i as int], ks[j]));
                            lemma_lex_asym(kv, ks[i as int]);
                        }
                    }
                }
                assert(nks[i as int] == kv);
                assert(nks.contains(kv));
                assert forall|k: Seq<char>| #[trigger] fresh.as_map().contains_key(k)
                    == old_map.insert(kv, value).contains_key(k) by {
                    if nks.contains(k) && k != kv {
                        let j = nks.index_of(k);
                        if j < i {
                            assert(ks[j] == k);
                        } else {
                            assert(ks[j - 1] == k);
                        }
                    }
                    if ks.contains(k) {
                        let j = ks.index_of(k);
                        if j < i {
                            assert(nks[j] == k);
                        } else {
                            assert(nks[j + 1] == k);
                        }
                    }
                }
                assert forall|k: Seq<char>| #[trigger] fresh.as_map().contains_key(k) implies fresh.as_map()[k]
                    == old_map.insert(kv, value)[k] by {
                    let j = nks.index_of(k);
                    if k != kv {
                        if j < i {
                            assert(ks[j] == k);
                            assert(ks.index_of(k) == j);
                        } else {
                            assert(ks[j - 1] == k);
                            assert(ks.index_of(k) == j - 1);
                        }
                    }
                }
                assert(fresh.as_map() =~= old_map.insert(kv, value));
            }
            *self = fresh;
        }
    }

    proof fn lemma_index_of_all(&self)
        requires
            self.inv(),
        ensures
            forall|i: int| 0 <= i < self.size() ==> self.kseq().index_of(#[trigger] self.kseq()[i]) == i,
    {
        assert forall|i: int| 0 <= i < self.size() implies self.kseq().index_of(
            #[trigger] self.kseq()[i],
        ) == i by {
            self.lemma_index_of(i);
        }
    }
}

impl StrMap<String> {
    /// A copy of the map.
    pub fn duplicate(&self) -> (r: Self)
        ensures
            r.kseq() == self.kseq(),
            r.vseq().len() == self.vseq().len(),
            forall|i: int| 0 <= i < self.vseq().len() ==> #[trigger] r.vseq()[i]@ == self.vseq()[i]@,
            forall|k: Seq<char>| #[trigger] r.as_map().contains_key(k) ==> r.as_map()[k]@ == self.as_map()[k]@,
    {
        proof {
            use_type_invariant(self);
        }
        let mut keys: Vec<String> = Vec::new();
        let mut vals: Vec<String> = Vec::new();
        let mut i: usize = 0;
        while i < self.vals.len()
            invariant
                i <= self.vals@.len(),
                self.keys@.len() == self.vals@.len(),
                vals@.len() == i,
                keys@.len() == i,
                forall|k: int| 0 <= k < i ==> #[trigger] vals@[k]@ == self.vals@[k]@,
                forall|k: int| 0 <= k < i ==> #[trigger] keys@[k]@ == self.keys@[k]@,
            decreases self.vals@.len() - i,
        {
            vals.push(self.vals[i].clone());
            keys.push(self.keys[i].clone());
            i = i + 1;
        }
        proof {
            assert(keys@.map_values(|k: String| k@) =~= self.kseq());
        }
        StrMap { keys, vals }
    }
}

} // verus!
