//! A small map keyed by 128-bit identifiers, kept in insertion order.

use vstd::prelude::*;

verus! {

/// Map from identifiers to values; each identifier occurs once, and
/// entries stay in the order their identifiers were first inserted.
#[derive(Debug)]
pub struct IdMap<V> {
    ids: Vec<u128>,
    vals: Vec<V>,
}

impl<V> IdMap<V> {
    #[verifier::type_invariant]
    spec fn inv(self) -> bool {
        &&& self.ids@.len() == self.vals@.len()
        &&& forall|a: int, b: int| 0 <= a < b < self.ids@.len() ==> self.ids@[a] != self.ids@[b]
    }

    /// The identifiers, in first-insertion order.
    pub closed spec fn id_seq(&self) -> Seq<u128> {
        self.ids@
    }

    /// The values, aligned with `id_seq`.
    pub closed spec fn val_seq(&self) -> Seq<V> {
        self.vals@
    }

    /// The map seen as a mathematical map.
    pub open spec fn as_map(&self) -> Map<u128, V> {
        Map::new(|k: u128| self.id_seq().contains(k), |k: u128| self.val_seq()[self.id_seq().index_of(k)])
    }

    /// An empty map.
    pub fn new() -> (m: Self)
        ensures
            m.id_seq() == Seq::<u128>::empty(),
            m.val_seq() == Seq::<V>::empty(),
            m.as_map() == Map::<u128, V>::empty(),
    {
        let m = IdMap { ids: Vec::new(), vals: Vec::new() };
        proof {
            assert(m.as_map() =~= Map::<u128, V>::empty());
        }
        m
    }

    /// Number of entries.
    pub fn len(&self) -> (n: usize)
        ensures
            n == self.id_seq().len(),
            n == self.val_seq().len(),
    {
        proof {
            use_type_invariant(self);
        }
        self.ids.len()
    }

    /// The value at position `i`.
    pub fn value_at(&self, i: usize) -> (v: &V)
        requires
            i < self.id_seq().len(),
        ensures
            *v == self.val_seq()[i as int],
    {
        proof {
            use_type_invariant(self);
        }
        &self.vals[i]
    }

    /// The entry at position `i`, as the map sees it.
    pub fn entry_at(&self, i: usize) -> (r: (u128, &V))
        requires
            i < self.id_seq().len(),
        ensures
            r.0 == self.id_seq()[i as int],
            self.as_map().contains_key(r.0),
            self.as_map()[r.0] == *r.1,
            *r.1 == self.val_seq()[i as int],
    {
        proof {
            use_type_invariant(self);
            let k = self.ids@[i as int];
            assert(self.ids@.contains(k));
            let j = self.ids@.index_of(k);
            if j < i {
                assert(self.ids@[j] != self.ids@[i as int]);
            } else if j > i {
                assert(self.ids@[i as int] != self.ids@[j]);
            }
        }
        (self.ids[i], &self.vals[i])
    }

    /// Position of `k`, if present.
    pub fn position(&self, k: u128) -> (r: Option<usize>)
        ensures
            match r {
                Some(i) => i < self.id_seq().len() && self.id_seq()[i as int] == k && self.id_seq().index_of(k) == i,
                None => !self.id_seq().contains(k),
            },
    {
        proof {
            use_type_invariant(self);
        }
        let mut i: usize = 0;
        while i < self.ids.len()
            invariant
                i <= self.ids@.len(),
                forall|j: int| 0 <= j < i ==> self.ids@[j] != k,
                forall|a: int, b: int| 0 <= a < b < self.ids@.len() ==> self.ids@[a] != self.ids@[b],
            decreases self.ids@.len() - i,
        {
            if self.ids[i] == k {
                proof {
                    assert(self.ids@[i as int] == k);
                    assert(self.ids@.contains(k));
                    let j = self.ids@.index_of(k);
                    assert(self.ids@[j] == k);
                    if j < i {
                        assert(self.ids@[j] != self.ids@[i as int]);
                    } else if j > i {
                        assert(self.ids@[i as int] != self.ids@[j]);
                    }
                }
                return Some(i);
            }
            i = i + 1;
        }
        None
    }

    /// The value stored under `k`, if any.
    pub fn get(&self, k: u128) -> (r: Option<&V>)
        ensures
            match r {
                Some(v) => self.as_map().contains_key(k) && *v == self.as_map()[k],
                None => !self.as_map().contains_key(k),
            },
    {
        match self.position(k) {
            Some(i) => Some(self.value_at(i)),
            None => None,
        }
    }

    /// Sets the value under `k`: replaces it in place when present, else
    /// appends a new entry.
    pub fn insert(&mut self, k: u128, v: V)
        ensures
            final(self).as_map() == old(self).as_map().insert(k, v),
            old(self).id_seq().contains(k) ==> final(self).id_seq() == old(self).id_seq(),
            !old(self).id_seq().contains(k) ==> final(self).id_seq() == old(self).id_seq().push(k),
    {
        proof {
            use_type_invariant(&*self);
        }
        let ghost old_map = self.as_map();
        let ghost ids0 = self.ids@;
        let ghost vals0 = self.vals@;
        let pos = self.position(k);
        let mut taken = IdMap { ids: Vec::new(), vals: Vec::new() };
        std::mem::swap(self, &mut taken);
        let IdMap { mut ids, mut vals } = taken;
        match pos {
            Some(i) => {
                vals.set(i, v);
                let fresh = IdMap { ids, vals };
                proof {
                    assert forall|q: u128| #[trigger] fresh.as_map().contains_key(q) implies fresh.as_map()[q]
                        == old_map.insert(k, v)[q] by {
                        let j = ids0.index_of(q);
                        assert(ids0[j] == q);
                        if q == k {
                            assert(j == i);
                        } else {
                            assert(j != i);
                        }
                    }
                    assert(fresh.as_map() =~= old_map.insert(k, v));
                }
                *self = fresh;
            },
            None => {
                ids.push(k);
                vals.push(v);
                let fresh = IdMap { ids, vals };
                proof {
                    assert forall|a: int, b: int| 0 <= a < b < fresh.ids@.len() implies fresh.ids@[a] != fresh.ids@[b] by {
                        if b == ids0.len() {
                            assert(ids0.contains(fresh.ids@[a]) || fresh.ids@[a] != k);
                        }
                    }
                    assert forall|q: u128| #[trigger] fresh.as_map().contains_key(q) implies fresh.as_map()[q]
                        == old_map.insert(k, v)[q] by {
                        let j = fresh.ids@.index_of(q);
                        assert(fresh.ids@[j] == q);
                        if q == k {
                            if j < ids0.len() {
                                assert(ids0[j] == k);
                                assert(ids0.contains(k));
                            }
                            assert(j == ids0.len());
                        } else {
                            assert(j < ids0.len());
                            assert(ids0[j] == q);
                            let j0 = ids0.index_of(q);
                            assert(ids0[j0] == q);
                            assert(fresh.ids@[j0] == q);
                            if j0 != j {
                                if j0 < j {
                                    assert(fresh.ids@[j0] != fresh.ids@[j]);
                                } else {
                                    assert(fresh.ids@[j] != fresh.ids@[j0]);
                                }
                            }
                        }
                    }
                    assert forall|q: u128| #[trigger] fresh.as_map().contains_key(q) == old_map.insert(k, v).contains_key(q) by {
                        if q != k && fresh.ids@.contains(q) {
                            let j = fresh.ids@.index_of(q);
                            assert(ids0[j] == q);
                        }
                        if ids0.contains(q) {
                            let j = ids0.index_of(q);
                            assert(fresh.ids@[j] == q);
                        }
                        if q == k {
                            assert(fresh.ids@[ids0.len() as int] == k);
                        }
                    }
                    assert(fresh.as_map() =~= old_map.insert(k, v));
                }
                *self = fresh;
            },
        }
    }
}

} // verus!
