use vstd::prelude::*;
use crate::ids::GenericId;

verus! {

/// A key that can be compared by its view.
pub trait TableKey: View + Sized {
    fn same_key(&self, other: &Self) -> (r: bool)
        ensures
            r == (self@ == other@),
    ;
}

impl TableKey for String {
    fn same_key(&self, other: &Self) -> (r: bool) {
        *self == *other
    }
}

impl TableKey for GenericId {
    fn same_key(&self, other: &Self) -> (r: bool) {
        self.same_as(other)
    }
}

/// An associative list with distinct keys, seen as a finite map.
pub struct Table<K, V> {
    keys: Vec<K>,
    vals: Vec<V>,
}

impl<K: TableKey, V> Table<K, V> {
    pub closed spec fn wf(&self) -> bool {
        &&& self.keys@.len() == self.vals@.len()
        &&& forall|i: int, j: int|
            0 <= i < j < self.keys@.len() ==> self.keys@[i]@ != self.keys@[j]@
    }

    spec fn has_at(&self, k: K::V, i: int) -> bool {
        0 <= i < self.keys@.len() && self.keys@[i]@ == k
    }

    pub closed spec fn view(&self) -> Map<K::V, V> {
        Map::new(
            |k: K::V| exists|i: int| self.has_at(k, i),
            |k: K::V| self.vals@[choose|i: int| self.has_at(k, i)],
        )
    }

    proof fn lemma_at(&self, i: int)
        requires
            self.wf(),
            0 <= i < self.keys@.len(),
        ensures
            self@.contains_key(self.keys@[i]@),
            self@[self.keys@[i]@] == self.vals@[i],
    {
        let k = self.keys@[i]@;
        assert(self.has_at(k, i));
        let j = choose|j: int| self.has_at(k, j);
        assert(j == i);
    }

    pub fn new() -> (r: Self)
        ensures
            r.wf(),
            r@ == Map::<K::V, V>::empty(),
    {
        let r = Table { keys: Vec::new(), vals: Vec::new() };
        assert(r@ =~= Map::<K::V, V>::empty());
        r
    }

    /// The position of `k`, if it is present.
    fn find(&self, k: &K) -> (r: Option<usize>)
        requires
            self.wf(),
        ensures
            r is None <==> !self@.contains_key(k@),
            r matches Some(i) ==> i < self.keys@.len() && self.keys@[i as int]@ == k@
                && self@[k@] == self.vals@[i as int],
    {
        let mut i: usize = 0;
        while i < self.keys.len()
            invariant
                self.wf(),
                i <= self.keys@.len(),
                forall|j: int| 0 <= j < i ==> self.keys@[j]@ != k@,
            decreases self.keys@.len() - i,
        {
            if self.keys[i].same_key(k) {
                proof {
                    self.lemma_at(i as int);
                }
                return Some(i);
            }
            i = i + 1;
        }
        None
    }

    pub fn contains(&self, k: &K) -> (r: bool)
        requires
            self.wf(),
        ensures
            r == self@.contains_key(k@),
    {
        self.find(k).is_some()
    }

    pub fn get(&self, k: &K) -> (r: Option<&V>)
        requires
            self.wf(),
        ensures
            r is None <==> !self@.contains_key(k@),
            r matches Some(v) ==> *v == self@[k@],
    {
        match self.find(k) {
            Some(i) => Some(&self.vals[i]),
            None => None,
        }
    }

    /// Adds a key that is not present yet.
    pub fn insert_new(&mut self, k: K, v: V)
        requires
            old(self).wf(),
            !old(self)@.contains_key(k@),
        ensures
            final(self).wf(),
            final(self)@ == old(self)@.insert(k@, v),
    {
        let ghost kv = k@;
        let ghost k_copy = k;
        let ghost old_self = *self;
        self.keys.push(k);
        self.vals.push(v);
        proof {
            let n = old_self.keys@.len() as int;
            assert(self.keys@ == old_self.keys@.push(k_copy));
            assert forall|i: int, j: int| 0 <= i < j < self.keys@.len()
                implies self.keys@[i]@ != self.keys@[j]@ by {
                if j == n {
                    assert(old_self.has_at(self.keys@[i]@, i));
                }
            }
            assert(self.has_at(kv, n));
            self.lemma_at(n);
            assert forall|key: K::V| #[trigger] self@.contains_key(key) == old_self@.insert(kv, v).contains_key(key) by {
                if key != kv {
                    if self@.contains_key(key) {
                        let i = choose|i: int| self.has_at(key, i);
                        assert(old_self.has_at(key, i));
                    }
                    if old_self@.contains_key(key) {
                        let i = choose|i: int| old_self.has_at(key, i);
                        assert(self.has_at(key, i));
                    }
                }
            }
            assert forall|key: K::V| #[trigger] self@.contains_key(key) && key != kv implies self@[key] == old_self@[key] by {
                let i = choose|i: int| self.has_at(key, i);
                assert(old_self.has_at(key, i));
                old_self.lemma_at(i);
                self.lemma_at(i);
            }
            assert(self@ =~= old_self@.insert(kv, v));
        }
    }

    /// Replaces the value of a key that is present.
    pub fn replace(&mut self, k: &K, v: V)
        requires
            old(self).wf(),
            old(self)@.contains_key(k@),
        ensures
            final(self).wf(),
            final(self)@ == old(self)@.insert(k@, v),
    {
        let ghost old_self = *self;
        let i = self.find(k).unwrap();
        self.vals[i] = v;
        proof {
            self.lemma_at(i as int);
            assert forall|key: K::V| #[trigger] self@.contains_key(key) == old_self@.insert(k@, v).contains_key(key) by {
                if self@.contains_key(key) {
                    let j = choose|j: int| self.has_at(key, j);
                    assert(old_self.has_at(key, j));
                }
                if old_self@.contains_key(key) {
                    let j = choose|j: int| old_self.has_at(key, j);
                    assert(self.has_at(key, j));
                }
            }
            assert forall|key: K::V| #[trigger] self@.contains_key(key) && key != k@ implies self@[key] == old_self@[key] by {
                let j = choose|j: int| self.has_at(key, j);
                assert(old_self.has_at(key, j));
                old_self.lemma_at(j);
                self.lemma_at(j);
            }
            assert(self@ =~= old_self@.insert(k@, v));
        }
    }

    /// Puts `v` in place of the value of a key that is present, and hands back
    /// the value it replaces.
    pub fn swap_value(&mut self, k: &K, v: V) -> (r: V)
        requires
            old(self).wf(),
            old(self)@.contains_key(k@),
        ensures
            final(self).wf(),
            final(self)@ == old(self)@.insert(k@, v),
            r == old(self)@[k@],
    {
        let ghost old_self = *self;
        let i = self.find(k).unwrap();
        let mut tmp = v;
        std::mem::swap(&mut self.vals[i], &mut tmp);
        proof {
            self.lemma_at(i as int);
            assert forall|key: K::V| #[trigger] self@.contains_key(key) == old_self@.insert(k@, v).contains_key(key) by {
                if self@.contains_key(key) {
                    let j = choose|j: int| self.has_at(key, j);
                    assert(old_self.has_at(key, j));
                }
                if old_self@.contains_key(key) {
                    let j = choose|j: int| old_self.has_at(key, j);
                    assert(self.has_at(key, j));
                }
            }
            assert forall|key: K::V| #[trigger] self@.contains_key(key) && key != k@ implies self@[key] == old_self@[key] by {
                let j = choose|j: int| self.has_at(key, j);
                assert(old_self.has_at(key, j));
                old_self.lemma_at(j);
                self.lemma_at(j);
            }
            assert(self@ =~= old_self@.insert(k@, v));
        }
        tmp
    }
}

} // verus!
