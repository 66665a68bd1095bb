//! A table of values keyed by 64-bit identifiers (entities or asset handles).

use vstd::prelude::*;

verus! {

/// Values keyed by distinct `u64` identifiers, in order of first insertion.
pub struct Table<V> {
    keys: Vec<u64>,
    vals: Vec<V>,
}

impl<V> Table<V> {
    /// The keys, in order of first insertion.
    pub closed spec fn key_seq(&self) -> Seq<u64> {
        self.keys@
    }

    /// The values, parallel to `key_seq`.
    pub closed spec fn val_seq(&self) -> Seq<V> {
        self.vals@
    }

    /// Keys are distinct and each has exactly one value.
    pub open spec fn wf(&self) -> bool {
        &&& self.key_seq().len() == self.val_seq().len()
        &&& self.key_seq().no_duplicates()
    }

    /// The table as a map from key to value.
    pub open spec fn view(&self) -> Map<u64, V> {
        Map::new(
            |k: u64| self.key_seq().contains(k),
            |k: u64| self.val_seq()[self.key_seq().index_of(k)],
        )
    }

    /// In a well-formed table the value at position `i` is the one of its key.
    pub proof fn lemma_at(&self, i: int)
        requires
            self.wf(),
            0 <= i < self.key_seq().len(),
        ensures
            self@.contains_key(self.key_seq()[i]),
            self@[self.key_seq()[i]] == self.val_seq()[i],
            self.key_seq().index_of(self.key_seq()[i]) == i,
    {
        let k = self.key_seq()[i];
        assert(self.key_seq().contains(k));
        let j = self.key_seq().index_of(k);
        assert(0 <= j < self.key_seq().len() && self.key_seq()[j] == k);
    }

    pub fn new() -> (r: Self)
        ensures
            r.wf(),
            r@ == Map::<u64, V>::empty(),
            r.key_seq() == Seq::<u64>::empty(),
    {
        let r = Table { keys: Vec::new(), vals: Vec::new() };
        assert(r@ =~= Map::<u64, V>::empty());
        r
    }

    pub fn len(&self) -> (n: usize)
        requires
            self.wf(),
        ensures
            n == self.key_seq().len(),
    {
        self.keys.len()
    }

    /// The key at position `i`.
    pub fn key_at(&self, i: usize) -> (k: u64)
        requires
            self.wf(),
            i < self.key_seq().len(),
        ensures
            k == self.key_seq()[i as int],
    {
        self.keys[i]
    }

    /// The value at position `i`.
    pub fn value_at(&self, i: usize) -> (v: &V)
        requires
            self.wf(),
            i < self.key_seq().len(),
        ensures
            *v == self.val_seq()[i as int],
    {
        &self.vals[i]
    }

    /// The value at position `i`, to be changed in place; the keys stay.
    pub fn value_at_mut(&mut self, i: usize) -> (v: &mut V)
        requires
            old(self).wf(),
            i < old(self).key_seq().len(),
        ensures
            *v == old(self).val_seq()[i as int],
            final(self).key_seq() == old(self).key_seq(),
            final(self).val_seq() == old(self).val_seq().update(i as int, *final(v)),
    {
        &mut self.vals[i]
    }

    /// The position of key `k`, if the table holds it.
    pub fn find(&self, k: u64) -> (r: Option<usize>)
        requires
            self.wf(),
        ensures
            r.is_none() <==> !self@.contains_key(k),
            r matches Some(i) ==> i < self.key_seq().len() && self.key_seq()[i as int] == k,
    {
        let mut i: usize = 0;
        while i < self.keys.len()
            invariant
                i <= self.key_seq().len(),
                forall|j: int| 0 <= j < i ==> self.key_seq()[j] != k,
            decreases self.key_seq().len() - i,
        {
            if self.keys[i] == k {
                return Some(i);
            }
            i += 1;
        }
        None
    }

    /// The value of key `k`, if the table holds it.
    pub fn get(&self, k: u64) -> (r: Option<&V>)
        requires
            self.wf(),
        ensures
            r.is_none() <==> !self@.contains_key(k),
            r matches Some(v) ==> *v == self@[k],
    {
        match self.find(k) {
            Some(i) => {
                proof { self.lemma_at(i as int); }
                Some(&self.vals[i])
            },
            None => None,
        }
    }

    /// Removes key `k` and its value, if the table holds it; the other keys
    /// keep their order.
    pub fn remove(&mut self, k: u64) -> (r: Option<V>)
        requires
            old(self).wf(),
        ensures
            final(self).wf(),
            final(self)@ == old(self)@.remove(k),
            r.is_none() <==> !old(self)@.contains_key(k),
            r matches Some(v) ==> v == old(self)@[k],
    {
        match self.find(k) {
            Some(i) => {
                proof { self.lemma_at(i as int); }
                self.keys.remove(i);
                let v = self.vals.remove(i);
                proof {
                    let ok = old(self).key_seq();
                    let n = ok.len();
                    assert(self.key_seq() =~= ok.remove(i as int));
                    assert(self.key_seq().no_duplicates()) by {
                        assert forall|a: int, b: int| 0 <= a < b < self.key_seq().len() implies
                            self.key_seq()[a] != self.key_seq()[b] by {
                            let oa = if a < i { a } else { a + 1 };
                            let ob = if b < i { b } else { b + 1 };
                            assert(ok[oa] != ok[ob]);
                        }
                    }
                    assert forall|x: u64| self@.contains_key(x) <==> old(self)@.remove(k).contains_key(x) by {
                        if self.key_seq().contains(x) {
                            let j = self.key_seq().index_of(x);
                            let oj = if j < i { j } else { j + 1 };
                            assert(ok[oj] == x);
                            assert(ok.contains(x));
                        }
                        if ok.contains(x) && x != k {
                            let j = ok.index_of(x);
                            assert(j != i);
                            let nj = if j < i { j } else { j - 1 };
                            assert(self.key_seq()[nj] == x);
                        }
                    }
                    assert forall|j: int| 0 <= j < self.key_seq().len() implies
                        self@[self.key_seq()[j]] == old(self)@[self.key_seq()[j]] by {
                        self.lemma_at(j);
                        let oj = if j < i { j } else { j + 1 };
                        old(self).lemma_at(oj);
                    }
                    assert forall|x: u64| #[trigger] self@.contains_key(x) implies
                        self@[x] == old(self)@.remove(k)[x] by {
                        let j = self.key_seq().index_of(x);
                        assert(self.key_seq()[j] == x);
                    }
                    assert(self@ =~= old(self)@.remove(k));
                }
                Some(v)
            },
            None => {
                proof { assert(self@ =~= old(self)@.remove(k)); }
                None
            },
        }
    }

    /// Sets the value of key `k`, adding the key at the end if it is new.
    pub fn insert(&mut self, k: u64, v: V)
        requires
            old(self).wf(),
        ensures
            final(self).wf(),
            final(self)@ == old(self)@.insert(k, v),
            old(self)@.contains_key(k) ==> final(self).key_seq() == old(self).key_seq(),
            !old(self)@.contains_key(k) ==> final(self).key_seq() == old(self).key_seq().push(k),
    {
        match self.find(k) {
            Some(i) => {
                self.vals.set(i, v);
                proof {
                    assert forall|j: int| 0 <= j < self.key_seq().len() implies
                        self@[self.key_seq()[j]] == old(self)@.insert(k, v)[self.key_seq()[j]] by {
                        self.lemma_at(j);
                        old(self).lemma_at(j);
                    }
                    assert forall|x: u64| #[trigger] self@.contains_key(x) implies
                        self@[x] == old(self)@.insert(k, v)[x] by {
                        let j = self.key_seq().index_of(x);
                        assert(self.key_seq()[j] == x);
                    }
                    assert(self@ =~= old(self)@.insert(k, v));
                }
            },
            None => {
                self.keys.push(k);
                self.vals.push(v);
                proof {
                    let n = old(self).key_seq().len() as int;
                    assert(self.key_seq().no_duplicates()) by {
                        assert forall|a: int, b: int| 0 <= a < b < self.key_seq().len() implies
                            self.key_seq()[a] != self.key_seq()[b] by {
                            if b == n {
                                assert(old(self).key_seq().contains(old(self).key_seq()[a]));
                            }
                        }
                    }
                    assert forall|j: int| 0 <= j < self.key_seq().len() implies
                        self@[self.key_seq()[j]] == old(self)@.insert(k, v)[self.key_seq()[j]] by {
                        self.lemma_at(j);
                        if j < n {
                            old(self).lemma_at(j);
                        }
                    }
                    assert forall|x: u64| #[trigger] self@.contains_key(x) implies
                        self@[x] == old(self)@.insert(k, v)[x] by {
                        let j = self.key_seq().index_of(x);
                        assert(self.key_seq()[j] == x);
                    }
                    assert forall|x: u64| self@.contains_key(x) <==> old(self)@.insert(k, v).contains_key(x) by {
                        assert(self.key_seq()[n] == k);
                        if old(self).key_seq().contains(x) {
                            let j = old(self).key_seq().index_of(x);
                            assert(self.key_seq()[j] == x);
                        }
                        if self.key_seq().contains(x) {
                            let j = self.key_seq().index_of(x);
                            if j < n {
                                assert(old(self).key_seq()[j] == x);
                            }
                        }
                    }
                    assert(self@ =~= old(self)@.insert(k, v));
                }
            },
        }
    }
}

} // verus!
