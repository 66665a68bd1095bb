//! The per-type record store and the advance pass over it.

use vstd::prelude::*;
use crate::animation::{InterpolatableValue, InterpolatingComponent};
use crate::keyframes::CubicSpline;
use crate::table::Table;

verus! {

/// The interpolation factor of the current tick, shared by every record.
/// It is computed once per tick, before any record is advanced.
pub struct InterpolationFactor<F>(pub F);

/// Why a record could not be created.
#[derive(Debug, Clone, Copy, PartialEq, Eq)]
pub enum StoreError {
    /// The entity already has a record of this type.
    Occupied(u64),
}

/// The records of one value type, one per entity, with the entities whose
/// record was created since the last call of `take_added`.
pub struct RecordStore<T, S> {
    records: Table<InterpolatingComponent<T, S>>,
    added: Vec<u64>,
}

impl<T: Copy, S> RecordStore<T, S> {
    /// The records by entity.
    pub closed spec fn table(&self) -> Table<InterpolatingComponent<T, S>> {
        self.records
    }

    /// The records by entity, as a map.
    pub open spec fn view(&self) -> Map<u64, InterpolatingComponent<T, S>> {
        self.table()@
    }

    /// The entities created since the last `take_added`, in order of creation.
    pub closed spec fn added_seq(&self) -> Seq<u64> {
        self.added@
    }

    pub open spec fn wf(&self) -> bool {
        &&& self.table().wf()
        &&& forall|e: u64| #[trigger] self@.contains_key(e) ==> self@[e].wf()
        &&& forall|e: u64| #[trigger] self.added_seq().contains(e) ==> self@.contains_key(e)
    }

    pub fn new() -> (r: Self)
        ensures
            r.wf(),
            r@ == Map::<u64, InterpolatingComponent<T, S>>::empty(),
            r.table().key_seq() == Seq::<u64>::empty(),
            r.added_seq() == Seq::<u64>::empty(),
    {
        RecordStore { records: Table::new(), added: Vec::new() }
    }

    /// Creates the record of `entity`. Fails when the entity has one already.
    pub fn create(&mut self, entity: u64, record: InterpolatingComponent<T, S>) -> (r: Result<(), StoreError>)
        requires
            old(self).wf(),
            record.wf(),
        ensures
            final(self).wf(),
            old(self)@.contains_key(entity) <==> r is Err,
            r matches Err(e) ==> e == StoreError::Occupied(entity) && *final(self) == *old(self),
            r is Ok ==> final(self)@ == old(self)@.insert(entity, record)
                && final(self).table().key_seq() == old(self).table().key_seq().push(entity)
                && final(self).added_seq() == old(self).added_seq().push(entity),
    {
        if self.records.get(entity).is_some() {
            return Err(StoreError::Occupied(entity));
        }
        self.records.insert(entity, record);
        self.added.push(entity);
        proof {
            assert forall|e: u64| #[trigger] self@.contains_key(e) implies self@[e].wf() by {
                if e != entity {
                    assert(old(self)@.contains_key(e));
                }
            }
            assert forall|e: u64| #[trigger] self.added_seq().contains(e) implies self@.contains_key(e) by {
                if e != entity {
                    let j = self.added_seq().index_of(e);
                    assert(old(self).added_seq()[j] == e);
                    assert(old(self).added_seq().contains(e));
                    assert(old(self)@.contains_key(e));
                }
            }
        }
        Ok(())
    }

    /// The record of `entity`, if it has one.
    pub fn get(&self, entity: u64) -> (r: Option<&InterpolatingComponent<T, S>>)
        requires
            self.wf(),
        ensures
            r.is_none() <==> !self@.contains_key(entity),
            r matches Some(c) ==> *c == self@[entity],
    {
        self.records.get(entity)
    }

    /// The number of records.
    pub fn len(&self) -> (n: usize)
        requires
            self.wf(),
        ensures
            n == self.table().key_seq().len(),
    {
        self.records.len()
    }

    /// The entity of the record at position `i`.
    pub fn entity_at(&self, i: usize) -> (e: u64)
        requires
            self.wf(),
            i < self.table().key_seq().len(),
        ensures
            e == self.table().key_seq()[i as int],
            self@.contains_key(e),
    {
        proof { self.table().lemma_at(i as int); }
        self.records.key_at(i)
    }

    /// The current value of the record at position `i`.
    pub fn current_at(&self, i: usize) -> (v: T)
        requires
            self.wf(),
            i < self.table().key_seq().len(),
        ensures
            v == self@[self.table().key_seq()[i as int]].current_value(),
    {
        proof { self.table().lemma_at(i as int); }
        self.records.value_at(i).current()
    }

    /// The entities created since the last call, in order of creation; the
    /// list starts afresh.
    pub fn take_added(&mut self) -> (r: Vec<u64>)
        requires
            old(self).wf(),
        ensures
            final(self).wf(),
            r@ == old(self).added_seq(),
            final(self)@ == old(self)@,
            final(self).added_seq() == Seq::<u64>::empty(),
    {
        let mut r: Vec<u64> = Vec::new();
        std::mem::swap(&mut r, &mut self.added);
        proof {
            assert(self.records == old(self).records);
            assert forall|e: u64| #[trigger] self@.contains_key(e) implies self@[e].wf() by {
                assert(old(self)@.contains_key(e));
            }
            assert forall|e: u64| #[trigger] self.added_seq().contains(e) implies self@.contains_key(e) by {
                assert(self.added_seq().len() == 0);
            }
        }
        r
    }

    /// The advance pass: recomputes the current value of every record at
    /// the tick's factor. Which entities have records, how each moves, and
    /// the list of added entities, do not change.
    pub fn interpolate_all<F: Copy>(&mut self, t: F)
        where T: InterpolatableValue<F>, S: CubicSpline<T, F>
        requires
            old(self).wf(),
        ensures
            final(self).wf(),
            final(self)@.dom() == old(self)@.dom(),
            final(self).table().key_seq() == old(self).table().key_seq(),
            final(self).added_seq() == old(self).added_seq(),
            forall|e: u64| #[trigger] old(self)@.contains_key(e) ==>
                final(self)@[e].motion() == old(self)@[e].motion()
                && final(self)@[e].current_value() == old(self)@[e].value_at(t),
    {
        let n = self.records.len();
        let ghost old_t = self.records;
        proof {
            assert forall|j: int| 0 <= j < n implies (#[trigger] old_t.val_seq()[j]).wf() by {
                old_t.lemma_at(j);
            }
        }
        let mut i: usize = 0;
        while i < n
            invariant
                old_t.wf(),
                n == old_t.key_seq().len(),
                i <= n,
                self.records.key_seq() == old_t.key_seq(),
                self.records.val_seq().len() == n,
                self.added_seq() == old(self).added_seq(),
                old_t == old(self).table(),
                forall|j: int| 0 <= j < n ==> (#[trigger] old_t.val_seq()[j]).wf(),
                forall|j: int| 0 <= j < i ==> {
                    &&& (#[trigger] self.records.val_seq()[j]).motion() == old_t.val_seq()[j].motion()
                    &&& self.records.val_seq()[j].current_value() == old_t.val_seq()[j].value_at(t)
                    &&& self.records.val_seq()[j].wf()
                },
                forall|j: int| i <= j < n ==> #[trigger] self.records.val_seq()[j] == old_t.val_seq()[j],
            decreases n - i,
        {
            let r = self.records.value_at_mut(i);
            r.interpolate(t);
            i += 1;
        }
        proof {
            assert forall|e: u64| #[trigger] old(self)@.contains_key(e) implies
                self@.contains_key(e)
                && self@[e].motion() == old(self)@[e].motion()
                && self@[e].current_value() == old(self)@[e].value_at(t)
                && self@[e].wf() by {
                let j = old_t.key_seq().index_of(e);
                old_t.lemma_at(j);
                self.table().lemma_at(j);
            }
            assert forall|e: u64| #[trigger] self@.contains_key(e) implies old(self)@.contains_key(e) by {
                let j = self.table().key_seq().index_of(e);
                old_t.lemma_at(j);
            }
            assert(self@.dom() =~= old(self)@.dom());
        }
    }
}

/// The per-type advance pass of one tick: every record of the store takes
/// its value at the tick's factor.
pub fn interpolate_system<T: Copy, S, F: Copy>(store: &mut RecordStore<T, S>, factor: &InterpolationFactor<F>)
    where T: InterpolatableValue<F>, S: CubicSpline<T, F>
    requires
        old(store).wf(),
    ensures
        final(store).wf(),
        final(store)@.dom() == old(store)@.dom(),
        final(store).table().key_seq() == old(store).table().key_seq(),
        final(store).added_seq() == old(store).added_seq(),
        forall|e: u64| #[trigger] old(store)@.contains_key(e) ==>
            final(store)@[e].motion() == old(store)@[e].motion()
            && final(store)@[e].current_value() == old(store)@[e].value_at(factor.0),
{
    store.interpolate_all(factor.0);
}

} // verus!
