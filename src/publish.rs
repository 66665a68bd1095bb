//! The publish passes: current values out of the records into the host's
//! renderable state.

use vstd::prelude::*;
use crate::store::RecordStore;
use crate::table::Table;

verus! {

/// Materials by handle, each reduced to its base color. Handles are issued
/// in increasing order and never reused, so a handle that was removed stays
/// dangling.
pub struct MaterialStore<C> {
    colors: Table<C>,
    next: u64,
}

impl<C> MaterialStore<C> {
    pub closed spec fn table(&self) -> Table<C> {
        self.colors
    }

    /// The base color of each material, by handle.
    pub open spec fn view(&self) -> Map<u64, C> {
        self.table()@
    }

    /// The handle that the next material will get; every handle issued so
    /// far is below it.
    pub closed spec fn next_handle(&self) -> u64 {
        self.next
    }

    pub open spec fn wf(&self) -> bool {
        &&& self.table().wf()
        &&& forall|h: u64| #[trigger] self@.contains_key(h) ==> h < self.next_handle()
    }

    pub fn new() -> (r: Self)
        ensures
            r.wf(),
            r@ == Map::<u64, C>::empty(),
            r.next_handle() == 0,
    {
        MaterialStore { colors: Table::new(), next: 0 }
    }

    /// Adds a material of base color `color` under a new handle.
    pub fn add(&mut self, color: C) -> (h: u64)
        requires
            old(self).wf(),
            old(self).next_handle() < u64::MAX,
        ensures
            final(self).wf(),
            h == old(self).next_handle(),
            final(self).next_handle() == old(self).next_handle() + 1,
            final(self)@ == old(self)@.insert(h, color),
    {
        let h = self.next;
        self.colors.insert(h, color);
        self.next = h + 1;
        proof {
            assert forall|g: u64| #[trigger] self@.contains_key(g) implies g < self.next_handle() by {
                if g != h {
                    assert(old(self)@.contains_key(g));
                }
            }
        }
        h
    }

    /// The handle that the next material will get.
    pub fn next(&self) -> (h: u64)
        ensures
            h == self.next_handle(),
    {
        self.next
    }

    /// Removes (unloads) the material of handle `h`; the handle is not reused.
    pub fn remove(&mut self, h: u64) -> (r: Option<C>)
        requires
            old(self).wf(),
        ensures
            final(self).wf(),
            final(self).next_handle() == old(self).next_handle(),
            final(self)@ == old(self)@.remove(h),
            r.is_none() <==> !old(self)@.contains_key(h),
            r matches Some(c) ==> c == old(self)@[h],
    {
        let r = self.colors.remove(h);
        proof {
            assert forall|g: u64| #[trigger] self@.contains_key(g) implies g < self.next_handle() by {
                assert(old(self)@.contains_key(g));
            }
        }
        r
    }

    /// The base color of the material of handle `h`, if it is loaded.
    pub fn get(&self, h: u64) -> (r: Option<&C>)
        requires
            self.wf(),
        ensures
            r.is_none() <==> !self@.contains_key(h),
            r matches Some(c) ==> *c == self@[h],
    {
        self.colors.get(h)
    }

    /// Overwrites the base color of the loaded material of handle `h`.
    pub fn set_color(&mut self, h: u64, color: C)
        requires
            old(self).wf(),
            old(self)@.contains_key(h),
        ensures
            final(self).wf(),
            final(self).next_handle() == old(self).next_handle(),
            final(self)@ == old(self)@.insert(h, color),
    {
        self.colors.insert(h, color);
    }
}

/// The transforms after the transform publish: each entity that has both a
/// transform and a record takes the record's current value.
pub open spec fn published_transforms<X: Copy, S>(
    transforms: Map<u64, X>,
    records: RecordStore<X, S>,
) -> Map<u64, X> {
    Map::new(
        |e: u64| transforms.contains_key(e),
        |e: u64| if records@.contains_key(e) { records@[e].current_value() } else { transforms[e] },
    )
}

/// The transform publish: every entity with a transform record has its
/// renderable transform overwritten with the record's current value.
pub fn update_local_transform_system<X: Copy, S>(transforms: &mut Table<X>, records: &RecordStore<X, S>)
    requires
        old(transforms).wf(),
        records.wf(),
    ensures
        final(transforms).wf(),
        final(transforms)@ == published_transforms(old(transforms)@, *records),
{
    let n = records.len();
    let ghost keys = records.table().key_seq();
    let mut i: usize = 0;
    while i < n
        invariant
            records.wf(),
            n == keys.len(),
            keys == records.table().key_seq(),
            i <= n,
            transforms.wf(),
            transforms@.dom() == old(transforms)@.dom(),
            forall|e: u64| #[trigger] transforms@.contains_key(e) ==> transforms@[e] == (
                if keys.take(i as int).contains(e) { records@[e].current_value() } else { old(transforms)@[e] }),
        decreases n - i,
    {
        let e = records.entity_at(i);
        let cur = records.current_at(i);
        proof {
            assert(keys.take(i + 1) =~= keys.take(i as int).push(e));
        }
        let ghost before = transforms@;
        if transforms.get(e).is_some() {
            transforms.insert(e, cur);
            proof {
                assert(transforms@.dom() =~= old(transforms)@.dom());
            }
        }
        proof {
            assert forall|x: u64| #[trigger] transforms@.contains_key(x) implies transforms@[x] == (
                if keys.take(i + 1).contains(x) { records@[x].current_value() } else { old(transforms)@[x] }) by {
                if x == e {
                    assert(keys.take(i + 1)[i as int] == e);
                } else {
                    assert(transforms@[x] == before[x]);
                    if keys.take(i + 1).contains(x) {
                        let j = keys.take(i + 1).index_of(x);
                        assert(keys.take(i as int)[j] == x);
                    }
                    if keys.take(i as int).contains(x) {
                        let j = keys.take(i as int).index_of(x);
                        assert(keys.take(i + 1)[j] == x);
                    }
                }
            }
        }
        i += 1;
    }
    proof {
        assert(keys.take(n as int) =~= keys);
        assert forall|e: u64| keys.contains(e) <==> records@.contains_key(e) by {}
        assert(transforms@ =~= published_transforms(old(transforms)@, *records));
    }
}

/// Whether one of the entities in `done` has a link to material `h`.
pub open spec fn linked_from(links: Map<u64, u64>, done: Seq<u64>, h: u64) -> bool {
    exists|e: u64| #![trigger links[e], done.contains(e)]
        links.contains_key(e) && done.contains(e) && links[e] == h
}

/// What the color publish needs: every link names a handle that the store
/// issued, no two entities with color records share a material, and there
/// is room for one new handle per record.
pub open spec fn color_publish_ready<C: Copy, S>(
    materials: MaterialStore<C>,
    links: Table<u64>,
    records: RecordStore<C, S>,
) -> bool {
    &&& materials.wf()
    &&& links.wf()
    &&& records.wf()
    &&& forall|e: u64| #[trigger] links@.contains_key(e) ==> links@[e] < materials.next_handle()
    &&& forall|e1: u64, e2: u64|
        #[trigger] links@.contains_key(e1) && #[trigger] links@.contains_key(e2)
        && records@.contains_key(e1) && records@.contains_key(e2) && e1 != e2
        ==> links@[e1] != links@[e2]
    &&& materials.next_handle() + records.table().key_seq().len() <= u64::MAX
}

/// The outcome of the color publish, from materials `m0` and links `l0` to
/// `m1` and `l1`, for the records `records`:
/// - every entity with a record and a link ends linked to a loaded material
///   whose base color is the record's current value: the material it had
///   when that was loaded, else a new one;
/// - other links stay; no material is unloaded; a material that no entity
///   with a record links to keeps its color; new handles are fresh.
pub open spec fn color_published<C: Copy, S>(
    m0: MaterialStore<C>,
    l0: Map<u64, u64>,
    records: RecordStore<C, S>,
    m1: MaterialStore<C>,
    l1: Map<u64, u64>,
) -> bool {
    &&& l1.dom() == l0.dom()
    &&& forall|e: u64| #[trigger] l0.contains_key(e) && !records@.contains_key(e) ==> l1[e] == l0[e]
    &&& forall|e: u64| #[trigger] l0.contains_key(e) && records@.contains_key(e) ==> {
        &&& m1@.contains_key(l1[e])
        &&& m1@[l1[e]] == records@[e].current_value()
        &&& m0@.contains_key(l0[e]) ==> l1[e] == l0[e]
        &&& !m0@.contains_key(l0[e]) ==> m0.next_handle() <= l1[e]
    }
    &&& forall|h: u64| #[trigger] m0@.contains_key(h) ==> m1@.contains_key(h)
    &&& forall|h: u64| #[trigger] m0@.contains_key(h) && !linked_from(l0, records.table().key_seq(), h)
        ==> m1@[h] == m0@[h]
    &&& forall|h: u64| #[trigger] m1@.contains_key(h) && !m0@.contains_key(h) ==> m0.next_handle() <= h
}

/// The color publish: for every entity with a color record and a material
/// link, the material's base color becomes the record's current value. When
/// the linked material has been unloaded, a new material of that color is
/// added and the entity is linked to it instead.
pub fn update_color_system<C: Copy, S>(
    materials: &mut MaterialStore<C>,
    links: &mut Table<u64>,
    records: &RecordStore<C, S>,
)
    requires
        color_publish_ready(*old(materials), *old(links), *records),
    ensures
        final(materials).wf(),
        final(links).wf(),
        color_published(*old(materials), old(links)@, *records, *final(materials), final(links)@),
        forall|e: u64| #[trigger] final(links)@.contains_key(e) ==> final(links)@[e] < final(materials).next_handle(),
{
    let n = records.len();
    let ghost keys = records.table().key_seq();
    let ghost m0 = *materials;
    let ghost l0 = links@;
    let ghost next0 = materials.next_handle();
    let mut i: usize = 0;
    while i < n
        invariant
            records.wf(),
            n == keys.len(),
            keys == records.table().key_seq(),
            i <= n,
            m0 == *old(materials),
            l0 == old(links)@,
            next0 == m0.next_handle(),
            color_publish_ready(m0, *old(links), *records),
            materials.wf(),
            links.wf(),
            links@.dom() == l0.dom(),
            next0 <= materials.next_handle() <= next0 + i,
            forall|e: u64| #[trigger] links@.contains_key(e) ==> links@[e] < materials.next_handle(),
            forall|e: u64| #[trigger] l0.contains_key(e) && !keys.take(i as int).contains(e) ==> links@[e] == l0[e],
            forall|e: u64| #[trigger] l0.contains_key(e) && keys.take(i as int).contains(e) ==> {
                &&& materials@.contains_key(links@[e])
                &&& materials@[links@[e]] == records@[e].current_value()
                &&& m0@.contains_key(l0[e]) ==> links@[e] == l0[e]
                &&& !m0@.contains_key(l0[e]) ==> next0 <= links@[e]
            },
            forall|h: u64| #[trigger] m0@.contains_key(h) ==> materials@.contains_key(h),
            forall|h: u64| #[trigger] m0@.contains_key(h) && !linked_from(l0, keys.take(i as int), h)
                ==> materials@[h] == m0@[h],
            forall|h: u64| #[trigger] materials@.contains_key(h) && !m0@.contains_key(h) ==> next0 <= h,
        decreases n - i,
    {
        let e = records.entity_at(i);
        let cur = records.current_at(i);
        let ghost done = keys.take(i as int);
        let ghost done2 = keys.take(i + 1);
        let ghost mb = *materials;
        let ghost lb = links@;
        proof {
            assert(done2 =~= done.push(e));
            assert(keys.no_duplicates());
            assert(!done.contains(e)) by {
                if done.contains(e) {
                    let j = done.index_of(e);
                    assert(keys[j] == keys[i as int]);
                }
            }
            assert forall|x: u64| done2.contains(x) <==> done.contains(x) || x == e by {
                if done2.contains(x) && x != e {
                    let j = done2.index_of(x);
                    assert(done[j] == x);
                }
                if done.contains(x) {
                    let j = done.index_of(x);
                    assert(done2[j] == x);
                }
                if x == e {
                    assert(done2[i as int] == e);
                }
            }
            assert forall|x: u64| #[trigger] done.contains(x) implies records@.contains_key(x) by {
                let j = done.index_of(x);
                assert(keys[j] == x);
                assert(keys.contains(x));
            }
        }
        match links.get(e) {
            Some(hr) => {
                let h = *hr;
                proof { assert(h == l0[e]); }
                if materials.get(h).is_some() {
                    materials.set_color(h, cur);
                    proof {
                        assert(m0@.contains_key(h));
                        assert forall|x: u64| #[trigger] l0.contains_key(x) && done2.contains(x) implies {
                            &&& materials@.contains_key(links@[x])
                            &&& materials@[links@[x]] == records@[x].current_value()
                            &&& m0@.contains_key(l0[x]) ==> links@[x] == l0[x]
                            &&& !m0@.contains_key(l0[x]) ==> next0 <= links@[x]
                        } by {
                            if x != e {
                                assert(done.contains(x));
                                if m0@.contains_key(l0[x]) {
                                    assert(l0[x] != l0[e]);
                                }
                            }
                        }
                        assert forall|g: u64| #[trigger] m0@.contains_key(g) && !linked_from(l0, done2, g)
                            implies materials@[g] == m0@[g] by {
                            if g == h {
                                assert(l0.contains_key(e) && done2.contains(e) && l0[e] == h);
                            }
                            if linked_from(l0, done, g) {
                                let x = choose|x: u64| #![trigger l0[x], done.contains(x)]
                                    l0.contains_key(x) && done.contains(x) && l0[x] == g;
                                assert(l0.contains_key(x) && done2.contains(x) && l0[x] == g);
                            }
                        }
                    }
                } else {
                    let h2 = materials.add(cur);
                    links.insert(e, h2);
                    proof {
                        assert(!m0@.contains_key(h));
                        assert(links@.dom() =~= l0.dom());
                        assert forall|x: u64| #[trigger] l0.contains_key(x) && done2.contains(x) implies {
                            &&& materials@.contains_key(links@[x])
                            &&& materials@[links@[x]] == records@[x].current_value()
                            &&& m0@.contains_key(l0[x]) ==> links@[x] == l0[x]
                            &&& !m0@.contains_key(l0[x]) ==> next0 <= links@[x]
                        } by {
                            if x != e {
                                assert(done.contains(x));
                                assert(lb.contains_key(x));
                                assert(lb[x] < mb.next_handle());
                            }
                        }
                        assert forall|g: u64| #[trigger] m0@.contains_key(g) && !linked_from(l0, done2, g)
                            implies materials@[g] == m0@[g] by {
                            if linked_from(l0, done, g) {
                                let x = choose|x: u64| #![trigger l0[x], done.contains(x)]
                                    l0.contains_key(x) && done.contains(x) && l0[x] == g;
                                assert(l0.contains_key(x) && done2.contains(x) && l0[x] == g);
                            }
                            assert(g < next0);
                        }
                        assert forall|x: u64| #[trigger] links@.contains_key(x) implies links@[x] < materials.next_handle() by {
                            if x != e {
                                assert(lb.contains_key(x));
                            }
                        }
                    }
                }
            },
            None => {
                proof {
                    assert forall|g: u64| #[trigger] m0@.contains_key(g) && !linked_from(l0, done2, g)
                        implies materials@[g] == m0@[g] by {
                        if linked_from(l0, done, g) {
                            let x = choose|x: u64| #![trigger l0[x], done.contains(x)]
                                l0.contains_key(x) && done.contains(x) && l0[x] == g;
                            assert(l0.contains_key(x) && done2.contains(x) && l0[x] == g);
                        }
                    }
                }
            },
        }
        i += 1;
    }
    proof {
        assert(keys.take(n as int) =~= keys);
        assert forall|x: u64| keys.contains(x) <==> records@.contains_key(x) by {
            if records@.contains_key(x) {
                let j = keys.index_of(x);
            }
        }
    }
}

/// Self-healing: when the material that an entity with a color record links
/// to is removed before a color publish, the publish leaves the entity linked
/// to a loaded material that holds the record's current color, under a new
/// handle and not the removed one.
pub proof fn lemma_publish_heals_removed_material<C: Copy, S>(
    m0: MaterialStore<C>,
    removed: MaterialStore<C>,
    l0: Table<u64>,
    records: RecordStore<C, S>,
    e: u64,
    m1: MaterialStore<C>,
    l1: Map<u64, u64>,
)
    requires
        color_publish_ready(m0, l0, records),
        l0@.contains_key(e),
        records@.contains_key(e),
        removed@ == m0@.remove(l0@[e]),
        removed.next_handle() == m0.next_handle(),
        color_published(removed, l0@, records, m1, l1),
    ensures
        l1.contains_key(e),
        m1@.contains_key(l1[e]),
        m1@[l1[e]] == records@[e].current_value(),
        l1[e] != l0@[e],
        m0.next_handle() <= l1[e],
{
    assert(!removed@.contains_key(l0@[e]));
}

} // verus!
