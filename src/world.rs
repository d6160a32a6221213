//! The entity table: entity identity and the components each entity owns.
//!
//! Entities live in slots.  A removed entity frees its slot, and the next
//! entity created there gets a higher generation, so a stale handle never
//! reaches the new owner of the slot.
use vstd::prelude::*;
use crate::components::{Component, ComponentKind, Components, EntityId};

verus! {

struct Slot {
    generation: u64,
    record: Option<Components>,
}

pub struct World {
    slots: Vec<Slot>,
    free: Vec<usize>,
}

impl View for World {
    type V = Map<EntityId, Components>;

    /// The live entities and their components.
    closed spec fn view(&self) -> Map<EntityId, Components> {
        Map::new(|e: EntityId| self.live(e), |e: EntityId| self.slots@[e.index as int].record->0)
    }
}

impl World {
    /// Whether `e` names a live entity.
    pub closed spec fn live(&self, e: EntityId) -> bool {
        &&& e.index < self.slots@.len()
        &&& self.slots@[e.index as int].record is Some
        &&& self.slots@[e.index as int].generation == e.generation
    }

    /// The number of slots; every live entity has an index below it.
    pub closed spec fn slot_len(&self) -> nat {
        self.slots@.len()
    }

    pub closed spec fn wf(&self) -> bool {
        &&& forall|i: int|
            0 <= i < self.free@.len() ==> {
                &&& #[trigger] self.free@[i] < self.slots@.len()
                &&& self.slots@[self.free@[i] as int].record is None
                &&& self.slots@[self.free@[i] as int].generation < u64::MAX
            }
        &&& forall|i: int, j: int|
            0 <= i < j < self.free@.len() ==> #[trigger] self.free@[i] != #[trigger] self.free@[j]
    }

    /// Live entities sit below `slot_len`, one per slot.
    pub proof fn lemma_slots(&self)
        ensures
            forall|e: EntityId| #[trigger] self@.contains_key(e) ==> e.index < self.slot_len(),
            forall|a: EntityId, b: EntityId|
                #[trigger] self@.contains_key(a) && #[trigger] self@.contains_key(b) && a.index
                    == b.index ==> a == b,
    {
    }

    pub fn new() -> (w: World)
        ensures
            w.wf(),
            w@ == Map::<EntityId, Components>::empty(),
            w.slot_len() == 0,
    {
        let w = World { slots: Vec::new(), free: Vec::new() };
        assert(w@ =~= Map::<EntityId, Components>::empty());
        w
    }

    pub fn slot_count(&self) -> (n: usize)
        ensures
            n == self.slot_len(),
    {
        self.slots.len()
    }

    /// The live entity in slot `i`, if any.
    pub fn entity_at(&self, i: usize) -> (r: Option<EntityId>)
        ensures
            r matches Some(e) ==> self@.contains_key(e) && e.index == i,
            r is None ==> forall|e: EntityId| #[trigger] self@.contains_key(e) ==> e.index != i,
    {
        if i < self.slots.len() {
            match &self.slots[i].record {
                Some(_) => Some(EntityId { index: i, generation: self.slots[i].generation }),
                None => None,
            }
        } else {
            None
        }
    }

    pub fn is_live(&self, e: EntityId) -> (r: bool)
        ensures
            r == self@.contains_key(e),
    {
        e.index < self.slots.len() && self.slots[e.index].record.is_some()
            && self.slots[e.index].generation == e.generation
    }

    /// The components of `e`, or `None` when `e` is not live.
    pub fn get(&self, e: EntityId) -> (r: Option<&Components>)
        ensures
            r is Some == self@.contains_key(e),
            r matches Some(c) ==> *c == self@[e],
    {
        if e.index < self.slots.len() && self.slots[e.index].generation == e.generation {
            match &self.slots[e.index].record {
                Some(c) => Some(c),
                None => None,
            }
        } else {
            None
        }
    }

    /// Creates an entity owning `record`.
    pub fn spawn(&mut self, record: Components) -> (e: EntityId)
        requires
            old(self).wf(),
        ensures
            final(self).wf(),
            !old(self)@.contains_key(e),
            final(self)@ == old(self)@.insert(e, record),
    {
        if self.free.len() > 0 {
            let idx = self.free.pop().unwrap();
            proof {
                assert(old(self).free@[old(self).free@.len() - 1] == idx);
            }
            let g = self.slots[idx].generation + 1;
            self.slots[idx] = Slot { generation: g, record: Some(record) };
            let e = EntityId { index: idx, generation: g };
            proof {
                assert forall|i: int| 0 <= i < self.free@.len() implies #[trigger] self.free@[i]
                    != idx by {
                    assert(old(self).free@[i] == self.free@[i]);
                }
                assert(self@ =~= old(self)@.insert(e, record));
            }
            e
        } else {
            let idx = self.slots.len();
            self.slots.push(Slot { generation: 0, record: Some(record) });
            let e = EntityId { index: idx, generation: 0 };
            assert(self@ =~= old(self)@.insert(e, record));
            e
        }
    }

    /// Creates an entity that owns no component.
    pub fn create(&mut self) -> (e: EntityId)
        requires
            old(self).wf(),
        ensures
            final(self).wf(),
            !old(self)@.contains_key(e),
            final(self)@ == old(self)@.insert(e, Components::empty_spec()),
    {
        self.spawn(Components::empty())
    }

    /// Removes `e` and all its components.  Removing an entity that is not
    /// live changes nothing; the result tells whether `e` was live.
    pub fn remove(&mut self, e: EntityId) -> (r: bool)
        requires
            old(self).wf(),
        ensures
            final(self).wf(),
            r == old(self)@.contains_key(e),
            final(self)@ == old(self)@.remove(e),
            final(self).slot_len() == old(self).slot_len(),
    {
        if self.is_live(e) {
            let g = self.slots[e.index].generation;
            self.slots[e.index] = Slot { generation: g, record: None };
            if g < u64::MAX {
                proof {
                    assert forall|i: int| 0 <= i < self.free@.len() implies #[trigger] self.free@[i]
                        != e.index by {
                        assert(old(self).slots@[old(self).free@[i] as int].record is None);
                    }
                }
                self.free.push(e.index);
            }
            assert(self@ =~= old(self)@.remove(e));
            true
        } else {
            assert(self@ =~= old(self)@.remove(e));
            false
        }
    }

    /// Removes every entity.
    pub fn clear(&mut self)
        requires
            old(self).wf(),
        ensures
            final(self).wf(),
            final(self)@ == Map::<EntityId, Components>::empty(),
    {
        let n = self.slots.len();
        let mut i: usize = 0;
        while i < n
            invariant
                self.wf(),
                n == self.slots@.len(),
                i <= n,
                forall|e: EntityId| #[trigger] self@.contains_key(e) ==> e.index >= i,
            decreases n - i,
        {
            let e = self.entity_at(i);
            if let Some(e) = e {
                self.remove(e);
            }
            i = i + 1;
        }
        assert(self@ =~= Map::<EntityId, Components>::empty());
    }

    /// Attaches `c` to `e`, replacing any component of its kind.  Nothing
    /// happens when `e` is not live; the result tells whether it was.
    pub fn attach(&mut self, e: EntityId, c: Component) -> (r: bool)
        requires
            old(self).wf(),
        ensures
            final(self).wf(),
            r == old(self)@.contains_key(e),
            r ==> final(self)@ == old(self)@.insert(e, old(self)@[e].with_spec(c)),
            !r ==> final(self)@ == old(self)@,
            final(self).slot_len() == old(self).slot_len(),
    {
        if self.is_live(e) {
            let g = self.slots[e.index].generation;
            let mut slot = Slot { generation: g, record: None };
            std::mem::swap(&mut slot, &mut self.slots[e.index]);
            let mut rec = slot.record.unwrap();
            rec.put(c);
            self.slots[e.index] = Slot { generation: g, record: Some(rec) };
            proof {
                assert forall|i: int| 0 <= i < self.free@.len() implies #[trigger] self.free@[i]
                    != e.index by {
                    assert(old(self).slots@[old(self).free@[i] as int].record is None);
                }
                assert(self@ =~= old(self)@.insert(e, old(self)@[e].with_spec(c)));
            }
            true
        } else {
            false
        }
    }

    /// The live entities that own a component of every kind in `kinds`, in
    /// slot order.
    pub fn entities_with(&self, kinds: &Vec<ComponentKind>) -> (r: Vec<EntityId>)
        requires
            self.wf(),
        ensures
            forall|e: EntityId|
                r@.contains(e) <==> self@.contains_key(e) && self@[e].has_all_spec(kinds@),
            forall|i: int, j: int| 0 <= i < j < r@.len() ==> r@[i].index < r@[j].index,
    {
        let mut r: Vec<EntityId> = Vec::new();
        let mut i: usize = 0;
        while i < self.slots.len()
            invariant
                i <= self.slots@.len(),
                forall|e: EntityId|
                    r@.contains(e) <==> self@.contains_key(e) && self@[e].has_all_spec(kinds@)
                        && e.index < i,
                forall|a: int, b: int| 0 <= a < b < r@.len() ==> r@[a].index < r@[b].index,
                forall|a: int| 0 <= a < r@.len() ==> r@[a].index < i,
            decreases self.slots@.len() - i,
        {
            let ghost before = r@;
            if let Some(c) = &self.slots[i].record {
                if c.has_all(kinds) {
                    let e = EntityId { index: i, generation: self.slots[i].generation };
                    r.push(e);
                }
            }
            proof {
                let e = EntityId { index: i, generation: self.slots@[i as int].generation };
                assert(r@ == before || r@ == before.push(e));
                assert forall|x: EntityId|
                    r@.contains(x) <==> self@.contains_key(x) && self@[x].has_all_spec(kinds@)
                        && x.index < i + 1 by {
                    if self@.contains_key(x) && x.index == i {
                        assert(x == e);
                        assert(self.slots@[i as int].record == Some(self@[x]));
                    }
                    if r@ != before {
                        if before.contains(x) {
                            let k = choose|k: int| 0 <= k < before.len() && before[k] == x;
                            assert(r@[k] == x);
                        }
                        if r@.contains(x) {
                            let k = choose|k: int| 0 <= k < r@.len() && r@[k] == x;
                            if k < before.len() {
                                assert(before[k] == x);
                            }
                        }
                        if x == e {
                            assert(r@[before.len() as int] == e);
                        }
                    }
                }
            }
            i = i + 1;
        }
        r
    }
}

} // verus!
