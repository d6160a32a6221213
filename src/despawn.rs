//! Despawn events: the detectors that queue them and the pass that deletes
//! their entities.
use vstd::prelude::*;
use crate::components::{Component, Components, EntityId, Timeout};
use crate::collision::Collisions;
use crate::world::World;

verus! {

#[derive(Clone, Copy, PartialEq, Eq, Structural, Debug)]
pub enum DespawnReason {
    Timeout,
    Collision,
    SelfDestruct,
    Health,
    OutOfBounds,
    Other,
}

#[derive(Clone, Copy, PartialEq, Eq, Structural, Debug)]
pub struct DespawnEvent {
    pub entity: EntityId,
    pub reason: DespawnReason,
}

/// Despawn requests gathered during a frame, resolved once at its end.
pub struct DespawnEventQueue {
    pub events: Vec<DespawnEvent>,
}

impl DespawnEventQueue {
    pub fn new() -> (q: DespawnEventQueue)
        ensures
            q.events@ == Seq::<DespawnEvent>::empty(),
    {
        DespawnEventQueue { events: Vec::new() }
    }

    /// Queues the despawn of `entity` for `reason`.
    pub fn despawn(&mut self, entity: EntityId, reason: DespawnReason)
        ensures
            final(self).events@ == old(self).events@.push(DespawnEvent { entity, reason }),
    {
        self.events.push(DespawnEvent { entity, reason });
    }

    pub fn len(&self) -> (n: usize)
        ensures
            n == self.events@.len(),
    {
        self.events.len()
    }

    pub fn clear(&mut self)
        ensures
            final(self).events@ == Seq::<DespawnEvent>::empty(),
    {
        self.events.clear();
    }
}

/// `evs` holds one event with `why` for each member of `s` below slot
/// `bound`, and no other, in increasing slot order.
pub open spec fn emitted_below(
    evs: Seq<DespawnEvent>,
    why: DespawnReason,
    s: Set<EntityId>,
    bound: int,
) -> bool {
    &&& (forall|k: int|
        #![trigger evs[k]]
        0 <= k < evs.len() ==> s.contains(evs[k].entity) && evs[k].entity.index < bound
            && evs[k].reason == why)
    &&& (forall|e: EntityId|
        #[trigger] s.contains(e) && e.index < bound ==> exists|k: int|
            0 <= k < evs.len() && evs[k].entity == e)
    &&& (forall|k: int, l: int|
        0 <= k < l < evs.len() ==> evs[k].entity.index < evs[l].entity.index)
}

/// `evs` holds one event with `why` for each member of `s`, and no
/// other, in increasing slot order.
pub open spec fn emitted(evs: Seq<DespawnEvent>, why: DespawnReason, s: Set<EntityId>) -> bool {
    &&& (forall|k: int|
        #![trigger evs[k]]
        0 <= k < evs.len() ==> s.contains(evs[k].entity) && evs[k].reason == why)
    &&& (forall|e: EntityId|
        #[trigger] s.contains(e) ==> exists|k: int| 0 <= k < evs.len() && evs[k].entity == e)
    &&& (forall|k: int, l: int|
        0 <= k < l < evs.len() ==> evs[k].entity.index < evs[l].entity.index)
}

/// One step of a slot-ordered scan: slot `i` holds `found` when it holds a
/// member of `s`, and no member of `s` otherwise.
pub proof fn lemma_emit_step(
    evs: Seq<DespawnEvent>,
    why: DespawnReason,
    s: Set<EntityId>,
    i: int,
    found: Option<EntityId>,
)
    requires
        emitted_below(evs, why, s, i),
        found matches Some(x) ==> s.contains(x) && x.index == i,
        forall|e: EntityId| #[trigger] s.contains(e) && e.index == i ==> found == Some(e),
    ensures
        emitted_below(
            if found is Some {
                evs.push(DespawnEvent { entity: found->0, reason: why })
            } else {
                evs
            },
            why,
            s,
            i + 1,
        ),
{
    let t = if found is Some {
        evs.push(DespawnEvent { entity: found->0, reason: why })
    } else {
        evs
    };
    assert forall|k: int| 0 <= k < t.len() implies s.contains(#[trigger] t[k].entity)
        && t[k].entity.index < i + 1 && t[k].reason == why by {
        if k < evs.len() {
            assert(t[k] == evs[k]);
            assert(s.contains(evs[k].entity) && evs[k].entity.index < i && evs[k].reason == why);
        } else {
            assert(t[k] == DespawnEvent { entity: found->0, reason: why });
        }
    }
    assert forall|e: EntityId| #[trigger] s.contains(e) && e.index < i + 1 implies exists|k: int|
        0 <= k < t.len() && t[k].entity == e by {
        if e.index < i {
            let k = choose|k: int| 0 <= k < evs.len() && evs[k].entity == e;
            assert(t[k].entity == e);
        } else {
            assert(t[evs.len() as int].entity == e);
        }
    }
    assert forall|k: int, l: int| 0 <= k < l < t.len() implies t[k].entity.index
        < t[l].entity.index by {
        if l == evs.len() {
            assert(s.contains(evs[k].entity));
        }
    }
}

/// A scan that has passed every member of `s` has emitted all of them.
pub proof fn lemma_emit_done(evs: Seq<DespawnEvent>, why: DespawnReason, s: Set<EntityId>, n: int)
    requires
        emitted_below(evs, why, s, n),
        forall|e: EntityId| #[trigger] s.contains(e) ==> e.index < n,
    ensures
        emitted(evs, why, s),
{
    assert forall|e: EntityId| #[trigger] s.contains(e) implies exists|k: int|
        0 <= k < evs.len() && evs[k].entity == e by {
        assert(e.index < n);
        assert(s.contains(e) && e.index < n);
    }
    assert forall|k: int| 0 <= k < evs.len() implies s.contains(#[trigger] evs[k].entity)
        && evs[k].reason == why by {
        assert(s.contains(evs[k].entity) && evs[k].entity.index < n && evs[k].reason == why);
    }
}

/// The entities named by `evs`.
pub open spec fn targets(evs: Seq<DespawnEvent>) -> Set<EntityId> {
    Set::new(|e: EntityId| exists|k: int| 0 <= k < evs.len() && #[trigger] evs[k].entity == e)
}

proof fn lemma_targets_push(s: Seq<DespawnEvent>, ev: DespawnEvent)
    ensures
        targets(s.push(ev)) == targets(s).insert(ev.entity),
{
    let t = s.push(ev);
    assert forall|e: EntityId| targets(t).contains(e) implies targets(s).insert(ev.entity).contains(
        e,
    ) by {
        let k = choose|k: int| 0 <= k < t.len() && #[trigger] t[k].entity == e;
        if k < s.len() {
            assert(s[k].entity == e);
        }
    }
    assert forall|e: EntityId| targets(s).insert(ev.entity).contains(e) implies targets(t).contains(
        e,
    ) by {
        if e == ev.entity {
            assert(t[s.len() as int].entity == e);
        } else {
            let k = choose|k: int| 0 <= k < s.len() && #[trigger] s[k].entity == e;
            assert(t[k].entity == e);
        }
    }
    assert(targets(t) =~= targets(s).insert(ev.entity));
}

/// Deletes the entity of every event in `events`.  Events whose entity is
/// already gone are skipped, so the same list may be resolved again.
pub fn resolve_despawns(world: &mut World, events: &Vec<DespawnEvent>)
    requires
        old(world).wf(),
    ensures
        final(world).wf(),
        final(world)@ == old(world)@.remove_keys(targets(events@)),
{
    let mut i: usize = 0;
    while i < events.len()
        invariant
            world.wf(),
            i <= events@.len(),
            world@ == old(world)@.remove_keys(targets(events@.subrange(0, i as int))),
        decreases events@.len() - i,
    {
        let ev = events[i];
        world.remove(ev.entity);
        proof {
            assert(events@.subrange(0, i + 1) == events@.subrange(0, i as int).push(ev));
            lemma_targets_push(events@.subrange(0, i as int), ev);
            assert(world@ =~= old(world)@.remove_keys(targets(events@.subrange(0, i + 1))));
        }
        i = i + 1;
    }
    assert(events@.subrange(0, events@.len() as int) == events@);
}

/// Deletes the entity of every queued event, then empties the queue.
pub fn resolve_despawn_queue(world: &mut World, queue: &mut DespawnEventQueue)
    requires
        old(world).wf(),
    ensures
        final(world).wf(),
        final(world)@ == old(world)@.remove_keys(targets(old(queue).events@)),
        final(queue).events@ == Seq::<DespawnEvent>::empty(),
{
    resolve_despawns(world, &queue.events);
    queue.clear();
}

/// After a resolution pass no event's entity is left, and resolving the
/// same events again changes nothing.
pub proof fn lemma_despawn_resolution(w: Map<EntityId, Components>, evs: Seq<DespawnEvent>)
    ensures
        forall|k: int|
            0 <= k < evs.len() ==> !w.remove_keys(targets(evs)).contains_key(#[trigger] evs[k].entity),
        w.remove_keys(targets(evs)).remove_keys(targets(evs)) == w.remove_keys(targets(evs)),
{
    assert forall|k: int| 0 <= k < evs.len() implies !w.remove_keys(targets(evs)).contains_key(
        #[trigger] evs[k].entity,
    ) by {
        assert(targets(evs).contains(evs[k].entity));
    }
    assert(w.remove_keys(targets(evs)).remove_keys(targets(evs)) =~= w.remove_keys(targets(evs)));
}

/// Whether the record's timeout has run out.
pub open spec fn timed_out(c: Components) -> bool {
    c.timeout is Some && c.timeout->0.remaining <= 0
}

/// Whether the record's position lies outside its despawn bounds.
pub open spec fn out_of_bounds(c: Components) -> bool {
    &&& c.position is Some
    &&& c.despawn_bounds is Some
    &&& !c.despawn_bounds->0.contains_spec(c.position->0.x as int, c.position->0.y as int)
}

pub open spec fn timed_out_in(w: Map<EntityId, Components>, e: EntityId) -> bool {
    w.contains_key(e) && timed_out(w[e])
}

pub open spec fn out_of_bounds_in(w: Map<EntityId, Components>, e: EntityId) -> bool {
    w.contains_key(e) && out_of_bounds(w[e])
}

/// Whether `e` is marked to despawn on collision and has a collision partner.
pub open spec fn collided_in(
    w: Map<EntityId, Components>,
    c: Set<(EntityId, EntityId)>,
    e: EntityId,
) -> bool {
    w.contains_key(e) && w[e].despawn_on_collision && exists|b: EntityId| c.contains((e, b))
}

/// Milliseconds left after `elapsed` more have passed, held within `i64`.
pub open spec fn count_down(remaining: i64, elapsed: u32) -> i64 {
    if remaining - elapsed < i64::MIN {
        i64::MIN
    } else {
        (remaining - elapsed) as i64
    }
}

pub fn count_down_exec(remaining: i64, elapsed: u32) -> (r: i64)
    ensures
        r == count_down(remaining, elapsed),
{
    let v: i128 = remaining as i128 - elapsed as i128;
    if v < i64::MIN as i128 {
        i64::MIN
    } else {
        v as i64
    }
}

/// The world after every timeout has run down by `dt` milliseconds.
pub open spec fn timeouts_after(w: Map<EntityId, Components>, dt: u32) -> Map<EntityId, Components> {
    Map::new(
        |e: EntityId| w.contains_key(e),
        |e: EntityId|
            if w[e].timeout is Some {
                Components {
                    timeout: Some(Timeout { remaining: count_down(w[e].timeout->0.remaining, dt) }),
                    ..w[e]
                }
            } else {
                w[e]
            },
    )
}

/// The entities of `w` whose timeout has run out.
pub open spec fn timed_out_set(w: Map<EntityId, Components>) -> Set<EntityId> {
    Set::new(|e: EntityId| timed_out_in(w, e))
}

/// The entities of `w` outside their despawn bounds.
pub open spec fn out_of_bounds_set(w: Map<EntityId, Components>) -> Set<EntityId> {
    Set::new(|e: EntityId| out_of_bounds_in(w, e))
}

/// The entities of `w` that despawn on collision and have a partner in `c`.
pub open spec fn collided_set(w: Map<EntityId, Components>, c: Set<(EntityId, EntityId)>) -> Set<
    EntityId,
> {
    Set::new(|e: EntityId| collided_in(w, c, e))
}

/// The events appended to a queue that held `before` and now holds `after`.
pub open spec fn appended(before: Seq<DespawnEvent>, after: Seq<DespawnEvent>) -> Seq<DespawnEvent> {
    after.subrange(before.len() as int, after.len() as int)
}

/// `after` extends `before`.
pub open spec fn extends(before: Seq<DespawnEvent>, after: Seq<DespawnEvent>) -> bool {
    after.len() >= before.len() && after.subrange(0, before.len() as int) == before
}

proof fn lemma_append_step(q0: Seq<DespawnEvent>, before: Seq<DespawnEvent>, after: Seq<DespawnEvent>, found: Option<EntityId>, reason: DespawnReason)
    requires
        extends(q0, before),
        after == (if found is Some { before.push(DespawnEvent { entity: found->0, reason }) } else { before }),
    ensures
        extends(q0, after),
        appended(q0, after) == (if found is Some {
            appended(q0, before).push(DespawnEvent { entity: found->0, reason })
        } else {
            appended(q0, before)
        }),
{
    assert(after.subrange(0, q0.len() as int) =~= before.subrange(0, q0.len() as int));
    if found is Some {
        assert(appended(q0, after) =~= appended(q0, before).push(DespawnEvent { entity: found->0, reason }));
    }
}

/// Runs every timeout down by `dt` milliseconds and queues a despawn for
/// each entity whose timeout has reached zero.
pub fn timeout_system(world: &mut World, dt: u32, queue: &mut DespawnEventQueue)
    requires
        old(world).wf(),
    ensures
        final(world).wf(),
        final(world)@ == timeouts_after(old(world)@, dt),
        extends(old(queue).events@, final(queue).events@),
        emitted(
            appended(old(queue).events@, final(queue).events@),
            DespawnReason::Timeout,
            timed_out_set(final(world)@),
        ),
{
    let ghost w0 = world@;
    let ghost q0 = queue.events@;
    let ghost target = timeouts_after(w0, dt);
    let ghost set = timed_out_set(target);
    let n = world.slot_count();
    let mut i: usize = 0;
    proof {
        assert(appended(q0, queue.events@) =~= Seq::<DespawnEvent>::empty());
        assert(queue.events@.subrange(0, q0.len() as int) =~= q0);
    }
    while i < n
        invariant
            world.wf(),
            n == world.slot_len(),
            i <= n,
            world@.dom() == w0.dom(),
            target == timeouts_after(w0, dt),
            set == timed_out_set(target),
            forall|e: EntityId| #[trigger] world@.contains_key(e) && e.index < i ==> world@[e] == target[e],
            forall|e: EntityId| #[trigger] world@.contains_key(e) && e.index >= i ==> world@[e] == w0[e],
            extends(q0, queue.events@),
            emitted_below(appended(q0, queue.events@), DespawnReason::Timeout, set, i as int),
        decreases n - i,
    {
        let ghost before = queue.events@;
        let mut found: Option<EntityId> = None;
        proof {
            world.lemma_slots();
        }
        let at = world.entity_at(i);
        if let Some(e) = at {
            let t = world.get(e).unwrap().timeout;
            assert(world@[e] == w0[e]);
            if let Some(t) = t {
                let left = count_down_exec(t.remaining, dt);
                world.attach(e, Component::Timeout(Timeout { remaining: left }));
                assert(world@[e] == target[e]);
                if left <= 0 {
                    queue.despawn(e, DespawnReason::Timeout);
                    found = Some(e);
                }
            } else {
                assert(world@[e] == target[e]);
            }
        }
        proof {
            world.lemma_slots();
            assert forall|x: EntityId| #[trigger] set.contains(x) && x.index == i implies found == Some(x) by {
                assert(world@.contains_key(x));
                assert(at == Some(x));
            }
            lemma_append_step(q0, before, queue.events@, found, DespawnReason::Timeout);
            lemma_emit_step(appended(q0, before), DespawnReason::Timeout, set, i as int, found);
        }
        i = i + 1;
    }
    proof {
        world.lemma_slots();
        assert(world@ =~= target);
        lemma_emit_done(appended(q0, queue.events@), DespawnReason::Timeout, set, n as int);
    }
}

/// Queues an `OutOfBounds` despawn for each positioned entity outside its
/// despawn bounds.
pub fn despawn_bounds_system(world: &World, queue: &mut DespawnEventQueue)
    requires
        world.wf(),
    ensures
        extends(old(queue).events@, final(queue).events@),
        emitted(
            appended(old(queue).events@, final(queue).events@),
            DespawnReason::OutOfBounds,
            out_of_bounds_set(world@),
        ),
{
    let ghost q0 = queue.events@;
    let ghost set = out_of_bounds_set(world@);
    let n = world.slot_count();
    let mut i: usize = 0;
    proof {
        assert(appended(q0, queue.events@) =~= Seq::<DespawnEvent>::empty());
        assert(queue.events@.subrange(0, q0.len() as int) =~= q0);
    }
    while i < n
        invariant
            world.wf(),
            n == world.slot_len(),
            i <= n,
            set == out_of_bounds_set(world@),
            extends(q0, queue.events@),
            emitted_below(appended(q0, queue.events@), DespawnReason::OutOfBounds, set, i as int),
        decreases n - i,
    {
        let ghost before = queue.events@;
        let mut found: Option<EntityId> = None;
        let at = world.entity_at(i);
        if let Some(e) = at {
            let c = world.get(e).unwrap();
            if let (Some(pos), Some(b)) = (c.position, c.despawn_bounds) {
                if !b.contains(pos.x, pos.y) {
                    queue.despawn(e, DespawnReason::OutOfBounds);
                    found = Some(e);
                }
            }
        }
        proof {
            world.lemma_slots();
            assert forall|x: EntityId| #[trigger] set.contains(x) && x.index == i implies found == Some(x) by {
                assert(world@.contains_key(x));
                assert(at == Some(x));
            }
            lemma_append_step(q0, before, queue.events@, found, DespawnReason::OutOfBounds);
            lemma_emit_step(appended(q0, before), DespawnReason::OutOfBounds, set, i as int, found);
        }
        i = i + 1;
    }
    proof {
        world.lemma_slots();
        lemma_emit_done(appended(q0, queue.events@), DespawnReason::OutOfBounds, set, n as int);
    }
}

/// Queues a `Collision` despawn for each entity marked to despawn on
/// collision that has a collision partner.
pub fn despawn_on_collision_system(
    world: &World,
    collisions: &Collisions,
    queue: &mut DespawnEventQueue,
)
    requires
        world.wf(),
    ensures
        extends(old(queue).events@, final(queue).events@),
        emitted(
            appended(old(queue).events@, final(queue).events@),
            DespawnReason::Collision,
            collided_set(world@, collisions@),
        ),
{
    let ghost q0 = queue.events@;
    let ghost set = collided_set(world@, collisions@);
    let n = world.slot_count();
    let mut i: usize = 0;
    proof {
        assert(appended(q0, queue.events@) =~= Seq::<DespawnEvent>::empty());
        assert(queue.events@.subrange(0, q0.len() as int) =~= q0);
    }
    while i < n
        invariant
            world.wf(),
            n == world.slot_len(),
            i <= n,
            set == collided_set(world@, collisions@),
            extends(q0, queue.events@),
            emitted_below(appended(q0, queue.events@), DespawnReason::Collision, set, i as int),
        decreases n - i,
    {
        let ghost before = queue.events@;
        let mut found: Option<EntityId> = None;
        let at = world.entity_at(i);
        if let Some(e) = at {
            let c = world.get(e).unwrap();
            if c.despawn_on_collision && collisions.has_partner(e) {
                queue.despawn(e, DespawnReason::Collision);
                found = Some(e);
            }
        }
        proof {
            world.lemma_slots();
            assert forall|x: EntityId| #[trigger] set.contains(x) && x.index == i implies found == Some(x) by {
                assert(world@.contains_key(x));
                assert(at == Some(x));
            }
            lemma_append_step(q0, before, queue.events@, found, DespawnReason::Collision);
            lemma_emit_step(appended(q0, before), DespawnReason::Collision, set, i as int, found);
        }
        i = i + 1;
    }
    proof {
        world.lemma_slots();
        lemma_emit_done(appended(q0, queue.events@), DespawnReason::Collision, set, n as int);
    }
}

} // verus!
