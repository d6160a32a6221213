//! Damage events: detection from collisions, and resolution into health.
use vstd::prelude::*;
use crate::collision::Collisions;
use crate::components::{Component, Components, EntityId, Health};
use crate::despawn::{
    appended, emitted, emitted_below, extends, lemma_emit_done, lemma_emit_step, DespawnEvent,
    DespawnEventQueue, DespawnReason,
};
use crate::world::World;

verus! {

broadcast use vstd::seq_lib::lemma_seq_contains_after_push;

#[derive(Clone, Copy, PartialEq, Eq, Structural, Debug)]
pub enum DamagePolarity {
    Hurt,
    Heal,
}

/// `amount` is taken off the health of `to`; a heal carries a negative amount.
#[derive(Clone, Copy, PartialEq, Eq, Structural, Debug)]
pub struct DamageEvent {
    pub from: EntityId,
    pub to: EntityId,
    pub amount: i32,
    pub polarity: DamagePolarity,
}

/// Damage dealt during a frame, applied and emptied by the health system.
pub struct DamageEventQueue {
    pub events: Vec<DamageEvent>,
}

impl DamageEventQueue {
    pub fn new() -> (q: DamageEventQueue)
        ensures
            q.events@ == Seq::<DamageEvent>::empty(),
    {
        DamageEventQueue { events: Vec::new() }
    }

    /// Queues `amount` of damage dealt by `from` to `to`.
    pub fn hurt(&mut self, from: EntityId, to: EntityId, amount: i32)
        ensures
            final(self).events@ == old(self).events@.push(
                DamageEvent { from, to, amount, polarity: DamagePolarity::Hurt },
            ),
    {
        self.events.push(DamageEvent { from, to, amount, polarity: DamagePolarity::Hurt });
    }

    /// Queues `amount` of damage dealt by each of `a` and `b` to the other.
    pub fn hurt_mutual(&mut self, a: EntityId, b: EntityId, amount: i32)
        ensures
            final(self).events@ == old(self).events@.push(
                DamageEvent { from: a, to: b, amount, polarity: DamagePolarity::Hurt },
            ).push(DamageEvent { from: b, to: a, amount, polarity: DamagePolarity::Hurt }),
    {
        self.hurt(a, b, amount);
        self.hurt(b, a, amount);
    }

    /// Queues `amount` of healing given by `from` to `to`.
    pub fn heal(&mut self, from: EntityId, to: EntityId, amount: i32)
        requires
            amount > i32::MIN,
        ensures
            final(self).events@ == old(self).events@.push(
                DamageEvent { from, to, amount: (-amount) as i32, polarity: DamagePolarity::Heal },
            ),
    {
        self.events.push(DamageEvent { from, to, amount: -amount, polarity: DamagePolarity::Heal });
    }

    pub fn len(&self) -> (n: usize)
        ensures
            n == self.events@.len(),
    {
        self.events.len()
    }

    pub fn clear(&mut self)
        ensures
            final(self).events@ == Seq::<DamageEvent>::empty(),
    {
        self.events.clear();
    }
}

/// Whether `v` holds `x`.
pub fn contains_entity(v: &Vec<EntityId>, x: EntityId) -> (r: bool)
    ensures
        r == v@.contains(x),
{
    let mut i: usize = 0;
    while i < v.len()
        invariant
            i <= v@.len(),
            forall|k: int| 0 <= k < i ==> v@[k] != x,
        decreases v@.len() - i,
    {
        if v[i] == x {
            assert(v@[i as int] == x);
            return true;
        }
        i = i + 1;
    }
    false
}

/// Whether `e` deals collision damage to its partner `b`: `e` carries
/// damage-on-collision, collides with `b`, and does not exclude it.
pub open spec fn hits(w: Map<EntityId, Components>, c: Set<(EntityId, EntityId)>, e: EntityId, b: EntityId) -> bool {
    &&& w.contains_key(e)
    &&& w[e].damage_on_collision is Some
    &&& c.contains((e, b))
    &&& !w[e].damage_on_collision->0.exclude@.contains(b)
}

/// The damage events that `hits` calls for: one per hit, each dealing the
/// hitter's damage, and no two for the same pair.
pub open spec fn hit_events(
    evs: Seq<DamageEvent>,
    w: Map<EntityId, Components>,
    c: Set<(EntityId, EntityId)>,
) -> bool {
    &&& (forall|k: int|
        #![trigger evs[k]]
        0 <= k < evs.len() ==> {
            &&& hits(w, c, evs[k].from, evs[k].to)
            &&& evs[k].amount == w[evs[k].from].damage_on_collision->0.damage
            &&& evs[k].polarity == DamagePolarity::Hurt
        })
    &&& (forall|e: EntityId, b: EntityId|
        #[trigger] hits(w, c, e, b) ==> exists|k: int|
            0 <= k < evs.len() && evs[k].from == e && evs[k].to == b)
    &&& (forall|k: int, l: int|
        0 <= k < l < evs.len() ==> (evs[k].from, evs[k].to) != (evs[l].from, evs[l].to))
}

/// The self-despawns that hits call for: each names a hitter whose
/// damage-on-collision despawns it, and every such hitter is named.
pub open spec fn self_destructs(
    evs: Seq<DespawnEvent>,
    w: Map<EntityId, Components>,
    c: Set<(EntityId, EntityId)>,
) -> bool {
    &&& (forall|k: int|
        #![trigger evs[k]]
        0 <= k < evs.len() ==> {
            &&& evs[k].reason == DespawnReason::SelfDestruct
            &&& exists|b: EntityId| hits(w, c, evs[k].entity, b)
            &&& w[evs[k].entity].damage_on_collision->0.despawn
        })
    &&& (forall|e: EntityId, b: EntityId|
        #[trigger] hits(w, c, e, b) && w[e].damage_on_collision->0.despawn ==> exists|k: int|
            0 <= k < evs.len() && evs[k].entity == e)
}

/// For every collision partner of an entity carrying damage-on-collision
/// and not in its exclusion list, queues a damage event, and a despawn of
/// the hitter when it is set to despawn on a hit.
pub fn damage_on_collision_system(
    world: &World,
    collisions: &Collisions,
    damages: &mut DamageEventQueue,
    despawns: &mut DespawnEventQueue,
)
    requires
        world.wf(),
        collisions.wf(),
    ensures
        final(damages).events@.len() >= old(damages).events@.len(),
        final(damages).events@.subrange(0, old(damages).events@.len() as int)
            == old(damages).events@,
        hit_events(
            final(damages).events@.subrange(
                old(damages).events@.len() as int,
                final(damages).events@.len() as int,
            ),
            world@,
            collisions@,
        ),
        extends(old(despawns).events@, final(despawns).events@),
        self_destructs(appended(old(despawns).events@, final(despawns).events@), world@, collisions@),
{
    let ghost w = world@;
    let ghost c = collisions@;
    let ghost d0 = damages.events@;
    let ghost s0 = despawns.events@;
    let n = world.slot_count();
    let mut i: usize = 0;
    proof {
        assert(damages.events@.subrange(d0.len() as int, damages.events@.len() as int) =~= Seq::<
            DamageEvent,
        >::empty());
        assert(damages.events@.subrange(0, d0.len() as int) =~= d0);
        assert(appended(s0, despawns.events@) =~= Seq::<DespawnEvent>::empty());
        assert(despawns.events@.subrange(0, s0.len() as int) =~= s0);
    }
    while i < n
        invariant
            world.wf(),
            collisions.wf(),
            w == world@,
            c == collisions@,
            n == world.slot_len(),
            i <= n,
            damages.events@.len() >= d0.len(),
            damages.events@.subrange(0, d0.len() as int) == d0,
            extends(s0, despawns.events@),
            forall|k: int|
                #![trigger damages.events@[k]]
                d0.len() <= k < damages.events@.len() ==> {
                    &&& hits(w, c, damages.events@[k].from, damages.events@[k].to)
                    &&& damages.events@[k].amount == w[damages.events@[k].from].damage_on_collision->0.damage
                    &&& damages.events@[k].polarity == DamagePolarity::Hurt
                    &&& damages.events@[k].from.index < i
                },
            forall|e: EntityId, b: EntityId|
                #[trigger] hits(w, c, e, b) && e.index < i ==> exists|k: int|
                    d0.len() <= k < damages.events@.len() && damages.events@[k].from == e
                        && damages.events@[k].to == b,
            forall|k: int, l: int|
                d0.len() <= k < l < damages.events@.len() ==> (
                damages.events@[k].from,
                damages.events@[k].to,
            ) != (damages.events@[l].from, damages.events@[l].to),
            forall|k: int|
                #![trigger despawns.events@[k]]
                s0.len() <= k < despawns.events@.len() ==> {
                    &&& despawns.events@[k].reason == DespawnReason::SelfDestruct
                    &&& exists|b: EntityId| hits(w, c, despawns.events@[k].entity, b)
                    &&& w[despawns.events@[k].entity].damage_on_collision->0.despawn
                },
            forall|e: EntityId, b: EntityId|
                #[trigger] hits(w, c, e, b) && w[e].damage_on_collision->0.despawn && e.index < i
                    ==> exists|k: int|
                    s0.len() <= k < despawns.events@.len() && despawns.events@[k].entity == e,
        decreases n - i,
    {
        let at = world.entity_at(i);
        proof {
            world.lemma_slots();
        }
        if let Some(e) = at {
            let rec = world.get(e).unwrap();
            if let Some(doc) = &rec.damage_on_collision {
                let partners = collisions.partners(e);
                let ghost d1 = damages.events@;
                let mut j: usize = 0;
                while j < partners.len()
                    invariant
                        world.wf(),
                        w == world@,
                        c == collisions@,
                        n == world.slot_len(),
                        i < n,
                        e.index == i,
                        w.contains_key(e),
                        w[e].damage_on_collision == Some(*doc),
                        partners@.no_duplicates(),
                        forall|b: EntityId| partners@.contains(b) <==> c.contains((e, b)),
                        j <= partners@.len(),
                        d1.len() >= d0.len(),
                        damages.events@.len() >= d1.len(),
                        damages.events@.subrange(0, d1.len() as int) == d1,
                        d1.subrange(0, d0.len() as int) == d0,
                        extends(s0, despawns.events@),
                        forall|k: int|
                            #![trigger d1[k]]
                            d0.len() <= k < d1.len() ==> d1[k].from.index < i,
                        forall|k: int|
                            #![trigger damages.events@[k]]
                            d0.len() <= k < damages.events@.len() ==> {
                                &&& hits(w, c, damages.events@[k].from, damages.events@[k].to)
                                &&& damages.events@[k].amount == w[damages.events@[k].from].damage_on_collision->0.damage
                                &&& damages.events@[k].polarity == DamagePolarity::Hurt
                                &&& damages.events@[k].from.index < i + 1
                            },
                        forall|k: int|
                            #![trigger damages.events@[k]]
                            d1.len() <= k < damages.events@.len() ==> damages.events@[k].from == e
                                && partners@.subrange(0, j as int).contains(damages.events@[k].to),
                        forall|k: int|
                            #![trigger damages.events@[k]]
                            d0.len() <= k < d1.len() ==> damages.events@[k] == d1[k],
                        forall|eb: EntityId, b: EntityId|
                            #[trigger] hits(w, c, eb, b) && eb.index < i ==> exists|k: int|
                                d0.len() <= k < damages.events@.len() && damages.events@[k].from
                                    == eb && damages.events@[k].to == b,
                        forall|b: EntityId|
                            #[trigger] hits(w, c, e, b) && partners@.subrange(0, j as int).contains(b)
                                ==> exists|k: int|
                                d0.len() <= k < damages.events@.len() && damages.events@[k].from
                                    == e && damages.events@[k].to == b,
                        forall|k: int, l: int|
                            d0.len() <= k < l < damages.events@.len() ==> (
                            damages.events@[k].from,
                            damages.events@[k].to,
                        ) != (damages.events@[l].from, damages.events@[l].to),
                        forall|k: int|
                            #![trigger despawns.events@[k]]
                            s0.len() <= k < despawns.events@.len() ==> {
                                &&& despawns.events@[k].reason == DespawnReason::SelfDestruct
                                &&& exists|b: EntityId| hits(w, c, despawns.events@[k].entity, b)
                                &&& w[despawns.events@[k].entity].damage_on_collision->0.despawn
                            },
                        forall|eb: EntityId, b: EntityId|
                            #[trigger] hits(w, c, eb, b) && w[eb].damage_on_collision->0.despawn
                                && eb.index < i ==> exists|k: int|
                                s0.len() <= k < despawns.events@.len()
                                    && despawns.events@[k].entity == eb,
                        forall|b: EntityId|
                            #[trigger] hits(w, c, e, b) && doc.despawn && partners@.subrange(
                                0,
                                j as int,
                            ).contains(b) ==> exists|k: int|
                                s0.len() <= k < despawns.events@.len()
                                    && despawns.events@[k].entity == e,
                    decreases partners@.len() - j,
                {
                    let b = partners[j];
                    proof {
                        assert(partners@.subrange(0, j + 1) == partners@.subrange(0, j as int).push(b));
                        assert(partners@.contains(b));
                        if partners@.subrange(0, j as int).contains(b) {
                            let k = choose|k: int| 0 <= k < j && partners@.subrange(0, j as int)[k] == b;
                            assert(partners@[k] == partners@[j as int]);
                        }
                    }
                    let ghost dd = damages.events@;
                    let ghost ss = despawns.events@;
                    if !contains_entity(&doc.exclude, b) {
                        proof {
                            assert(hits(w, c, e, b));
                        }
                        if doc.despawn {
                            despawns.despawn(e, DespawnReason::SelfDestruct);
                            proof {
                                assert(despawns.events@[despawns.events@.len() - 1].entity == e);
                                assert forall|k: int|
                                    #![trigger despawns.events@[k]]
                                    s0.len() <= k < despawns.events@.len() implies {
                                        &&& despawns.events@[k].reason == DespawnReason::SelfDestruct
                                        &&& exists|bb: EntityId| hits(w, c, despawns.events@[k].entity, bb)
                                        &&& w[despawns.events@[k].entity].damage_on_collision->0.despawn
                                    } by {
                                    if k < ss.len() {
                                        assert(despawns.events@[k] == ss[k]);
                                    } else {
                                        assert(hits(w, c, despawns.events@[k].entity, b));
                                    }
                                }
                                assert(despawns.events@.subrange(0, s0.len() as int) =~= ss.subrange(0, s0.len() as int));
                                assert forall|eb: EntityId, bb: EntityId|
                                    #[trigger] hits(w, c, eb, bb) && w[eb].damage_on_collision->0.despawn
                                        && eb.index < i implies exists|k: int|
                                        s0.len() <= k < despawns.events@.len()
                                            && despawns.events@[k].entity == eb by {
                                    let k = choose|k: int| s0.len() <= k < ss.len() && ss[k].entity == eb;
                                    assert(despawns.events@[k] == ss[k]);
                                }
                                assert forall|bb: EntityId|
                                    #[trigger] hits(w, c, e, bb) && doc.despawn && partners@.subrange(
                                        0,
                                        j + 1,
                                    ).contains(bb) implies exists|k: int|
                                        s0.len() <= k < despawns.events@.len()
                                            && despawns.events@[k].entity == e by {
                                    assert(despawns.events@[despawns.events@.len() - 1].entity == e);
                                }
                            }
                        }
                        damages.hurt(e, b, doc.damage);
                        proof {
                            let last = damages.events@.len() - 1;
                            assert(damages.events@[last] == DamageEvent { from: e, to: b, amount: doc.damage, polarity: DamagePolarity::Hurt });
                            assert forall|k: int|
                                #![trigger damages.events@[k]]
                                0 <= k < dd.len() implies damages.events@[k] == dd[k] by {}
                            assert(damages.events@.subrange(0, d1.len() as int) =~= dd.subrange(0, d1.len() as int));
                            assert forall|k: int, l: int|
                                d0.len() <= k < l < damages.events@.len() implies (
                                damages.events@[k].from,
                                damages.events@[k].to,
                            ) != (damages.events@[l].from, damages.events@[l].to) by {
                                if l == last {
                                    if k < d1.len() {
                                        assert(damages.events@[k] == d1[k]);
                                        assert(d1[k].from.index < i);
                                    } else {
                                        assert(partners@.subrange(0, j as int).contains(dd[k].to));
                                    }
                                } else {
                                    assert(damages.events@[k] == dd[k]);
                                    assert(damages.events@[l] == dd[l]);
                                }
                            }
                            assert forall|eb: EntityId, bb: EntityId|
                                #[trigger] hits(w, c, eb, bb) && eb.index < i implies exists|k: int|
                                    d0.len() <= k < damages.events@.len() && damages.events@[k].from
                                        == eb && damages.events@[k].to == bb by {
                                let k = choose|k: int|
                                    d0.len() <= k < dd.len() && dd[k].from == eb && dd[k].to == bb;
                                assert(damages.events@[k] == dd[k]);
                            }
                            assert forall|bb: EntityId|
                                #[trigger] hits(w, c, e, bb) && partners@.subrange(0, j + 1).contains(bb)
                                    implies exists|k: int|
                                    d0.len() <= k < damages.events@.len() && damages.events@[k].from
                                        == e && damages.events@[k].to == bb by {
                                if bb == b {
                                    assert(damages.events@[last].from == e);
                                } else {
                                    assert(partners@.subrange(0, j as int).contains(bb));
                                    let k = choose|k: int|
                                        d0.len() <= k < dd.len() && dd[k].from == e && dd[k].to == bb;
                                    assert(damages.events@[k] == dd[k]);
                                }
                            }
                            assert forall|k: int|
                                #![trigger damages.events@[k]]
                                d1.len() <= k < damages.events@.len() implies damages.events@[k].from == e
                                    && partners@.subrange(0, j + 1).contains(damages.events@[k].to) by {
                                if k < last {
                                    assert(damages.events@[k] == dd[k]);
                                    assert(partners@.subrange(0, j as int).contains(dd[k].to));
                                }
                            }
                        }
                    } else {
                        proof {
                            assert forall|bb: EntityId|
                                #[trigger] hits(w, c, e, bb) && partners@.subrange(0, j + 1).contains(bb)
                                    implies exists|k: int|
                                    d0.len() <= k < damages.events@.len() && damages.events@[k].from
                                        == e && damages.events@[k].to == bb by {
                                if bb != b {
                                    assert(partners@.subrange(0, j as int).contains(bb));
                                }
                            }
                            assert forall|bb: EntityId|
                                #[trigger] hits(w, c, e, bb) && doc.despawn && partners@.subrange(
                                    0,
                                    j + 1,
                                ).contains(bb) implies exists|k: int|
                                    s0.len() <= k < despawns.events@.len()
                                        && despawns.events@[k].entity == e by {
                                if bb != b {
                                    assert(partners@.subrange(0, j as int).contains(bb));
                                }
                            }
                            assert forall|k: int|
                                #![trigger damages.events@[k]]
                                d1.len() <= k < damages.events@.len() implies damages.events@[k].from == e
                                    && partners@.subrange(0, j + 1).contains(damages.events@[k].to) by {
                                assert(partners@.subrange(0, j as int).contains(dd[k].to));
                            }
                        }
                    }
                    j = j + 1;
                }
                proof {
                    assert(partners@.subrange(0, partners@.len() as int) == partners@);
                    assert forall|k: int| d0.len() <= k < damages.events@.len() implies #[trigger] damages.events@[k].from.index < i + 1 by {}
                    assert(damages.events@.subrange(0, d0.len() as int) =~= d1.subrange(0, d0.len() as int));
                }
            }
        }
        proof {
            world.lemma_slots();
            assert forall|eb: EntityId, b: EntityId|
                #[trigger] hits(w, c, eb, b) && eb.index < i + 1 implies exists|k: int|
                    d0.len() <= k < damages.events@.len() && damages.events@[k].from == eb
                        && damages.events@[k].to == b by {
                if eb.index == i {
                    assert(at == Some(eb));
                    assert(collisions@.contains((eb, b)));
                }
            }
            assert forall|eb: EntityId, b: EntityId|
                #[trigger] hits(w, c, eb, b) && w[eb].damage_on_collision->0.despawn && eb.index < i + 1
                    implies exists|k: int|
                    s0.len() <= k < despawns.events@.len() && despawns.events@[k].entity == eb by {
                if eb.index == i {
                    assert(at == Some(eb));
                    assert(collisions@.contains((eb, b)));
                }
            }
        }
        i = i + 1;
    }
    proof {
        world.lemma_slots();
        let new = damages.events@.subrange(d0.len() as int, damages.events@.len() as int);
        assert forall|k: int| #![trigger new[k]] 0 <= k < new.len() implies {
            &&& hits(w, c, new[k].from, new[k].to)
            &&& new[k].amount == w[new[k].from].damage_on_collision->0.damage
            &&& new[k].polarity == DamagePolarity::Hurt
        } by {
            assert(new[k] == damages.events@[k + d0.len()]);
        }
        assert forall|e: EntityId, b: EntityId| #[trigger] hits(w, c, e, b) implies exists|k: int|
            0 <= k < new.len() && new[k].from == e && new[k].to == b by {
            let k = choose|k: int|
                d0.len() <= k < damages.events@.len() && damages.events@[k].from == e
                    && damages.events@[k].to == b;
            assert(new[k - d0.len()] == damages.events@[k]);
        }
        assert forall|k: int, l: int| 0 <= k < l < new.len() implies (new[k].from, new[k].to) != (
        new[l].from, new[l].to) by {
            assert(new[k] == damages.events@[k + d0.len()]);
            assert(new[l] == damages.events@[l + d0.len()]);
        }
        let sd = appended(s0, despawns.events@);
        assert forall|k: int| #![trigger sd[k]] 0 <= k < sd.len() implies {
            &&& sd[k].reason == DespawnReason::SelfDestruct
            &&& exists|b: EntityId| hits(w, c, sd[k].entity, b)
            &&& w[sd[k].entity].damage_on_collision->0.despawn
        } by {
            assert(sd[k] == despawns.events@[k + s0.len()]);
        }
        assert forall|e: EntityId, b: EntityId|
            #[trigger] hits(w, c, e, b) && w[e].damage_on_collision->0.despawn implies exists|k: int|
            0 <= k < sd.len() && sd[k].entity == e by {
            let k = choose|k: int|
                s0.len() <= k < despawns.events@.len() && despawns.events@[k].entity == e;
            assert(sd[k - s0.len()] == despawns.events@[k]);
        }
    }
}

/// `h` after taking the damage of `ev`, which also records who dealt it.
pub open spec fn damaged(h: Health, ev: DamageEvent) -> Health {
    match ev.polarity {
        DamagePolarity::Hurt => Health {
            health: Health::minus(h.health, ev.amount),
            last_hurt_by: Some(ev.from),
            ..h
        },
        DamagePolarity::Heal => Health {
            health: Health::minus(h.health, ev.amount),
            last_healed_by: Some(ev.from),
            ..h
        },
    }
}

/// The world after `ev`: its target's health takes the damage, if the
/// target is live and has health.
pub open spec fn apply_event(w: Map<EntityId, Components>, ev: DamageEvent) -> Map<EntityId, Components> {
    if w.contains_key(ev.to) && w[ev.to].health is Some {
        w.insert(ev.to, Components { health: Some(damaged(w[ev.to].health->0, ev)), ..w[ev.to] })
    } else {
        w
    }
}

/// The world after the events of `evs`, in order.
pub open spec fn apply_events(w: Map<EntityId, Components>, evs: Seq<DamageEvent>) -> Map<EntityId, Components>
    decreases evs.len(),
{
    if evs.len() == 0 {
        w
    } else {
        apply_event(apply_events(w, evs.drop_last()), evs.last())
    }
}

/// The entities of `w` whose health is used up.
pub open spec fn dead_set(w: Map<EntityId, Components>) -> Set<EntityId> {
    Set::new(|e: EntityId| w.contains_key(e) && w[e].health is Some && w[e].health->0.health <= 0)
}

/// Applies every queued damage event to its target's health, empties the
/// queue, then queues a `Health` despawn for each entity whose health is
/// used up.
pub fn health_system(
    world: &mut World,
    damages: &mut DamageEventQueue,
    despawns: &mut DespawnEventQueue,
)
    requires
        old(world).wf(),
    ensures
        final(world).wf(),
        final(world)@ == apply_events(old(world)@, old(damages).events@),
        final(damages).events@ == Seq::<DamageEvent>::empty(),
        extends(old(despawns).events@, final(despawns).events@),
        emitted(
            appended(old(despawns).events@, final(despawns).events@),
            DespawnReason::Health,
            dead_set(final(world)@),
        ),
{
    let ghost w0 = world@;
    let ghost evs = damages.events@;
    let mut i: usize = 0;
    while i < damages.events.len()
        invariant
            world.wf(),
            evs == damages.events@,
            i <= evs.len(),
            world@ == apply_events(w0, evs.subrange(0, i as int)),
        decreases evs.len() - i,
    {
        let ev = damages.events[i];
        proof {
            assert(evs.subrange(0, i + 1).drop_last() == evs.subrange(0, i as int));
        }
        if let Some(c) = world.get(ev.to) {
            if let Some(h) = c.health {
                let mut nh = h;
                match ev.polarity {
                    DamagePolarity::Hurt => nh.hurt(ev.amount, ev.from),
                    DamagePolarity::Heal => {
                        nh.health = Health::sub_clamped(h.health, ev.amount);
                        nh.last_healed_by = Some(ev.from);
                    },
                }
                world.attach(ev.to, Component::Health(nh));
            }
        }
        proof {
            assert(world@ =~= apply_event(apply_events(w0, evs.subrange(0, i as int)), ev));
        }
        i = i + 1;
    }
    proof {
        assert(evs.subrange(0, evs.len() as int) == evs);
    }
    damages.clear();
    let ghost w1 = world@;
    let ghost s0 = despawns.events@;
    let ghost set = dead_set(w1);
    let n = world.slot_count();
    let mut i: usize = 0;
    proof {
        assert(appended(s0, despawns.events@) =~= Seq::<DespawnEvent>::empty());
        assert(despawns.events@.subrange(0, s0.len() as int) =~= s0);
    }
    while i < n
        invariant
            world.wf(),
            w1 == world@,
            set == dead_set(w1),
            n == world.slot_len(),
            i <= n,
            extends(s0, despawns.events@),
            emitted_below(appended(s0, despawns.events@), DespawnReason::Health, set, i as int),
        decreases n - i,
    {
        let ghost before = despawns.events@;
        let mut found: Option<EntityId> = None;
        let at = world.entity_at(i);
        if let Some(e) = at {
            if let Some(h) = world.get(e).unwrap().health {
                if h.health <= 0 {
                    despawns.despawn(e, DespawnReason::Health);
                    found = Some(e);
                }
            }
        }
        proof {
            world.lemma_slots();
            assert forall|x: EntityId| #[trigger] set.contains(x) && x.index == i implies found == Some(x) by {
                assert(world@.contains_key(x));
                assert(at == Some(x));
            }
            assert(despawns.events@.subrange(0, s0.len() as int) =~= before.subrange(0, s0.len() as int));
            assert(appended(s0, despawns.events@) =~= (if found is Some {
                appended(s0, before).push(DespawnEvent { entity: found->0, reason: DespawnReason::Health })
            } else {
                appended(s0, before)
            }));
            lemma_emit_step(appended(s0, before), DespawnReason::Health, set, i as int, found);
        }
        i = i + 1;
    }
    proof {
        world.lemma_slots();
        lemma_emit_done(appended(s0, despawns.events@), DespawnReason::Health, set, n as int);
    }
}

/// Resolving an empty damage queue leaves the world unchanged.
pub proof fn lemma_empty_queue_changes_nothing(w: Map<EntityId, Components>)
    ensures
        apply_events(w, Seq::<DamageEvent>::empty()) == w,
{
}

} // verus!
