//! The player's score: an authoritative value and a displayed value that
//! eases toward it.
use vstd::prelude::*;
use crate::components::{Components, EntityId, Tag};
use crate::despawn::DespawnEvent;
use crate::world::World;

verus! {

pub struct PlayerScore {
    current: i32,
    displayed: i32,
    factor: i32,
}

/// `v` held within the range of `i32`.
pub open spec fn clamp_i32(v: int) -> i32 {
    if v < i32::MIN {
        i32::MIN
    } else if v > i32::MAX {
        i32::MAX
    } else {
        v as i32
    }
}

/// The displayed value after one tick: it moves `1 + gap / factor` toward
/// `current`, and stops there rather than overshoot.
pub open spec fn eased(current: int, displayed: int, factor: int) -> int {
    if displayed < current {
        let next = displayed + 1 + (current - displayed) / factor;
        if next > current {
            current
        } else {
            next
        }
    } else if displayed > current {
        let next = displayed - 1 - (displayed - current) / factor;
        if next < current {
            current
        } else {
            next
        }
    } else {
        displayed
    }
}

/// The displayed value after `n` ticks.
pub open spec fn eased_n(current: int, displayed: int, factor: int, n: nat) -> int
    decreases n,
{
    if n == 0 {
        displayed
    } else {
        eased_n(current, eased(current, displayed, factor), factor, (n - 1) as nat)
    }
}

/// A tick never moves the displayed value away from `current` nor past it,
/// moves it by at least one while they differ, and leaves it alone once
/// they agree.
pub proof fn lemma_eased_approaches(current: int, displayed: int, factor: int)
    requires
        factor >= 1,
    ensures
        displayed < current ==> displayed < eased(current, displayed, factor) <= current,
        displayed > current ==> current <= eased(current, displayed, factor) < displayed,
        displayed == current ==> eased(current, displayed, factor) == displayed,
        displayed < current ==> eased(current, displayed, factor) == if current - displayed <= 1 + (
        current - displayed) / factor {
            current
        } else {
            displayed + 1 + (current - displayed) / factor
        },
{
    if displayed < current {
        assert((current - displayed) / factor >= 0) by (nonlinear_arith)
            requires
                current - displayed > 0,
                factor >= 1,
        ;
    }
    if displayed > current {
        assert((displayed - current) / factor >= 0) by (nonlinear_arith)
            requires
                displayed - current > 0,
                factor >= 1,
        ;
    }
}

/// Within as many ticks as the gap is wide, the displayed value reaches
/// `current`, and stays there.
pub proof fn lemma_eased_converges(current: int, displayed: int, factor: int, n: nat)
    requires
        factor >= 1,
        n >= if displayed <= current {
            current - displayed
        } else {
            displayed - current
        },
    ensures
        eased_n(current, displayed, factor, n) == current,
    decreases n,
{
    lemma_eased_approaches(current, displayed, factor);
    if n > 0 {
        lemma_eased_converges(current, eased(current, displayed, factor), factor, (n - 1) as nat);
    }
}

impl PlayerScore {
    /// The authoritative score.
    pub closed spec fn current_spec(&self) -> i32 {
        self.current
    }

    /// The score shown, easing toward `current_spec`.
    pub closed spec fn displayed_spec(&self) -> i32 {
        self.displayed
    }

    /// How slowly the displayed score eases: the larger, the slower.
    pub closed spec fn factor_spec(&self) -> i32 {
        self.factor
    }

    pub open spec fn wf(&self) -> bool {
        self.factor_spec() >= 1
    }

    pub fn new() -> (s: PlayerScore)
        ensures
            s.wf(),
            s.current_spec() == 0,
            s.displayed_spec() == 0,
            s.factor_spec() == 10,
    {
        PlayerScore { current: 0, displayed: 0, factor: 10 }
    }

    /// Zeroes both the score and the displayed score.
    pub fn reset(&mut self)
        requires
            old(self).wf(),
        ensures
            final(self).wf(),
            final(self).current_spec() == 0,
            final(self).displayed_spec() == 0,
            final(self).factor_spec() == old(self).factor_spec(),
    {
        self.current = 0;
        self.displayed = 0;
    }

    /// Zeroes the displayed score, so it counts up to the score again.
    pub fn reset_displayed(&mut self)
        requires
            old(self).wf(),
        ensures
            final(self).wf(),
            final(self).current_spec() == old(self).current_spec(),
            final(self).displayed_spec() == 0,
            final(self).factor_spec() == old(self).factor_spec(),
    {
        self.displayed = 0;
    }

    pub fn get(&self) -> (r: i32)
        ensures
            r == self.current_spec(),
    {
        self.current
    }

    pub fn get_displayed(&self) -> (r: i32)
        ensures
            r == self.displayed_spec(),
    {
        self.displayed
    }

    pub fn set(&mut self, new_score: i32)
        requires
            old(self).wf(),
        ensures
            final(self).wf(),
            final(self).current_spec() == new_score,
            final(self).displayed_spec() == old(self).displayed_spec(),
            final(self).factor_spec() == old(self).factor_spec(),
    {
        self.current = new_score;
    }

    /// Adds `amount`, held within the range of `i32`.
    pub fn increment(&mut self, amount: i32)
        requires
            old(self).wf(),
        ensures
            final(self).wf(),
            final(self).current_spec() == clamp_i32(old(self).current_spec() + amount),
            final(self).displayed_spec() == old(self).displayed_spec(),
            final(self).factor_spec() == old(self).factor_spec(),
    {
        let v: i64 = self.current as i64 + amount as i64;
        self.current = if v > i32::MAX as i64 {
            i32::MAX
        } else if v < i32::MIN as i64 {
            i32::MIN
        } else {
            v as i32
        };
    }

    /// Takes `amount` off; the score does not go below zero.
    pub fn decrement(&mut self, amount: i32)
        requires
            old(self).wf(),
        ensures
            final(self).wf(),
            final(self).current_spec() == (if old(self).current_spec() - amount < 0 {
                0
            } else {
                clamp_i32(old(self).current_spec() - amount)
            }),
            final(self).displayed_spec() == old(self).displayed_spec(),
            final(self).factor_spec() == old(self).factor_spec(),
    {
        let v: i64 = self.current as i64 - amount as i64;
        self.current = if v < 0 {
            0
        } else if v > i32::MAX as i64 {
            i32::MAX
        } else {
            v as i32
        };
    }

    /// Moves the displayed score one tick toward the score.
    pub fn update(&mut self)
        requires
            old(self).wf(),
        ensures
            final(self).wf(),
            final(self).displayed_spec() == eased(
                old(self).current_spec() as int,
                old(self).displayed_spec() as int,
                old(self).factor_spec() as int,
            ),
            final(self).current_spec() == old(self).current_spec(),
            final(self).factor_spec() == old(self).factor_spec(),
    {
        proof {
            lemma_eased_approaches(self.current as int, self.displayed as int, self.factor as int);
        }
        if self.displayed == self.current {
            return;
        }
        let current = self.current as i64;
        let displayed = self.displayed as i64;
        let factor = self.factor as i64;
        if displayed < current {
            let incr = 1 + (current - displayed) / factor;
            assert(((current - displayed) as int) / (factor as int) <= (current - displayed) as int)
                by (nonlinear_arith)
                requires
                    current - displayed > 0,
                    factor >= 1,
            ;
            let next = displayed + incr;
            self.displayed = if next > current {
                self.current
            } else {
                next as i32
            };
        } else {
            let decr = 1 + (displayed - current) / factor;
            assert(((displayed - current) as int) / (factor as int) <= (displayed - current) as int)
                by (nonlinear_arith)
                requires
                    displayed - current > 0,
                    factor >= 1,
            ;
            let next = displayed - decr;
            self.displayed = if next < current {
                self.current
            } else {
                next as i32
            };
        }
    }
}

/// Whether the tags of `hitter` in `w` mark it as the player's or as a
/// player's weapon.
pub open spec fn player_owned(w: Map<EntityId, Components>, hitter: EntityId) -> bool {
    &&& w.contains_key(hitter)
    &&& w[hitter].tags is Some
    &&& (w[hitter].tags->0.tags@.contains(Tag::Player) || w[hitter].tags->0.tags@.contains(
        Tag::PlayerWeapon,
    ))
}

/// The points `ev` earns: those of its entity when the entity was last hurt
/// by something the player owns, otherwise none.
pub open spec fn points_for(w: Map<EntityId, Components>, ev: DespawnEvent) -> Option<i32> {
    let e = ev.entity;
    if w.contains_key(e) && w[e].points_on_last_hit is Some && w[e].health is Some
        && w[e].health->0.last_hurt_by is Some && player_owned(w, w[e].health->0.last_hurt_by->0) {
        w[e].points_on_last_hit
    } else {
        None
    }
}

/// Whether some event of `evs` names `e`.
pub open spec fn names_entity(evs: Seq<DespawnEvent>, e: EntityId) -> bool {
    exists|k: int| 0 <= k < evs.len() && #[trigger] evs[k].entity == e
}

/// The score after crediting the entities despawned by `evs`, in order:
/// an entity named by several events is credited once, at its first.
pub open spec fn credited(score: i32, w: Map<EntityId, Components>, evs: Seq<DespawnEvent>) -> i32
    decreases evs.len(),
{
    if evs.len() == 0 {
        score
    } else {
        let before = credited(score, w, evs.drop_last());
        if names_entity(evs.drop_last(), evs.last().entity) {
            before
        } else {
            match points_for(w, evs.last()) {
                Some(p) => clamp_i32(before + p),
                None => before,
            }
        }
    }
}

/// Whether an event before position `i` of `evs` names the entity of event `i`.
fn named_earlier(evs: &Vec<DespawnEvent>, i: usize) -> (r: bool)
    requires
        i < evs@.len(),
    ensures
        r == names_entity(evs@.subrange(0, i as int), evs@[i as int].entity),
{
    let e = evs[i].entity;
    let mut j: usize = 0;
    while j < i
        invariant
            i < evs@.len(),
            e == evs@[i as int].entity,
            j <= i,
            forall|k: int| 0 <= k < j ==> evs@[k].entity != e,
        decreases i - j,
    {
        if evs[j].entity == e {
            proof {
                assert(evs@.subrange(0, i as int)[j as int].entity == e);
            }
            return true;
        }
        j = j + 1;
    }
    proof {
        if names_entity(evs@.subrange(0, i as int), e) {
            let k = choose|k: int| 0 <= k < i && #[trigger] evs@.subrange(0, i as int)[k].entity == e;
            assert(evs@[k].entity == e);
        }
    }
    false
}

/// Credits the player, once per entity, with the points of every despawning
/// entity that was last hurt by the player or the player's weapons.
pub fn points_on_last_hit_system(world: &World, despawns: &Vec<DespawnEvent>, score: &mut PlayerScore)
    requires
        old(score).wf(),
    ensures
        final(score).wf(),
        final(score).current_spec() == credited(old(score).current_spec(), world@, despawns@),
        final(score).displayed_spec() == old(score).displayed_spec(),
        final(score).factor_spec() == old(score).factor_spec(),
{
    let ghost s0 = score.current_spec();
    let mut i: usize = 0;
    while i < despawns.len()
        invariant
            score.wf(),
            i <= despawns@.len(),
            score.current_spec() == credited(s0, world@, despawns@.subrange(0, i as int)),
            score.displayed_spec() == old(score).displayed_spec(),
            score.factor_spec() == old(score).factor_spec(),
        decreases despawns@.len() - i,
    {
        let ev = despawns[i];
        proof {
            assert(despawns@.subrange(0, i + 1).drop_last() == despawns@.subrange(0, i as int));
        }
        if named_earlier(despawns, i) {
            i = i + 1;
            continue;
        }
        if let Some(c) = world.get(ev.entity) {
            if let (Some(points), Some(health)) = (c.points_on_last_hit, c.health) {
                if let Some(hitter) = health.last_hurt_by {
                    if let Some(hc) = world.get(hitter) {
                        if let Some(tags) = &hc.tags {
                            if tags.has(Tag::Player) || tags.has(Tag::PlayerWeapon) {
                                score.increment(points);
                            }
                        }
                    }
                }
            }
        }
        i = i + 1;
    }
    proof {
        assert(despawns@.subrange(0, despawns@.len() as int) == despawns@);
    }
}

} // verus!
