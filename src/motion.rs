//! Movement: positions advance by their velocities, and bounded positions
//! are held inside their bounds.
use vstd::prelude::*;
use crate::components::{Component, Components, EntityId, Position};
use crate::world::World;

verus! {

/// `v` held within the range of `i32`.
pub open spec fn clamp32(v: int) -> i32 {
    if v < i32::MIN {
        i32::MIN
    } else if v > i32::MAX {
        i32::MAX
    } else {
        v as i32
    }
}

/// The distance covered at `speed` units per second in `dt` milliseconds,
/// rounded toward zero.
pub open spec fn travel(speed: i32, dt: u32) -> int {
    let step = speed * dt;
    if step >= 0 {
        step / 1000
    } else {
        -((-step) / 1000)
    }
}

/// A coordinate after moving at `speed` units per second for `dt` milliseconds.
pub open spec fn advanced(p: i32, speed: i32, dt: u32) -> i32 {
    clamp32(p + travel(speed, dt))
}

pub fn advance_coord(p: i32, speed: i32, dt: u32) -> (r: i32)
    ensures
        r == advanced(p, speed, dt),
{
    assert(-0x8000_0000_0000_0000 <= speed as int * dt as int <= 0x8000_0000_0000_0000)
        by (nonlinear_arith)
        requires
            i32::MIN <= speed <= i32::MAX,
            0 <= dt <= u32::MAX,
    ;
    let step: i128 = speed as i128 * dt as i128;
    let dist: i128 = if step >= 0 {
        step / 1000
    } else {
        -((-step) / 1000)
    };
    let v: i128 = p as i128 + dist;
    if v < i32::MIN as i128 {
        i32::MIN
    } else if v > i32::MAX as i128 {
        i32::MAX
    } else {
        v as i32
    }
}

/// The record after moving for `dt` milliseconds.
pub open spec fn moved(c: Components, dt: u32) -> Components {
    if c.position is Some && c.velocity is Some {
        let p = c.position->0;
        let v = c.velocity->0;
        Components {
            position: Some(
                Position {
                    x: advanced(p.x, v.x, dt),
                    y: advanced(p.y, v.y, dt),
                    r: advanced(p.r, v.r, dt),
                },
            ),
            ..c
        }
    } else {
        c
    }
}

/// The world after every entity has moved for `dt` milliseconds.
pub open spec fn world_moved(w: Map<EntityId, Components>, dt: u32) -> Map<EntityId, Components> {
    Map::new(|e: EntityId| w.contains_key(e), |e: EntityId| moved(w[e], dt))
}

/// Moves every entity with a position and a velocity.
pub fn motion_system(world: &mut World, dt: u32)
    requires
        old(world).wf(),
    ensures
        final(world).wf(),
        final(world)@ == world_moved(old(world)@, dt),
{
    let ghost w0 = world@;
    let ghost target = world_moved(w0, dt);
    let n = world.slot_count();
    let mut i: usize = 0;
    while i < n
        invariant
            world.wf(),
            n == world.slot_len(),
            i <= n,
            world@.dom() == w0.dom(),
            target == world_moved(w0, dt),
            forall|e: EntityId| #[trigger] world@.contains_key(e) && e.index < i ==> world@[e] == target[e],
            forall|e: EntityId| #[trigger] world@.contains_key(e) && e.index >= i ==> world@[e] == w0[e],
        decreases n - i,
    {
        proof {
            world.lemma_slots();
        }
        let at = world.entity_at(i);
        if let Some(e) = at {
            let c = world.get(e).unwrap();
            assert(world@[e] == w0[e]);
            if let (Some(p), Some(v)) = (c.position, c.velocity) {
                let np = Position {
                    x: advance_coord(p.x, v.x, dt),
                    y: advance_coord(p.y, v.y, dt),
                    r: advance_coord(p.r, v.r, dt),
                };
                world.attach(e, Component::Position(np));
            }
            assert(world@[e] == target[e]);
        }
        proof {
            world.lemma_slots();
        }
        i = i + 1;
    }
    proof {
        world.lemma_slots();
        assert(world@ =~= target);
    }
}

/// `v` moved into `[lo, lo + len]`, the low end first when the two cross.
pub open spec fn clamped(v: i32, lo: i32, len: i32) -> i32 {
    if v < lo {
        lo
    } else if v > lo + len {
        clamp32(lo + len)
    } else {
        v
    }
}

pub fn clamp_coord(v: i32, lo: i32, len: i32) -> (r: i32)
    ensures
        r == clamped(v, lo, len),
{
    let hi: i64 = lo as i64 + len as i64;
    if v < lo {
        lo
    } else if v as i64 > hi {
        if hi < i32::MIN as i64 {
            i32::MIN
        } else {
            hi as i32
        }
    } else {
        v
    }
}

/// The record with its position held inside its position bounds.
pub open spec fn bounded(c: Components) -> Components {
    if c.position is Some && c.position_bounds is Some {
        let p = c.position->0;
        let b = c.position_bounds->0;
        Components {
            position: Some(Position { x: clamped(p.x, b.x, b.w), y: clamped(p.y, b.y, b.h), r: p.r }),
            ..c
        }
    } else {
        c
    }
}

/// The world with every bounded position held inside its bounds.
pub open spec fn world_bounded(w: Map<EntityId, Components>) -> Map<EntityId, Components> {
    Map::new(|e: EntityId| w.contains_key(e), |e: EntityId| bounded(w[e]))
}

/// Holds every entity with position bounds inside them.
pub fn position_bounds_system(world: &mut World)
    requires
        old(world).wf(),
    ensures
        final(world).wf(),
        final(world)@ == world_bounded(old(world)@),
        forall|e: EntityId|
            #[trigger] final(world)@.contains_key(e) && final(world)@[e].position is Some
                && final(world)@[e].position_bounds is Some && final(world)@[e].position_bounds->0.w >= 0
                && final(world)@[e].position_bounds->0.h >= 0
                ==> final(world)@[e].position_bounds->0.contains_spec(
                final(world)@[e].position->0.x as int,
                final(world)@[e].position->0.y as int,
            ),
{
    let ghost w0 = world@;
    let ghost target = world_bounded(w0);
    let n = world.slot_count();
    let mut i: usize = 0;
    while i < n
        invariant
            world.wf(),
            n == world.slot_len(),
            i <= n,
            world@.dom() == w0.dom(),
            target == world_bounded(w0),
            forall|e: EntityId| #[trigger] world@.contains_key(e) && e.index < i ==> world@[e] == target[e],
            forall|e: EntityId| #[trigger] world@.contains_key(e) && e.index >= i ==> world@[e] == w0[e],
        decreases n - i,
    {
        proof {
            world.lemma_slots();
        }
        let at = world.entity_at(i);
        if let Some(e) = at {
            let c = world.get(e).unwrap();
            assert(world@[e] == w0[e]);
            if let (Some(p), Some(b)) = (c.position, c.position_bounds) {
                let np = Position { x: clamp_coord(p.x, b.x, b.w), y: clamp_coord(p.y, b.y, b.h), r: p.r };
                world.attach(e, Component::Position(np));
            }
            assert(world@[e] == target[e]);
        }
        proof {
            world.lemma_slots();
        }
        i = i + 1;
    }
    proof {
        world.lemma_slots();
        assert(world@ =~= target);
    }
}

} // verus!
