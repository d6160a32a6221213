//! Circular overlap tests and the per-frame collision adjacency.
use vstd::prelude::*;
use crate::components::{ComponentKind, Components, EntityId};
use crate::world::World;
use crate::seq_facts::lemma_push_no_duplicates;

verus! {

broadcast use vstd::seq_lib::lemma_seq_contains_after_push;

/// Two circles of diameters `sa` and `sb`, centred at `(ax, ay)` and
/// `(bx, by)`, overlap when the squared distance between the centres is at
/// most the squared half-sum of the diameters (both sides times four).
pub open spec fn overlaps(ax: int, ay: int, sa: int, bx: int, by: int, sb: int) -> bool {
    4 * ((bx - ax) * (bx - ax) + (by - ay) * (by - ay)) <= (sa + sb) * (sa + sb)
}

/// Whether the record has both a position and a collidable extent.
pub open spec fn solid(c: Components) -> bool {
    c.position is Some && c.collidable is Some
}

/// Whether the solid record `c` overlaps a circle of diameter `size` at `(x, y)`.
pub open spec fn overlaps_record(c: Components, x: int, y: int, size: int) -> bool {
    overlaps(
        c.position->0.x as int,
        c.position->0.y as int,
        c.collidable->0.size as int,
        x,
        y,
        size,
    )
}

/// Whether `a` and `b` are distinct solid entities of `w` whose extents overlap.
pub open spec fn collides(w: Map<EntityId, Components>, a: EntityId, b: EntityId) -> bool {
    &&& a != b
    &&& w.contains_key(a)
    &&& w.contains_key(b)
    &&& solid(w[a])
    &&& solid(w[b])
    &&& overlaps_record(
        w[a],
        w[b].position->0.x as int,
        w[b].position->0.y as int,
        w[b].collidable->0.size as int,
    )
}

/// The overlap test is the same in both directions.
pub proof fn lemma_overlaps_symmetric(ax: int, ay: int, sa: int, bx: int, by: int, sb: int)
    ensures
        overlaps(ax, ay, sa, bx, by, sb) == overlaps(bx, by, sb, ax, ay, sa),
{
    assert((bx - ax) * (bx - ax) == (ax - bx) * (ax - bx)) by (nonlinear_arith);
    assert((by - ay) * (by - ay) == (ay - by) * (ay - by)) by (nonlinear_arith);
    assert((sa + sb) * (sa + sb) == (sb + sa) * (sb + sa));
}

pub fn overlap(ax: i32, ay: i32, sa: u32, bx: i32, by: i32, sb: u32) -> (r: bool)
    ensures
        r == overlaps(ax as int, ay as int, sa as int, bx as int, by as int, sb as int),
{
    let dx: i128 = bx as i128 - ax as i128;
    let dy: i128 = by as i128 - ay as i128;
    let s: i128 = sa as i128 + sb as i128;
    assert(0 <= dx * dx <= 0x1_0000_0000_0000_0000) by (nonlinear_arith)
        requires
            -0x1_0000_0000 <= dx <= 0x1_0000_0000,
    ;
    assert(0 <= dy * dy <= 0x1_0000_0000_0000_0000) by (nonlinear_arith)
        requires
            -0x1_0000_0000 <= dy <= 0x1_0000_0000,
    ;
    assert(0 <= s * s <= 0x4_0000_0000_0000_0000) by (nonlinear_arith)
        requires
            0 <= s <= 0x2_0000_0000,
    ;
    4 * (dx * dx + dy * dy) <= s * s
}

/// The symmetric adjacency between overlapping entities, rebuilt every frame.
pub struct Collisions {
    pairs: Vec<(EntityId, EntityId)>,
}

impl View for Collisions {
    type V = Set<(EntityId, EntityId)>;

    /// The recorded pairs `(a, b)`: `b` is a collision partner of `a`.
    closed spec fn view(&self) -> Set<(EntityId, EntityId)> {
        self.pairs@.to_set()
    }
}

impl Collisions {
    pub closed spec fn wf(&self) -> bool {
        self.pairs@.no_duplicates()
    }

    pub fn new() -> (c: Collisions)
        ensures
            c.wf(),
            c@ == Set::<(EntityId, EntityId)>::empty(),
    {
        let c = Collisions { pairs: Vec::new() };
        assert(c@ =~= Set::<(EntityId, EntityId)>::empty());
        c
    }

    pub fn clear(&mut self)
        ensures
            final(self).wf(),
            final(self)@ == Set::<(EntityId, EntityId)>::empty(),
    {
        self.pairs.clear();
        assert(self@ =~= Set::<(EntityId, EntityId)>::empty());
    }

    pub fn contains(&self, a: EntityId, b: EntityId) -> (r: bool)
        ensures
            r == self@.contains((a, b)),
    {
        let mut i: usize = 0;
        while i < self.pairs.len()
            invariant
                i <= self.pairs@.len(),
                forall|k: int| 0 <= k < i ==> self.pairs@[k] != (a, b),
            decreases self.pairs@.len() - i,
        {
            let p = self.pairs[i];
            if p.0 == a && p.1 == b {
                assert(self.pairs@[i as int] == (a, b));
                return true;
            }
            i = i + 1;
        }
        false
    }

    fn push_new(&mut self, a: EntityId, b: EntityId)
        requires
            old(self).wf(),
        ensures
            final(self).wf(),
            final(self)@ == old(self)@.insert((a, b)),
    {
        if !self.contains(a, b) {
            self.pairs.push((a, b));
            proof {
                assert(self.pairs@ == old(self).pairs@.push((a, b)));
                assert forall|i: int, j: int|
                    0 <= i < self.pairs@.len() && 0 <= j < self.pairs@.len() && i != j implies
                    self.pairs@[i] != self.pairs@[j] by {
                    if i < old(self).pairs@.len() && j < old(self).pairs@.len() {
                    } else if i == old(self).pairs@.len() {
                        assert(old(self).pairs@.contains(self.pairs@[j]) ==> old(self)@.contains(
                            self.pairs@[j],
                        ));
                    } else {
                        assert(old(self).pairs@[i] == self.pairs@[i]);
                    }
                }
            }
        }
        assert(self@ =~= old(self)@.insert((a, b)));
    }

    /// Records that `a` and `b` overlap, in both directions.
    pub fn insert(&mut self, a: EntityId, b: EntityId)
        requires
            old(self).wf(),
        ensures
            final(self).wf(),
            final(self)@ == old(self)@.insert((a, b)).insert((b, a)),
    {
        self.push_new(a, b);
        self.push_new(b, a);
    }

    /// Forgets the overlap of `a` and `b`, in both directions.
    pub fn remove(&mut self, a: EntityId, b: EntityId)
        requires
            old(self).wf(),
        ensures
            final(self).wf(),
            final(self)@ == old(self)@.remove((a, b)).remove((b, a)),
    {
        let mut kept: Vec<(EntityId, EntityId)> = Vec::new();
        let mut i: usize = 0;
        while i < self.pairs.len()
            invariant
                self.wf(),
                i <= self.pairs@.len(),
                kept@.no_duplicates(),
                forall|p: (EntityId, EntityId)|
                    kept@.contains(p) <==> self.pairs@.subrange(0, i as int).contains(p) && p != (
                    a,
                    b,
                ) && p != (b, a),
            decreases self.pairs@.len() - i,
        {
            let p = self.pairs[i];
            proof {
                assert(self.pairs@.subrange(0, i + 1) == self.pairs@.subrange(0, i as int).push(p));
                if self.pairs@.subrange(0, i as int).contains(p) {
                    let k = choose|k: int| 0 <= k < i && self.pairs@.subrange(0, i as int)[k] == p;
                    assert(self.pairs@[k] == self.pairs@[i as int]);
                }
            }
            if !((p.0 == a && p.1 == b) || (p.0 == b && p.1 == a)) {
                proof {
                    lemma_push_no_duplicates(kept@, p);
                }
                kept.push(p);
            }
            i = i + 1;
        }
        self.pairs = kept;
        proof {
            assert(old(self).pairs@.subrange(0, old(self).pairs@.len() as int) == old(self).pairs@);
        }
        assert(self@ =~= old(self)@.remove((a, b)).remove((b, a)));
    }

    /// Whether `e` has at least one collision partner.
    pub fn has_partner(&self, e: EntityId) -> (r: bool)
        ensures
            r == exists|b: EntityId| self@.contains((e, b)),
    {
        let mut i: usize = 0;
        while i < self.pairs.len()
            invariant
                i <= self.pairs@.len(),
                forall|k: int| 0 <= k < i ==> self.pairs@[k].0 != e,
            decreases self.pairs@.len() - i,
        {
            if self.pairs[i].0 == e {
                assert(self@.contains((e, self.pairs@[i as int].1)));
                return true;
            }
            i = i + 1;
        }
        proof {
            assert forall|b: EntityId| !self@.contains((e, b)) by {
                if self.pairs@.contains((e, b)) {
                    let k = choose|k: int| 0 <= k < self.pairs@.len() && self.pairs@[k] == (e, b);
                }
            }
        }
        false
    }

    /// The collision partners of `e`, each once, in the order they were recorded.
    pub fn partners(&self, e: EntityId) -> (r: Vec<EntityId>)
        requires
            self.wf(),
        ensures
            r@.no_duplicates(),
            forall|b: EntityId| r@.contains(b) <==> self@.contains((e, b)),
    {
        let mut r: Vec<EntityId> = Vec::new();
        let mut i: usize = 0;
        while i < self.pairs.len()
            invariant
                self.wf(),
                i <= self.pairs@.len(),
                r@.no_duplicates(),
                forall|b: EntityId|
                    r@.contains(b) <==> self.pairs@.subrange(0, i as int).contains((e, b)),
            decreases self.pairs@.len() - i,
        {
            let p = self.pairs[i];
            proof {
                assert(self.pairs@.subrange(0, i + 1) == self.pairs@.subrange(0, i as int).push(p));
                if self.pairs@.subrange(0, i as int).contains((e, p.1)) {
                    let k = choose|k: int|
                        0 <= k < i && self.pairs@.subrange(0, i as int)[k] == (e, p.1);
                    if p.0 == e {
                        assert(self.pairs@[k] == self.pairs@[i as int]);
                    }
                }
            }
            if p.0 == e {
                proof {
                    lemma_push_no_duplicates(r@, p.1);
                }
                r.push(p.1);
            }
            i = i + 1;
        }
        proof {
            assert(self.pairs@.subrange(0, self.pairs@.len() as int) == self.pairs@);
        }
        r
    }

    /// Replaces the adjacency with every overlapping pair of distinct solid
    /// entities of `world`, in both directions.
    pub fn detect(&mut self, world: &World)
        requires
            world.wf(),
        ensures
            final(self).wf(),
            forall|a: EntityId, b: EntityId|
                final(self)@.contains((a, b)) <==> collides(world@, a, b),
    {
        let solids = world.entities_with(&vec![ComponentKind::Position, ComponentKind::Collidable]);
        let ghost ks = seq![ComponentKind::Position, ComponentKind::Collidable];
        proof {
            assert forall|e: EntityId| solids@.contains(e) <==> world@.contains_key(e) && solid(
                world@[e],
            ) by {
                if world@.contains_key(e) {
                    let c = world@[e];
                    if solid(c) {
                        assert(c.has_all_spec(ks));
                    }
                    if c.has_all_spec(ks) {
                        assert(c.has_spec(ks[0]));
                        assert(c.has_spec(ks[1]));
                    }
                }
            }
            assert forall|i: int, j: int| 0 <= i < j < solids@.len() implies solids@[i]
                != solids@[j] by {
                assert(solids@[i].index < solids@[j].index);
            }
        }
        let mut pairs: Vec<(EntityId, EntityId)> = Vec::new();
        let n = solids.len();
        let mut i: usize = 0;
        while i < n
            invariant
                n == solids@.len(),
                i <= n,
                forall|x: int, y: int| 0 <= x < y < n ==> solids@[x] != solids@[y],
                forall|e: EntityId|
                    solids@.contains(e) <==> world@.contains_key(e) && solid(world@[e]),
                pairs@.no_duplicates(),
                forall|p: (EntityId, EntityId)|
                    pairs@.contains(p) <==> collides(world@, p.0, p.1) && solids@.subrange(
                        0,
                        i as int,
                    ).contains(p.0),
            decreases n - i,
        {
            let a = solids[i];
            proof {
                assert(solids@.contains(a));
                assert(solids@.subrange(0, i + 1) == solids@.subrange(0, i as int).push(a));
                if solids@.subrange(0, i as int).contains(a) {
                    let k = choose|k: int| 0 <= k < i && solids@.subrange(0, i as int)[k] == a;
                    assert(solids@[k] == solids@[i as int]);
                }
            }
            let ca = world.get(a).unwrap();
            let pa = ca.position.unwrap();
            let sa = ca.collidable.unwrap();
            let mut j: usize = 0;
            while j < n
                invariant
                    n == solids@.len(),
                    i < n,
                    j <= n,
                    a == solids@[i as int],
                    !solids@.subrange(0, i as int).contains(a),
                    world@.contains_key(a),
                    world@[a].position == Some(pa),
                    world@[a].collidable == Some(sa),
                    forall|x: int, y: int| 0 <= x < y < n ==> solids@[x] != solids@[y],
                    forall|e: EntityId|
                        solids@.contains(e) <==> world@.contains_key(e) && solid(world@[e]),
                    pairs@.no_duplicates(),
                    forall|p: (EntityId, EntityId)|
                        pairs@.contains(p) <==> collides(world@, p.0, p.1) && (solids@.subrange(
                            0,
                            i as int,
                        ).contains(p.0) || (p.0 == a && solids@.subrange(0, j as int).contains(
                            p.1,
                        ))),
                decreases n - j,
            {
                let b = solids[j];
                proof {
                    assert(solids@.contains(b));
                    assert(solids@.subrange(0, j + 1) == solids@.subrange(0, j as int).push(b));
                    if solids@.subrange(0, j as int).contains(b) {
                        let k = choose|k: int| 0 <= k < j && solids@.subrange(0, j as int)[k] == b;
                        assert(solids@[k] == solids@[j as int]);
                    }
                }
                let cb = world.get(b).unwrap();
                let pb = cb.position.unwrap();
                let sb = cb.collidable.unwrap();
                if i != j && overlap(pa.x, pa.y, sa.size, pb.x, pb.y, sb.size) {
                    proof {
                        assert(a != b);
                        assert(collides(world@, a, b));
                        lemma_push_no_duplicates(pairs@, (a, b));
                    }
                    pairs.push((a, b));
                }
                proof {
                    if i == j {
                        assert(a == b);
                        assert(!collides(world@, a, b));
                    }
                }
                j = j + 1;
            }
            proof {
                assert forall|p: (EntityId, EntityId)|
                    pairs@.contains(p) <==> collides(world@, p.0, p.1) && solids@.subrange(
                        0,
                        i + 1,
                    ).contains(p.0) by {
                    if collides(world@, p.0, p.1) {
                        assert(solids@.contains(p.1));
                        let y = choose|y: int| 0 <= y < n && solids@[y] == p.1;
                        assert(solids@.subrange(0, n as int)[y] == p.1);
                        assert(solids@.subrange(0, n as int).contains(p.1));
                    }
                }
            }
            i = i + 1;
        }
        self.pairs = pairs;
        proof {
            assert(solids@.subrange(0, n as int) == solids@);
        }
    }
}

/// Whether no solid entity of `world` overlaps a circle of diameter `size`
/// centred at `(x, y)`.
pub fn is_empty_at(world: &World, x: i32, y: i32, size: u32) -> (r: bool)
    requires
        world.wf(),
    ensures
        r == forall|e: EntityId|
            #[trigger] world@.contains_key(e) && solid(world@[e]) ==> !overlaps_record(
                world@[e],
                x as int,
                y as int,
                size as int,
            ),
{
    let n = world.slot_count();
    let mut i: usize = 0;
    while i < n
        invariant
            n == world.slot_len(),
            i <= n,
            forall|e: EntityId|
                #[trigger] world@.contains_key(e) && e.index < i && solid(world@[e])
                    ==> !overlaps_record(world@[e], x as int, y as int, size as int),
        decreases n - i,
    {
        if let Some(e) = world.entity_at(i) {
            let c = world.get(e).unwrap();
            if let (Some(p), Some(col)) = (c.position, c.collidable) {
                if overlap(p.x, p.y, col.size, x, y, size) {
                    return false;
                }
            }
        }
        proof {
            world.lemma_slots();
        }
        i = i + 1;
    }
    proof {
        world.lemma_slots();
    }
    true
}

/// Every recorded collision is recorded in both directions.
pub proof fn lemma_collisions_symmetric(c: &Collisions, world: &World, a: EntityId, b: EntityId)
    requires
        forall|x: EntityId, y: EntityId| c@.contains((x, y)) <==> collides(world@, x, y),
        c@.contains((a, b)),
    ensures
        c@.contains((b, a)),
{
    let w = world@;
    assert(collides(w, a, b));
    lemma_overlaps_symmetric(
        w[a].position->0.x as int,
        w[a].position->0.y as int,
        w[a].collidable->0.size as int,
        w[b].position->0.x as int,
        w[b].position->0.y as int,
        w[b].collidable->0.size as int,
    );
    assert(collides(w, b, a));
}

} // verus!
