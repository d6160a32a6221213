//! The game: the world, its resources and the frame that runs the scheduled
//! systems over them.
use vstd::prelude::*;
use crate::collision::{is_empty_at, overlaps_record, solid, Collisions};
use crate::commands::{Command, CommandBuffer};
use crate::components::{
    Component, ComponentKind, Components, EntityId, Gun, Sprite, Tag, Thruster, ThrusterKind,
    ThrusterSet,
};
use crate::damage::{damage_on_collision_system, health_system, DamageEventQueue, DamagePolarity};
use crate::despawn::{
    despawn_bounds_system, despawn_on_collision_system, resolve_despawn_queue, timeout_system,
    DespawnEventQueue, DespawnReason,
};
use crate::input::{Control, Inputs};
use crate::mode::{counted_down, GameMode, GameModeManager, GameOverModeState, PlayingModeState, READY_DELAY, RESET_TTL_MAX};
use crate::motion::{motion_system, position_bounds_system};
use crate::prefabs::{asteroid, bullet, explosion, planet, player, random_below, tags_of, PLAYFIELD_HEIGHT, PLAYFIELD_WIDTH};
use crate::scheduler::{ScheduleError, Scheduler, SystemKind};
use crate::score::{points_on_last_hit_system, PlayerScore};
use crate::sound::{SoundEffectQueue, SoundEffectType};
use crate::world::World;

verus! {

/// What happens when an entity tagged `a` touches one tagged `b` during
/// play: both take `damage`, the view shakes if `shake`, and `sound` plays.
#[derive(Clone, Copy, PartialEq, Eq, Structural, Debug)]
pub struct CollisionRule {
    pub a: Tag,
    pub b: Tag,
    pub damage: i32,
    pub shake: bool,
    pub sound: Option<SoundEffectType>,
}

/// A screen shake of `magnitude` pixels for `remaining` more milliseconds.
#[derive(Clone, Copy, PartialEq, Eq, Structural, Debug)]
pub struct CameraShake {
    pub magnitude: u32,
    pub remaining: i64,
}

/// What the renderer needs to draw one entity.
#[derive(Clone, Copy, PartialEq, Eq, Structural, Debug)]
pub struct Renderable {
    pub entity: EntityId,
    pub x: i32,
    pub y: i32,
    pub r: i32,
    pub sprite: Sprite,
}

pub struct Game {
    pub world: World,
    /// Milliseconds since the previous frame.
    pub delta: u32,
    pub inputs: Inputs,
    pub collisions: Collisions,
    pub damages: DamageEventQueue,
    pub despawns: DespawnEventQueue,
    pub sounds: SoundEffectQueue,
    pub score: PlayerScore,
    pub mode: GameModeManager,
    pub game_over: GameOverModeState,
    pub playing: PlayingModeState,
    pub shake: CameraShake,
    pub commands: CommandBuffer,
    pub scheduler: Scheduler,
    /// The systems, by registration index, in the order they run.
    pub order: Vec<usize>,
    pub rules: Vec<CollisionRule>,
}

/// The throttle a thruster of `kind` takes from the controls.
pub open spec fn throttle_for(kind: ThrusterKind, inputs: Inputs) -> i32 {
    match kind {
        ThrusterKind::Lateral => if inputs.right {
            1i32
        } else if inputs.left {
            -1i32
        } else {
            0i32
        },
        ThrusterKind::Longitudinal => if inputs.up {
            1i32
        } else if inputs.down {
            -1i32
        } else {
            0i32
        },
    }
}

/// Whether `after` is `before` steered by `inputs`: its gun fires while
/// fire is held and each thruster takes its throttle from the controls.
pub open spec fn steered(before: Components, after: Components, inputs: Inputs) -> bool {
    &&& after == (Components { gun: after.gun, thrusters: after.thrusters, ..before })
    &&& after.gun == Some(Gun { firing: inputs.fire, ..before.gun->0 })
    &&& after.thrusters is Some
    &&& after.thrusters->0.thrusters@.len() == before.thrusters->0.thrusters@.len()
    &&& forall|k: int|
        0 <= k < before.thrusters->0.thrusters@.len() ==> #[trigger] after.thrusters->0.thrusters@[k]
            == (Thruster {
            throttle: throttle_for(before.thrusters->0.thrusters@[k].kind, inputs),
            ..before.thrusters->0.thrusters@[k]
        })
}

pub fn throttle_exec(kind: ThrusterKind, inputs: &Inputs) -> (r: i32)
    ensures
        r == throttle_for(kind, *inputs),
{
    match kind {
        ThrusterKind::Lateral => if inputs.right {
            1
        } else if inputs.left {
            -1
        } else {
            0
        },
        ThrusterKind::Longitudinal => if inputs.up {
            1
        } else if inputs.down {
            -1
        } else {
            0
        },
    }
}

/// The system that points every steerable entity's gun and thrusters at
/// the player's controls.
pub struct PlayerControlSystem;

impl PlayerControlSystem {
    /// Sets each gun to fire while fire is held and each thruster's
    /// throttle from the direction controls.
    pub fn run(&self, world: &mut World, inputs: &Inputs)
        requires
            old(world).wf(),
        ensures
            final(world).wf(),
            final(world)@.dom() == old(world)@.dom(),
            forall|e: EntityId| #[trigger] final(world)@.contains_key(e) ==> if old(world)@[e].thrusters is Some
                && old(world)@[e].gun is Some {
                steered(old(world)@[e], final(world)@[e], *inputs)
            } else {
                final(world)@[e] == old(world)@[e]
            },
    {
        let ghost w0 = world@;
        let n = world.slot_count();
        let mut i: usize = 0;
        while i < n
            invariant
                world.wf(),
                n == world.slot_len(),
                i <= n,
                world@.dom() == w0.dom(),
                forall|e: EntityId| #[trigger] world@.contains_key(e) && e.index < i ==> if w0[e].thrusters is Some
                    && w0[e].gun is Some {
                    steered(w0[e], world@[e], *inputs)
                } else {
                    world@[e] == w0[e]
                },
                forall|e: EntityId| #[trigger] world@.contains_key(e) && e.index >= i ==> world@[e] == w0[e],
            decreases n - i,
        {
            proof {
                world.lemma_slots();
            }
            let at = world.entity_at(i);
            if let Some(e) = at {
                let c = world.get(e).unwrap();
                assert(world@[e] == w0[e]);
                if let (Some(ts), Some(g)) = (&c.thrusters, c.gun) {
                    let mut nts: Vec<Thruster> = Vec::new();
                    let mut k: usize = 0;
                    while k < ts.thrusters.len()
                        invariant
                            k <= ts.thrusters@.len(),
                            nts@.len() == k,
                            forall|m: int| 0 <= m < k ==> #[trigger] nts@[m] == (Thruster {
                                throttle: throttle_for(ts.thrusters@[m].kind, *inputs),
                                ..ts.thrusters@[m]
                            }),
                        decreases ts.thrusters@.len() - k,
                    {
                        let t = ts.thrusters[k];
                        nts.push(Thruster { throttle: throttle_exec(t.kind, inputs), ..t });
                        k = k + 1;
                    }
                    let ghost before = world@[e];
                    world.attach(e, Component::Gun(Gun { firing: inputs.fire, ..g }));
                    world.attach(e, Component::Thrusters(ThrusterSet { thrusters: nts }));
                    assert(steered(before, world@[e], *inputs));
                }
            }
            proof {
                world.lemma_slots();
            }
            i = i + 1;
        }
        proof {
            world.lemma_slots();
        }
    }
}

/// A gun's state after `dt` milliseconds: a cooling gun cools, a ready gun
/// that fires starts cooling for its period.
pub open spec fn gun_ticked(g: Gun, dt: u32) -> Gun {
    if g.cooldown > 0 {
        Gun { cooldown: crate::despawn::count_down(g.cooldown, dt), ..g }
    } else if g.firing {
        Gun { cooldown: g.period, ..g }
    } else {
        g
    }
}

/// Whether the gun of `c` fires a shot this frame.
pub open spec fn fires(c: Components) -> bool {
    c.position is Some && c.gun is Some && c.gun->0.cooldown <= 0 && c.gun->0.firing
}

/// The record after its gun has run for `dt` milliseconds.
pub open spec fn gun_record(c: Components, dt: u32) -> Components {
    if c.position is Some && c.gun is Some {
        Components { gun: Some(gun_ticked(c.gun->0, dt)), ..c }
    } else {
        c
    }
}

/// Whether `b` is a bullet fired from a gun at `(x, y)`: fifty pixels
/// ahead of it, flying up the screen.
pub open spec fn is_bullet_from(b: Components, x: i32, y: i32) -> bool {
    &&& tags_of(b) == seq![Tag::PlayerBullet, Tag::PlayerWeapon]
    &&& b.position == Some(
        crate::components::Position {
            x,
            y: if y - 50_000 < i32::MIN {
                i32::MIN
            } else {
                (y - 50_000) as i32
            },
            r: 0,
        },
    )
    &&& b.velocity == Some(crate::components::Velocity { x: 0, y: -800_000i32, r: 0 })
    &&& b.collidable == Some(crate::components::Collidable { size: 50_000 })
    &&& b.health == Some(crate::components::Health { health: 10, max_health: 10, last_hurt_by: None, last_healed_by: None })
}

/// `cmds` and `sounds` hold, for the guns of `shooters` in order, one
/// bullet and one shot each; `shooters` are firing guns of `w`, in slot
/// order.
pub open spec fn shots_by(
    shooters: Seq<EntityId>,
    w: Map<EntityId, Components>,
    cmds: Seq<Command>,
    sounds: Seq<SoundEffectType>,
) -> bool {
    &&& cmds.len() == shooters.len()
    &&& sounds.len() == shooters.len()
    &&& forall|j: int| 0 <= j < sounds.len() ==> #[trigger] sounds[j] == SoundEffectType::Shot
    &&& forall|j: int|
        0 <= j < shooters.len() ==> w.contains_key(#[trigger] shooters[j]) && fires(w[shooters[j]]) && (
        cmds[j] matches Command::Spawn(b) && is_bullet_from(
            b,
            w[shooters[j]].position->0.x,
            w[shooters[j]].position->0.y,
        ))
    &&& forall|j: int, k: int| 0 <= j < k < shooters.len() ==> shooters[j].index < shooters[k].index
}

/// The guns' effect over `dt` milliseconds: the world `w0` becomes `w1`,
/// the commands `c0` become `c1` and the sound requests `s0` become `s1`.
/// Each gun runs its cooldown, and each ready gun that fires queues exactly
/// one bullet and one shot, in slot order.
pub open spec fn gun_effect(
    w0: Map<EntityId, Components>,
    w1: Map<EntityId, Components>,
    dt: u32,
    c0: Seq<Command>,
    c1: Seq<Command>,
    s0: Seq<SoundEffectType>,
    s1: Seq<SoundEffectType>,
) -> bool {
    &&& w1.dom() == w0.dom()
    &&& forall|e: EntityId| #[trigger] w1.contains_key(e) ==> w1[e] == gun_record(w0[e], dt)
    &&& c1.len() >= c0.len()
    &&& c1.subrange(0, c0.len() as int) == c0
    &&& s1.len() >= s0.len()
    &&& s1.subrange(0, s0.len() as int) == s0
    &&& exists|shooters: Seq<EntityId>|
        #[trigger] shots_by(shooters, w0, c1.subrange(c0.len() as int, c1.len() as int), s1.subrange(s0.len() as int, s1.len() as int))
            && forall|e: EntityId| w0.contains_key(e) && fires(w0[e]) ==> shooters.contains(e)
}

/// Runs every gun for `dt` milliseconds; each gun that is ready and firing
/// starts cooling down, plays a shot and queues a bullet ahead of it.
pub fn gun_system(
    world: &mut World,
    dt: u32,
    commands: &mut CommandBuffer,
    sounds: &mut SoundEffectQueue,
)
    requires
        old(world).wf(),
    ensures
        final(world).wf(),
        gun_effect(
            old(world)@,
            final(world)@,
            dt,
            old(commands).commands@,
            final(commands).commands@,
            old(sounds).requests@,
            final(sounds).requests@,
        ),
{
    let ghost w0 = world@;
    let ghost c0 = commands.commands@;
    let ghost s0 = sounds.requests@;
    let ghost mut shooters: Seq<EntityId> = Seq::empty();
    let n = world.slot_count();
    let mut i: usize = 0;
    proof {
        assert(commands.commands@.subrange(0, c0.len() as int) =~= c0);
        assert(sounds.requests@.subrange(0, s0.len() as int) =~= s0);
        assert(commands.commands@.subrange(c0.len() as int, commands.commands@.len() as int) =~= Seq::<Command>::empty());
        assert(sounds.requests@.subrange(s0.len() as int, sounds.requests@.len() as int) =~= Seq::<SoundEffectType>::empty());
    }
    while i < n
        invariant
            world.wf(),
            n == world.slot_len(),
            i <= n,
            world@.dom() == w0.dom(),
            forall|e: EntityId| #[trigger] world@.contains_key(e) && e.index < i ==> world@[e] == gun_record(w0[e], dt),
            forall|e: EntityId| #[trigger] world@.contains_key(e) && e.index >= i ==> world@[e] == w0[e],
            commands.commands@.len() >= c0.len(),
            commands.commands@.subrange(0, c0.len() as int) == c0,
            sounds.requests@.len() >= s0.len(),
            sounds.requests@.subrange(0, s0.len() as int) == s0,
            shots_by(
                shooters,
                w0,
                commands.commands@.subrange(c0.len() as int, commands.commands@.len() as int),
                sounds.requests@.subrange(s0.len() as int, sounds.requests@.len() as int),
            ),
            forall|j: int| 0 <= j < shooters.len() ==> #[trigger] shooters[j].index < i,
            forall|e: EntityId| w0.contains_key(e) && e.index < i && fires(w0[e]) ==> shooters.contains(e),
        decreases n - i,
    {
        proof {
            world.lemma_slots();
        }
        let ghost cb = commands.commands@;
        let ghost sb = sounds.requests@;
        let ghost shb = shooters;
        let at = world.entity_at(i);
        if let Some(e) = at {
            let c = world.get(e).unwrap();
            assert(world@[e] == w0[e]);
            if let (Some(p), Some(g)) = (c.position, c.gun) {
                if g.cooldown > 0 {
                    let left = crate::despawn::count_down_exec(g.cooldown, dt);
                    world.attach(e, Component::Gun(Gun { cooldown: left, ..g }));
                } else if g.firing {
                    world.attach(e, Component::Gun(Gun { cooldown: g.period, ..g }));
                    sounds.play(SoundEffectType::Shot);
                    let b = bullet(p.x, p.y);
                    commands.spawn(b);
                    proof {
                        shooters = shooters.push(e);
                        assert(fires(w0[e]));
                        assert(commands.commands@.subrange(0, c0.len() as int) =~= cb.subrange(0, c0.len() as int));
                        assert(sounds.requests@.subrange(0, s0.len() as int) =~= sb.subrange(0, s0.len() as int));
                        let ac = commands.commands@.subrange(c0.len() as int, commands.commands@.len() as int);
                        let acb = cb.subrange(c0.len() as int, cb.len() as int);
                        let asn = sounds.requests@.subrange(s0.len() as int, sounds.requests@.len() as int);
                        let asb = sb.subrange(s0.len() as int, sb.len() as int);
                        assert(ac =~= acb.push(Command::Spawn(b)));
                        assert(asn =~= asb.push(SoundEffectType::Shot));
                        assert forall|j: int|
                            0 <= j < shooters.len() implies w0.contains_key(#[trigger] shooters[j]) && fires(w0[shooters[j]]) && (
                            ac[j] matches Command::Spawn(bb) && is_bullet_from(
                                bb,
                                w0[shooters[j]].position->0.x,
                                w0[shooters[j]].position->0.y,
                            )) by {
                            if j < shb.len() {
                                assert(shooters[j] == shb[j]);
                                assert(ac[j] == acb[j]);
                            }
                        }
                        assert forall|j: int| 0 <= j < asn.len() implies #[trigger] asn[j] == SoundEffectType::Shot by {
                            if j < asb.len() {
                                assert(asn[j] == asb[j]);
                            }
                        }
                        assert forall|j: int, k: int| 0 <= j < k < shooters.len() implies shooters[j].index < shooters[k].index by {
                            if k == shb.len() {
                                assert(shb[j].index < i);
                            }
                        }
                    }
                }
            }
            assert(world@[e] == gun_record(w0[e], dt));
        }
        proof {
            world.lemma_slots();
            assert forall|x: EntityId| w0.contains_key(x) && x.index < i + 1 && fires(w0[x]) implies shooters.contains(x) by {
                if x.index == i {
                    assert(at == Some(x));
                    assert(shooters[shooters.len() - 1] == x);
                } else {
                    assert(shb.contains(x));
                    let j = choose|j: int| 0 <= j < shb.len() && shb[j] == x;
                    assert(shooters[j] == x);
                }
            }
            assert forall|j: int| 0 <= j < shooters.len() implies #[trigger] shooters[j].index < i + 1 by {
                if j < shb.len() {
                    assert(shooters[j] == shb[j]);
                }
            }
        }
        i = i + 1;
    }
    proof {
        world.lemma_slots();
        assert forall|e: EntityId| w0.contains_key(e) && fires(w0[e]) implies shooters.contains(e) by {
            assert(e.index < n);
        }
    }
}

/// Whether some entity of `w` owns a component of kind `k`.
pub open spec fn any_with(w: Map<EntityId, Components>, k: ComponentKind) -> bool {
    exists|e: EntityId| w.contains_key(e) && w[e].has_spec(k)
}

pub fn any_entity_with(world: &World, k: ComponentKind) -> (r: bool)
    requires
        world.wf(),
    ensures
        r == any_with(world@, k),
{
    let found = world.entities_with(&vec![k]);
    proof {
        if any_with(world@, k) {
            let e = choose|e: EntityId| world@.contains_key(e) && world@[e].has_spec(k);
            assert(world@[e].has_all_spec(seq![k]));
            assert(found@.contains(e));
        }
        if found@.len() > 0 {
            assert(found@.contains(found@[0]));
            assert(world@[found@[0]].has_all_spec(seq![k]));
            assert(seq![k][0] == k);
        }
    }
    found.len() > 0
}

/// The default reactions: asteroids hurt the player and the planet, and the
/// player's bullets hurt enemies.
pub fn default_rules() -> (r: Vec<CollisionRule>)
    ensures
        r@ == seq![
            CollisionRule { a: Tag::Asteroid, b: Tag::Player, damage: 100, shake: true, sound: Some(SoundEffectType::Shield) },
            CollisionRule { a: Tag::Asteroid, b: Tag::Planet, damage: 100, shake: true, sound: Some(SoundEffectType::PlanetHit) },
            CollisionRule { a: Tag::PlayerBullet, b: Tag::Enemy, damage: 100, shake: false, sound: None },
        ],
{
    let mut r: Vec<CollisionRule> = Vec::new();
    r.push(CollisionRule { a: Tag::Asteroid, b: Tag::Player, damage: 100, shake: true, sound: Some(SoundEffectType::Shield) });
    r.push(CollisionRule { a: Tag::Asteroid, b: Tag::Planet, damage: 100, shake: true, sound: Some(SoundEffectType::PlanetHit) });
    r.push(CollisionRule { a: Tag::PlayerBullet, b: Tag::Enemy, damage: 100, shake: false, sound: None });
    assert(r@ =~= seq![
        CollisionRule { a: Tag::Asteroid, b: Tag::Player, damage: 100, shake: true, sound: Some(SoundEffectType::Shield) },
        CollisionRule { a: Tag::Asteroid, b: Tag::Planet, damage: 100, shake: true, sound: Some(SoundEffectType::PlanetHit) },
        CollisionRule { a: Tag::PlayerBullet, b: Tag::Enemy, damage: 100, shake: false, sound: None },
    ]);
    r
}

/// How far, in pixels, the view shakes after a hit that shakes it.
pub const SHAKE_MAGNITUDE: u32 = 16;

/// How long, in milliseconds, the view shakes after such a hit.
pub const SHAKE_DURATION: i64 = 300;

/// Whether a hurt of `amount` from `from` to `to` is one that a rule of
/// `rules` deals, in one direction or the other, to a pair it applies to.
pub open spec fn rule_damage(
    w: Map<EntityId, Components>,
    rules: Seq<CollisionRule>,
    c: Set<(EntityId, EntityId)>,
    from: EntityId,
    to: EntityId,
    amount: i32,
) -> bool {
    exists|r: int|
        #![trigger reaction_due(w, c, rules, from, to, r)]
        #![trigger reaction_due(w, c, rules, to, from, r)]
        (reaction_due(w, c, rules, from, to, r) || reaction_due(w, c, rules, to, from, r))
            && rules[r].damage == amount
}

/// The damage and sound requests appended since `d0` and `s0` all come from
/// rules of `rules` that apply to collision partners of `c` in `w`.
pub open spec fn reactions_ok(
    w: Map<EntityId, Components>,
    d0: Seq<crate::damage::DamageEvent>,
    d: Seq<crate::damage::DamageEvent>,
    s0: Seq<SoundEffectType>,
    s: Seq<SoundEffectType>,
    rules: Seq<CollisionRule>,
    c: Set<(EntityId, EntityId)>,
) -> bool {
    &&& d.len() >= d0.len()
    &&& d.subrange(0, d0.len() as int) == d0
    &&& s.len() >= s0.len()
    &&& s.subrange(0, s0.len() as int) == s0
    &&& forall|k: int|
        d0.len() <= k < d.len() ==> #[trigger] d[k].polarity == DamagePolarity::Hurt && rule_damage(
            w,
            rules,
            c,
            d[k].from,
            d[k].to,
            d[k].amount,
        )
    &&& forall|k: int|
        #![trigger s[k]]
        s0.len() <= k < s.len() ==> exists|a: EntityId, b: EntityId, r: int|
            #[trigger] reaction_due(w, c, rules, a, b, r) && rules[r].sound == Some(s[k])
}

proof fn lemma_reaction_step(
    w: Map<EntityId, Components>,
    d0: Seq<crate::damage::DamageEvent>,
    d: Seq<crate::damage::DamageEvent>,
    s0: Seq<SoundEffectType>,
    s: Seq<SoundEffectType>,
    rules: Seq<CollisionRule>,
    c: Set<(EntityId, EntityId)>,
    a: EntityId,
    b: EntityId,
    r: int,
    d1: Seq<crate::damage::DamageEvent>,
    s1: Seq<SoundEffectType>,
)
    requires
        reactions_ok(w, d0, d, s0, s, rules, c),
        reaction_due(w, c, rules, a, b, r),
        d1 == d.push(crate::damage::DamageEvent { from: a, to: b, amount: rules[r].damage, polarity: DamagePolarity::Hurt }).push(
            crate::damage::DamageEvent { from: b, to: a, amount: rules[r].damage, polarity: DamagePolarity::Hurt },
        ),
        s1 == s || (rules[r].sound is Some && s1 == s.push(rules[r].sound->0)),
    ensures
        reactions_ok(w, d0, d1, s0, s1, rules, c),
{
    assert(d1.subrange(0, d0.len() as int) =~= d.subrange(0, d0.len() as int));
    assert(s1.subrange(0, s0.len() as int) =~= s.subrange(0, s0.len() as int));
    assert forall|k: int| d0.len() <= k < d1.len() implies #[trigger] d1[k].polarity == DamagePolarity::Hurt
        && rule_damage(w, rules, c, d1[k].from, d1[k].to, d1[k].amount) by {
        if k < d.len() {
            assert(d1[k] == d[k]);
            assert(d[k].polarity == DamagePolarity::Hurt);
            assert(rule_damage(w, rules, c, d[k].from, d[k].to, d[k].amount));
        } else if k == d.len() {
            assert(reaction_due(w, c, rules, a, b, r));
            assert(d1[k] == crate::damage::DamageEvent { from: a, to: b, amount: rules[r].damage, polarity: DamagePolarity::Hurt });
            assert(reaction_due(w, c, rules, d1[k].from, d1[k].to, r));
            assert(rule_damage(w, rules, c, d1[k].from, d1[k].to, d1[k].amount));
        } else {
            assert(reaction_due(w, c, rules, a, b, r));
            assert(d1[k] == crate::damage::DamageEvent { from: b, to: a, amount: rules[r].damage, polarity: DamagePolarity::Hurt });
            assert(reaction_due(w, c, rules, d1[k].to, d1[k].from, r));
            assert(rule_damage(w, rules, c, d1[k].from, d1[k].to, d1[k].amount));
        }
    }
    assert forall|k: int| #![trigger s1[k]] s0.len() <= k < s1.len() implies exists|a2: EntityId, b2: EntityId, rr: int|
        #[trigger] reaction_due(w, c, rules, a2, b2, rr) && rules[rr].sound == Some(s1[k]) by {
        if k < s.len() {
            assert(s1[k] == s[k]);
        } else {
            assert(reaction_due(w, c, rules, a, b, r));
        }
    }
}

/// Whether `rules[r]` applies to `a` and its collision partner `b`: `a`
/// carries the rule's first tag and `b` its second.
pub open spec fn reaction_due(
    w: Map<EntityId, Components>,
    c: Set<(EntityId, EntityId)>,
    rules: Seq<CollisionRule>,
    a: EntityId,
    b: EntityId,
    r: int,
) -> bool {
    &&& 0 <= r < rules.len()
    &&& c.contains((a, b))
    &&& w.contains_key(a)
    &&& w.contains_key(b)
    &&& w[a].tags is Some
    &&& w[b].tags is Some
    &&& tags_of(w[a]).contains(rules[r].a)
    &&& tags_of(w[b]).contains(rules[r].b)
}

/// Whether `d` holds, after its first `start` events, a hurt of `amount`
/// from `from` to `to`.
pub open spec fn hurt_queued(
    start: int,
    d: Seq<crate::damage::DamageEvent>,
    from: EntityId,
    to: EntityId,
    amount: i32,
) -> bool {
    exists|k: int|
        start <= k < d.len() && #[trigger] d[k] == (crate::damage::DamageEvent {
            from,
            to,
            amount,
            polarity: DamagePolarity::Hurt,
        })
}

/// Whether both hurts, and the sound, that `rules[r]` calls for between `a`
/// and `b` are queued.
pub open spec fn reaction_done(
    start: int,
    d: Seq<crate::damage::DamageEvent>,
    sound_start: int,
    s: Seq<SoundEffectType>,
    rules: Seq<CollisionRule>,
    a: EntityId,
    b: EntityId,
    r: int,
) -> bool {
    &&& hurt_queued(start, d, a, b, rules[r].damage)
    &&& hurt_queued(start, d, b, a, rules[r].damage)
    &&& rules[r].sound is Some ==> sound_queued(sound_start, s, rules[r].sound->0)
}

/// Whether `s` holds, after its first `start` requests, the sound `x`.
pub open spec fn sound_queued(start: int, s: Seq<SoundEffectType>, x: SoundEffectType) -> bool {
    exists|k: int| start <= k < s.len() && #[trigger] s[k] == x
}

proof fn lemma_sound_grows(start: int, s: Seq<SoundEffectType>, e: Seq<SoundEffectType>)
    requires
        start >= 0,
        e.len() >= s.len(),
        e.subrange(0, s.len() as int) == s,
    ensures
        forall|x: SoundEffectType| #[trigger] sound_queued(start, s, x) ==> sound_queued(start, e, x),
{
    assert forall|x: SoundEffectType| #[trigger] sound_queued(start, s, x) implies sound_queued(start, e, x) by {
        let k = choose|k: int| start <= k < s.len() && #[trigger] s[k] == x;
        assert(s[k] == e.subrange(0, s.len() as int)[k]);
    }
}

proof fn lemma_queued_grows(
    start: int,
    d: Seq<crate::damage::DamageEvent>,
    e: Seq<crate::damage::DamageEvent>,
)
    requires
        start >= 0,
        e.len() >= d.len(),
        e.subrange(0, d.len() as int) == d,
    ensures
        forall|from: EntityId, to: EntityId, amount: i32|
            #[trigger] hurt_queued(start, d, from, to, amount) ==> hurt_queued(start, e, from, to, amount),
{
    assert forall|from: EntityId, to: EntityId, amount: i32|
        #[trigger] hurt_queued(start, d, from, to, amount) implies hurt_queued(start, e, from, to, amount) by {
        let k = choose|k: int|
            start <= k < d.len() && #[trigger] d[k] == (crate::damage::DamageEvent {
                from,
                to,
                amount,
                polarity: DamagePolarity::Hurt,
            });
        assert(d[k] == e.subrange(0, d.len() as int)[k]);
    }
}

/// The collision reactions' effect: the damage queue `d0` becomes `d`,
/// the sound requests `s0` become `s`, and the view shake `sh0` becomes
/// `sh`.  Every appended event comes from a rule, and every rule that
/// applies has both its hurts queued.
pub open spec fn reactions_effect(
    w: Map<EntityId, Components>,
    c: Set<(EntityId, EntityId)>,
    rules: Seq<CollisionRule>,
    d0: Seq<crate::damage::DamageEvent>,
    d: Seq<crate::damage::DamageEvent>,
    s0: Seq<SoundEffectType>,
    s: Seq<SoundEffectType>,
    sh0: CameraShake,
    sh: CameraShake,
) -> bool {
    &&& reactions_ok(w, d0, d, s0, s, rules, c)
    &&& forall|a: EntityId, b: EntityId, r: int|
        #[trigger] reaction_due(w, c, rules, a, b, r) ==> reaction_done(d0.len() as int, d, s0.len() as int, s, rules, a, b, r)
    &&& (exists|a: EntityId, b: EntityId, r: int| reaction_due(w, c, rules, a, b, r) && rules[r].shake) ==> sh == (
    CameraShake { magnitude: SHAKE_MAGNITUDE, remaining: SHAKE_DURATION })
    &&& sh == sh0 || sh == (CameraShake { magnitude: SHAKE_MAGNITUDE, remaining: SHAKE_DURATION })
}

/// During play, applies every rule whose tags match a pair of colliding
/// entities: both take the rule's damage, the view may shake and a sound
/// may play.
pub fn collision_reactions_system(
    world: &World,
    collisions: &Collisions,
    rules: &Vec<CollisionRule>,
    damages: &mut DamageEventQueue,
    sounds: &mut SoundEffectQueue,
    shake: &mut CameraShake,
)
    requires
        world.wf(),
        collisions.wf(),
    ensures
        reactions_effect(
            world@,
            collisions@,
            rules@,
            old(damages).events@,
            final(damages).events@,
            old(sounds).requests@,
            final(sounds).requests@,
            *old(shake),
            *final(shake),
        ),
{
    let ghost d0 = damages.events@;
    let ghost s0 = sounds.requests@;
    let ghost sh0 = *shake;
    let ghost st = d0.len() as int;
    let ghost sst = s0.len() as int;
    let ghost w = world@;
    let ghost c = collisions@;
    let ghost rs = rules@;
    let ghost shaken = CameraShake { magnitude: SHAKE_MAGNITUDE, remaining: SHAKE_DURATION };
    proof {
        assert(damages.events@.subrange(0, d0.len() as int) =~= d0);
        assert(sounds.requests@.subrange(0, s0.len() as int) =~= s0);
    }
    let n = world.slot_count();
    let mut i: usize = 0;
    while i < n
        invariant
            st == d0.len() as int,
            sst == s0.len() as int,
            shaken == (CameraShake { magnitude: SHAKE_MAGNITUDE, remaining: SHAKE_DURATION }),
            world.wf(),
            collisions.wf(),
            w == world@,
            c == collisions@,
            rs == rules@,
            n == world.slot_len(),
            i <= n,
            reactions_ok(w, d0, damages.events@, s0, sounds.requests@, rs, c),
            *shake == sh0 || *shake == shaken,
            forall|a2: EntityId, b2: EntityId, r2: int|
                #[trigger] reaction_due(w, c, rs, a2, b2, r2) && a2.index < i ==> reaction_done(st, damages.events@, sst, sounds.requests@, rs, a2, b2, r2),
            forall|a2: EntityId, b2: EntityId, r2: int|
                #[trigger] reaction_due(w, c, rs, a2, b2, r2) && a2.index < i && rs[r2].shake ==> *shake == shaken,
        decreases n - i,
    {
        proof {
            world.lemma_slots();
        }
        let at = world.entity_at(i);
        if let Some(a) = at {
            if let Some(atags) = &world.get(a).unwrap().tags {
                let partners = collisions.partners(a);
                let mut t: usize = 0;
                while t < atags.tags.len()
                    invariant
                        st == d0.len() as int,
                sst == s0.len() as int,
                        shaken == (CameraShake { magnitude: SHAKE_MAGNITUDE, remaining: SHAKE_DURATION }),
                        world.wf(),
                        w == world@,
                        c == collisions@,
                        rs == rules@,
                        n == world.slot_len(),
                        i < n,
                        a.index == i,
                        w.contains_key(a),
                        w[a].tags is Some,
                        atags.tags@ == tags_of(w[a]),
                        t <= atags.tags@.len(),
                        forall|x: EntityId| partners@.contains(x) <==> c.contains((a, x)),
                        reactions_ok(w, d0, damages.events@, s0, sounds.requests@, rs, c),
                        *shake == sh0 || *shake == shaken,
                        forall|a2: EntityId, b2: EntityId, r2: int|
                            #[trigger] reaction_due(w, c, rs, a2, b2, r2) && a2.index < i ==> reaction_done(st, damages.events@, sst, sounds.requests@, rs, a2, b2, r2),
                        forall|a2: EntityId, b2: EntityId, r2: int|
                            #[trigger] reaction_due(w, c, rs, a2, b2, r2) && a2.index < i && rs[r2].shake ==> *shake == shaken,
                        forall|b2: EntityId, r2: int|
                            #[trigger] reaction_due(w, c, rs, a, b2, r2) && atags.tags@.subrange(0, t as int).contains(rs[r2].a)
                                ==> reaction_done(st, damages.events@, sst, sounds.requests@, rs, a, b2, r2),
                        forall|b2: EntityId, r2: int|
                            #[trigger] reaction_due(w, c, rs, a, b2, r2) && atags.tags@.subrange(0, t as int).contains(rs[r2].a)
                                && rs[r2].shake ==> *shake == shaken,
                    decreases atags.tags@.len() - t,
                {
                    let ta = atags.tags[t];
                    proof {
                        assert(tags_of(w[a])[t as int] == ta);
                    }
                    let mut j: usize = 0;
                    while j < partners.len()
                        invariant
                            st == d0.len() as int,
                sst == s0.len() as int,
                            shaken == (CameraShake { magnitude: SHAKE_MAGNITUDE, remaining: SHAKE_DURATION }),
                            world.wf(),
                            w == world@,
                            c == collisions@,
                            rs == rules@,
                            a.index == i,
                            w.contains_key(a),
                            atags.tags@ == tags_of(w[a]),
                            t < atags.tags@.len(),
                            ta == atags.tags@[t as int],
                            w[a].tags is Some,
                            tags_of(w[a]).contains(ta),
                            j <= partners@.len(),
                            forall|x: EntityId| partners@.contains(x) <==> c.contains((a, x)),
                            reactions_ok(w, d0, damages.events@, s0, sounds.requests@, rs, c),
                            *shake == sh0 || *shake == shaken,
                            forall|a2: EntityId, b2: EntityId, r2: int|
                                #[trigger] reaction_due(w, c, rs, a2, b2, r2) && a2.index < i ==> reaction_done(st, damages.events@, sst, sounds.requests@, rs, a2, b2, r2),
                            forall|a2: EntityId, b2: EntityId, r2: int|
                                #[trigger] reaction_due(w, c, rs, a2, b2, r2) && a2.index < i && rs[r2].shake ==> *shake == shaken,
                            forall|b2: EntityId, r2: int|
                                #[trigger] reaction_due(w, c, rs, a, b2, r2) && atags.tags@.subrange(0, t as int).contains(rs[r2].a)
                                    ==> reaction_done(st, damages.events@, sst, sounds.requests@, rs, a, b2, r2),
                            forall|b2: EntityId, r2: int|
                                #[trigger] reaction_due(w, c, rs, a, b2, r2) && atags.tags@.subrange(0, t as int).contains(rs[r2].a)
                                    && rs[r2].shake ==> *shake == shaken,
                            forall|b2: EntityId, r2: int|
                                #[trigger] reaction_due(w, c, rs, a, b2, r2) && rs[r2].a == ta && partners@.subrange(0, j as int).contains(b2)
                                    ==> reaction_done(st, damages.events@, sst, sounds.requests@, rs, a, b2, r2),
                            forall|b2: EntityId, r2: int|
                                #[trigger] reaction_due(w, c, rs, a, b2, r2) && rs[r2].a == ta && partners@.subrange(0, j as int).contains(b2)
                                    && rs[r2].shake ==> *shake == shaken,
                        decreases partners@.len() - j,
                    {
                        let b = partners[j];
                        proof {
                            assert(partners@.contains(b));
                            assert(partners@.subrange(0, j + 1) == partners@.subrange(0, j as int).push(b));
                        }
                        if let Some(bc) = world.get(b) {
                            if let Some(btags) = &bc.tags {
                                let mut u: usize = 0;
                                while u < btags.tags.len()
                                    invariant
                                        st == d0.len() as int,
                sst == s0.len() as int,
                                        shaken == (CameraShake { magnitude: SHAKE_MAGNITUDE, remaining: SHAKE_DURATION }),
                                        w == world@,
                                        c == collisions@,
                                        rs == rules@,
                                        c.contains((a, b)),
                                        w.contains_key(a),
                                        w[a].tags is Some,
                                        tags_of(w[a]).contains(ta),
                                        w.contains_key(b),
                                        w[b].tags is Some,
                                        btags.tags@ == tags_of(w[b]),
                                        u <= btags.tags@.len(),
                                        reactions_ok(w, d0, damages.events@, s0, sounds.requests@, rs, c),
                                        *shake == sh0 || *shake == shaken,
                                        forall|a2: EntityId, b2: EntityId, r2: int|
                                            #[trigger] reaction_due(w, c, rs, a2, b2, r2) && a2.index < i ==> reaction_done(st, damages.events@, sst, sounds.requests@, rs, a2, b2, r2),
                                        forall|a2: EntityId, b2: EntityId, r2: int|
                                            #[trigger] reaction_due(w, c, rs, a2, b2, r2) && a2.index < i && rs[r2].shake ==> *shake == shaken,
                                        forall|b2: EntityId, r2: int|
                                            #[trigger] reaction_due(w, c, rs, a, b2, r2) && atags.tags@.subrange(0, t as int).contains(rs[r2].a)
                                                ==> reaction_done(st, damages.events@, sst, sounds.requests@, rs, a, b2, r2),
                                        forall|b2: EntityId, r2: int|
                                            #[trigger] reaction_due(w, c, rs, a, b2, r2) && atags.tags@.subrange(0, t as int).contains(rs[r2].a)
                                                && rs[r2].shake ==> *shake == shaken,
                                        forall|b2: EntityId, r2: int|
                                            #[trigger] reaction_due(w, c, rs, a, b2, r2) && rs[r2].a == ta && partners@.subrange(0, j as int).contains(b2)
                                                ==> reaction_done(st, damages.events@, sst, sounds.requests@, rs, a, b2, r2),
                                        forall|b2: EntityId, r2: int|
                                            #[trigger] reaction_due(w, c, rs, a, b2, r2) && rs[r2].a == ta && partners@.subrange(0, j as int).contains(b2)
                                                && rs[r2].shake ==> *shake == shaken,
                                        forall|r2: int|
                                            #[trigger] reaction_due(w, c, rs, a, b, r2) && rs[r2].a == ta && btags.tags@.subrange(0, u as int).contains(rs[r2].b)
                                                ==> reaction_done(st, damages.events@, sst, sounds.requests@, rs, a, b, r2),
                                        forall|r2: int|
                                            #[trigger] reaction_due(w, c, rs, a, b, r2) && rs[r2].a == ta && btags.tags@.subrange(0, u as int).contains(rs[r2].b)
                                                && rs[r2].shake ==> *shake == shaken,
                                    decreases btags.tags@.len() - u,
                                {
                                    let tb = btags.tags[u];
                                    proof {
                                        assert(btags.tags@.subrange(0, u + 1) == btags.tags@.subrange(0, u as int).push(tb));
                                        assert(tags_of(w[b])[u as int] == tb);
                                    }
                                    let mut r: usize = 0;
                                    while r < rules.len()
                                        invariant
                                            st == d0.len() as int,
                sst == s0.len() as int,
                                            shaken == (CameraShake { magnitude: SHAKE_MAGNITUDE, remaining: SHAKE_DURATION }),
                                            rs == rules@,
                                            c.contains((a, b)),
                                            w.contains_key(a),
                                            w[a].tags is Some,
                                            tags_of(w[a]).contains(ta),
                                            w.contains_key(b),
                                            w[b].tags is Some,
                                            tags_of(w[b]).contains(tb),
                                            tb == btags.tags@[u as int],
                                            u < btags.tags@.len(),
                                            r <= rs.len(),
                                            reactions_ok(w, d0, damages.events@, s0, sounds.requests@, rs, c),
                                            *shake == sh0 || *shake == shaken,
                                            forall|a2: EntityId, b2: EntityId, r2: int|
                                                #[trigger] reaction_due(w, c, rs, a2, b2, r2) && a2.index < i ==> reaction_done(st, damages.events@, sst, sounds.requests@, rs, a2, b2, r2),
                                            forall|a2: EntityId, b2: EntityId, r2: int|
                                                #[trigger] reaction_due(w, c, rs, a2, b2, r2) && a2.index < i && rs[r2].shake ==> *shake == shaken,
                                            forall|b2: EntityId, r2: int|
                                                #[trigger] reaction_due(w, c, rs, a, b2, r2) && atags.tags@.subrange(0, t as int).contains(rs[r2].a)
                                                    ==> reaction_done(st, damages.events@, sst, sounds.requests@, rs, a, b2, r2),
                                            forall|b2: EntityId, r2: int|
                                                #[trigger] reaction_due(w, c, rs, a, b2, r2) && atags.tags@.subrange(0, t as int).contains(rs[r2].a)
                                                    && rs[r2].shake ==> *shake == shaken,
                                            forall|b2: EntityId, r2: int|
                                                #[trigger] reaction_due(w, c, rs, a, b2, r2) && rs[r2].a == ta && partners@.subrange(0, j as int).contains(b2)
                                                    ==> reaction_done(st, damages.events@, sst, sounds.requests@, rs, a, b2, r2),
                                            forall|b2: EntityId, r2: int|
                                                #[trigger] reaction_due(w, c, rs, a, b2, r2) && rs[r2].a == ta && partners@.subrange(0, j as int).contains(b2)
                                                    && rs[r2].shake ==> *shake == shaken,
                                            forall|r2: int|
                                                #[trigger] reaction_due(w, c, rs, a, b, r2) && rs[r2].a == ta && btags.tags@.subrange(0, u as int).contains(rs[r2].b)
                                                    ==> reaction_done(st, damages.events@, sst, sounds.requests@, rs, a, b, r2),
                                            forall|r2: int|
                                                #[trigger] reaction_due(w, c, rs, a, b, r2) && rs[r2].a == ta && btags.tags@.subrange(0, u as int).contains(rs[r2].b)
                                                    && rs[r2].shake ==> *shake == shaken,
                                            forall|r2: int|
                                                #[trigger] reaction_due(w, c, rs, a, b, r2) && rs[r2].a == ta && rs[r2].b == tb && r2 < r
                                                    ==> reaction_done(st, damages.events@, sst, sounds.requests@, rs, a, b, r2),
                                            forall|r2: int|
                                                #[trigger] reaction_due(w, c, rs, a, b, r2) && rs[r2].a == ta && rs[r2].b == tb && r2 < r
                                                    && rs[r2].shake ==> *shake == shaken,
                                        decreases rs.len() - r,
                                    {
                                        let rule = rules[r];
                                        if rule.a == ta && rule.b == tb {
                                            let ghost d = damages.events@;
                                            let ghost sd = sounds.requests@;
                                            damages.hurt_mutual(a, b, rule.damage);
                                            if rule.shake {
                                                *shake = CameraShake { magnitude: SHAKE_MAGNITUDE, remaining: SHAKE_DURATION };
                                            }
                                            if let Some(snd) = rule.sound {
                                                sounds.play(snd);
                                            }
                                            proof {
                                                assert(reaction_due(w, c, rs, a, b, r as int));
                                                lemma_reaction_step(w, d0, d, s0, sd, rs, c, a, b, r as int, damages.events@, sounds.requests@);
                                                assert(damages.events@.subrange(0, d.len() as int) =~= d);
                                                lemma_queued_grows(st, d, damages.events@);
                                                assert(sounds.requests@.subrange(0, sd.len() as int) =~= sd);
                                                lemma_sound_grows(sst, sd, sounds.requests@);
                                                if rule.sound is Some {
                                                    assert(sounds.requests@[sd.len() as int] == rule.sound->0);
                                                    assert(sound_queued(sst, sounds.requests@, rule.sound->0));
                                                }
                                                assert(damages.events@[d.len() as int] == crate::damage::DamageEvent { from: a, to: b, amount: rule.damage, polarity: DamagePolarity::Hurt });
                                                assert(damages.events@[d.len() + 1int] == crate::damage::DamageEvent { from: b, to: a, amount: rule.damage, polarity: DamagePolarity::Hurt });
                                                assert(hurt_queued(st, damages.events@, a, b, rule.damage));
                                                assert(hurt_queued(st, damages.events@, b, a, rule.damage));
                                            }
                                        }
                                        r = r + 1;
                                    }
                                    u = u + 1;
                                }
                                proof {
                                    assert(btags.tags@.subrange(0, btags.tags@.len() as int) == btags.tags@);
                                }
                            }
                        }
                        j = j + 1;
                    }
                    proof {
                        assert(atags.tags@.subrange(0, t + 1) == atags.tags@.subrange(0, t as int).push(ta));
                        assert(partners@.subrange(0, partners@.len() as int) == partners@);
                    }
                    t = t + 1;
                }
                proof {
                    assert(atags.tags@.subrange(0, atags.tags@.len() as int) == atags.tags@);
                }
            }
        }
        proof {
            world.lemma_slots();
            assert forall|a2: EntityId, b2: EntityId, r2: int|
                #[trigger] reaction_due(w, c, rs, a2, b2, r2) && a2.index == i implies at == Some(a2) by {}
        }
        i = i + 1;
    }
    proof {
        world.lemma_slots();
    }
}

/// Whether `ev` calls for an explosion: an asteroid with a position and a
/// sprite ran out of health.
pub open spec fn explosion_due(w: Map<EntityId, Components>, ev: crate::despawn::DespawnEvent) -> bool {
    &&& ev.reason == DespawnReason::Health
    &&& w.contains_key(ev.entity)
    &&& w[ev.entity].tags is Some
    &&& w[ev.entity].position is Some
    &&& w[ev.entity].sprite is Some
    &&& tags_of(w[ev.entity]).contains(Tag::Asteroid)
}

/// The events of `evs` that call for an explosion, in order.
pub open spec fn due_events(
    w: Map<EntityId, Components>,
    evs: Seq<crate::despawn::DespawnEvent>,
) -> Seq<crate::despawn::DespawnEvent>
    decreases evs.len(),
{
    if evs.len() == 0 {
        Seq::empty()
    } else {
        let before = due_events(w, evs.drop_last());
        if explosion_due(w, evs.last()) {
            before.push(evs.last())
        } else {
            before
        }
    }
}

/// Whether `x` is the explosion left by the record `c`: where `c` was, the
/// size of its sprite, spinning, gone after half a second.
pub open spec fn is_explosion_for(x: Components, c: Components) -> bool {
    &&& x.position == Some(crate::components::Position { x: c.position->0.x, y: c.position->0.y, r: 0 })
    &&& x.sprite == Some(
        Sprite {
            shape: crate::components::Shape::Explosion,
            scale_x: c.sprite->0.scale_x,
            scale_y: c.sprite->0.scale_y,
            offset_x: 500,
            offset_y: 500,
        },
    )
    &&& x.timeout == Some(crate::components::Timeout { remaining: 500 })
    &&& x.velocity == Some(crate::components::Velocity { x: 0, y: 0, r: (7 * crate::prefabs::HALF_TURN) as i32 })
    &&& x.tags is None
    &&& x.collidable is None
}

/// `cmds` and `sounds` hold one explosion and one explosion sound for each
/// event of `evs` that calls for one, in order, and nothing else.
pub open spec fn explosions_for(
    cmds: Seq<Command>,
    sounds: Seq<SoundEffectType>,
    w: Map<EntityId, Components>,
    evs: Seq<crate::despawn::DespawnEvent>,
) -> bool {
    let due = due_events(w, evs);
    &&& cmds.len() == due.len()
    &&& sounds.len() == due.len()
    &&& forall|j: int| 0 <= j < sounds.len() ==> #[trigger] sounds[j] == SoundEffectType::Explosion
    &&& forall|j: int|
        0 <= j < cmds.len() ==> (#[trigger] cmds[j] matches Command::Spawn(x) && is_explosion_for(
            x,
            w[due[j].entity],
        ))
}

/// For each asteroid whose health ran out this frame, plays an explosion and
/// queues an explosion entity where it was.
pub fn tombstone_system(
    world: &World,
    despawns: &DespawnEventQueue,
    commands: &mut CommandBuffer,
    sounds: &mut SoundEffectQueue,
)
    requires
        world.wf(),
    ensures
        final(commands).commands@.len() >= old(commands).commands@.len(),
        final(commands).commands@.subrange(0, old(commands).commands@.len() as int) == old(commands).commands@,
        final(sounds).requests@.len() >= old(sounds).requests@.len(),
        final(sounds).requests@.subrange(0, old(sounds).requests@.len() as int) == old(sounds).requests@,
        explosions_for(
            final(commands).commands@.subrange(old(commands).commands@.len() as int, final(commands).commands@.len() as int),
            final(sounds).requests@.subrange(old(sounds).requests@.len() as int, final(sounds).requests@.len() as int),
            world@,
            despawns.events@,
        ),
{
    let ghost c0 = commands.commands@;
    let ghost s0 = sounds.requests@;
    let ghost w = world@;
    let ghost evs = despawns.events@;
    proof {
        assert(commands.commands@.subrange(0, c0.len() as int) =~= c0);
        assert(sounds.requests@.subrange(0, s0.len() as int) =~= s0);
        assert(commands.commands@.subrange(c0.len() as int, commands.commands@.len() as int) =~= Seq::<Command>::empty());
        assert(sounds.requests@.subrange(s0.len() as int, sounds.requests@.len() as int) =~= Seq::<SoundEffectType>::empty());
        assert(evs.subrange(0, 0) =~= Seq::<crate::despawn::DespawnEvent>::empty());
    }
    let mut k: usize = 0;
    while k < despawns.events.len()
        invariant
            world.wf(),
            w == world@,
            evs == despawns.events@,
            k <= evs.len(),
            commands.commands@.len() >= c0.len(),
            commands.commands@.subrange(0, c0.len() as int) == c0,
            sounds.requests@.len() >= s0.len(),
            sounds.requests@.subrange(0, s0.len() as int) == s0,
            explosions_for(
                commands.commands@.subrange(c0.len() as int, commands.commands@.len() as int),
                sounds.requests@.subrange(s0.len() as int, sounds.requests@.len() as int),
                w,
                evs.subrange(0, k as int),
            ),
        decreases evs.len() - k,
    {
        let ev = despawns.events[k];
        let ghost cb = commands.commands@;
        let ghost sb = sounds.requests@;
        let mut fired = false;
        if ev.reason == DespawnReason::Health {
            if let Some(c) = world.get(ev.entity) {
                if let (Some(tags), Some(p), Some(spr)) = (&c.tags, c.position, c.sprite) {
                    if tags.has(Tag::Asteroid) {
                        sounds.play(SoundEffectType::Explosion);
                        let x = explosion(p.x, p.y, spr.scale_x, spr.scale_y);
                        commands.spawn(x);
                        fired = true;
                        proof {
                            assert(commands.commands@[cb.len() as int] == Command::Spawn(x));
                            assert(is_explosion_for(x, w[ev.entity]));
                        }
                    }
                }
            }
        }
        proof {
            let pre = evs.subrange(0, k as int);
            let post = evs.subrange(0, k + 1);
            assert(post.drop_last() =~= pre);
            assert(post.last() == ev);
            assert(fired == explosion_due(w, ev));
            let ac = commands.commands@.subrange(c0.len() as int, commands.commands@.len() as int);
            let acb = cb.subrange(c0.len() as int, cb.len() as int);
            let asn = sounds.requests@.subrange(s0.len() as int, sounds.requests@.len() as int);
            let asb = sb.subrange(s0.len() as int, sb.len() as int);
            if fired {
                assert(ac =~= acb.push(commands.commands@[cb.len() as int]));
                assert(asn =~= asb.push(SoundEffectType::Explosion));
            } else {
                assert(ac =~= acb);
                assert(asn =~= asb);
            }
            assert(commands.commands@.subrange(0, c0.len() as int) =~= cb.subrange(0, c0.len() as int));
            assert(sounds.requests@.subrange(0, s0.len() as int) =~= sb.subrange(0, s0.len() as int));
            let due = due_events(w, post);
            assert forall|j: int| 0 <= j < ac.len() implies (#[trigger] ac[j] matches Command::Spawn(x) && is_explosion_for(
                x,
                w[due[j].entity],
            )) by {
                if j < acb.len() {
                    assert(ac[j] == acb[j]);
                }
            }
        }
        k = k + 1;
    }
    proof {
        assert(evs.subrange(0, evs.len() as int) =~= evs);
    }
}

impl Game {
    pub open spec fn wf(&self) -> bool {
        &&& self.world.wf()
        &&& self.collisions.wf()
        &&& self.score.wf()
        &&& self.scheduler.wf()
        &&& self.scheduler.valid_order(self.order@)
    }

    /// Registers the systems with their dependencies, in the order the
    /// frame would run them were they independent.
    pub fn default_scheduler() -> (r: Result<Scheduler, ScheduleError>)
        ensures
            r is Ok,
            r matches Ok(s) ==> s.wf() && s.deps_registered_before() && s.names_spec().len() == 15,
    {
        let mut s = Scheduler::new();
        register(&mut s, SystemKind::Gun, no_deps());
        register(&mut s, SystemKind::Collision, no_deps());
        assert(s.names_spec()[1] == SystemKind::Collision);
        register(&mut s, SystemKind::DamageOnCollision, after(SystemKind::Collision));
        assert(s.names_spec()[1] == SystemKind::Collision);
        register(&mut s, SystemKind::CollisionReactions, after(SystemKind::Collision));
        assert(s.names_spec()[2] == SystemKind::DamageOnCollision);
        assert(s.names_spec()[3] == SystemKind::CollisionReactions);
        register(&mut s, SystemKind::Health, after_both(SystemKind::DamageOnCollision, SystemKind::CollisionReactions));
        register(&mut s, SystemKind::Motion, no_deps());
        assert(s.names_spec()[5] == SystemKind::Motion);
        register(&mut s, SystemKind::PositionBounds, after(SystemKind::Motion));
        register(&mut s, SystemKind::Timeout, no_deps());
        register(&mut s, SystemKind::DespawnBounds, no_deps());
        assert(s.names_spec()[2] == SystemKind::DamageOnCollision);
        register(&mut s, SystemKind::DespawnOnCollision, after(SystemKind::DamageOnCollision));
        register(&mut s, SystemKind::Score, no_deps());
        assert(s.names_spec()[4] == SystemKind::Health);
        register(&mut s, SystemKind::PointsOnLastHit, after(SystemKind::Health));
        register(&mut s, SystemKind::AttractMode, no_deps());
        assert(s.names_spec()[4] == SystemKind::Health);
        register(&mut s, SystemKind::PlayingMode, after(SystemKind::Health));
        register(&mut s, SystemKind::GameOverMode, no_deps());
        Ok(s)
    }

    /// A game in attract mode, with its systems scheduled by `scheduler`.
    pub fn with_scheduler(scheduler: Scheduler) -> (r: Result<Game, ScheduleError>)
        requires
            scheduler.wf(),
        ensures
            r matches Ok(g) ==> g.wf() && g.world@ == Map::<EntityId, Components>::empty(),
            r matches Ok(g) ==> g.damages.events@ == Seq::<crate::damage::DamageEvent>::empty()
                && g.despawns.events@ == Seq::<crate::despawn::DespawnEvent>::empty()
                && g.commands.commands@ == Seq::<Command>::empty(),
            r matches Ok(g) ==> g.scheduler.valid_order(g.order@) && g.scheduler.stable(g.order@),
            r matches Ok(g) ==> g.mode == (GameModeManager {
                current_mode: GameMode::Attract,
                pending_mode: GameMode::Attract,
                resolved: false,
            }),
            r matches Err(e) ==> e is Cycle ==> forall|o: Seq<usize>| !scheduler.valid_order(o),
            r matches Err(e) ==> e is UnknownDependency ==> !scheduler.deps_known(),
            scheduler.deps_registered_before() && scheduler.names_spec().len() <= usize::MAX ==> r is Ok,
    {
        let built = scheduler.build();
        proof {
            if scheduler.deps_registered_before() && scheduler.names_spec().len() <= usize::MAX {
                scheduler.lemma_registration_order_valid();
            }
        }
        let order = built?;
        Ok(Game {
            world: World::new(),
            delta: 0,
            inputs: Inputs::new(),
            collisions: Collisions::new(),
            damages: DamageEventQueue::new(),
            despawns: DespawnEventQueue::new(),
            sounds: SoundEffectQueue::new(),
            score: PlayerScore::new(),
            mode: GameModeManager::new(),
            game_over: GameOverModeState::new(),
            playing: PlayingModeState::new(),
            shake: CameraShake { magnitude: 0, remaining: 0 },
            commands: CommandBuffer::new(),
            scheduler,
            order,
            rules: default_rules(),
        })
    }

    /// A game in attract mode with the default systems.  Fails when the
    /// system dependencies cannot be ordered.
    pub fn new() -> (r: Result<Game, ScheduleError>)
        ensures
            r is Ok,
            r matches Ok(g) ==> g.wf() && g.world@ == Map::<EntityId, Components>::empty(),
            r matches Ok(g) ==> g.damages.events@ == Seq::<crate::damage::DamageEvent>::empty()
                && g.despawns.events@ == Seq::<crate::despawn::DespawnEvent>::empty()
                && g.commands.commands@ == Seq::<Command>::empty(),
            r matches Ok(g) ==> g.mode == (GameModeManager {
                current_mode: GameMode::Attract,
                pending_mode: GameMode::Attract,
                resolved: false,
            }),
    {
        let s = Game::default_scheduler()?;
        Game::with_scheduler(s)
    }
}

/// Queues an asteroid of diameter `size` entering at `x`, moving at
/// `(vx, vy)` and spinning at `vr`, unless it would overlap a solid entity
/// of `world`.  The result tells whether it was queued.
pub fn place_asteroid(
    world: &World,
    commands: &mut CommandBuffer,
    x: i32,
    size: u32,
    vx: i32,
    vy: i32,
    vr: i32,
) -> (r: bool)
    requires
        world.wf(),
        size <= i32::MAX - PLAYFIELD_HEIGHT / 2,
    ensures
        r == forall|e: EntityId|
            #[trigger] world@.contains_key(e) && solid(world@[e]) ==> !overlaps_record(
                world@[e],
                x as int,
                entry_y(size) as int,
                size as int,
            ),
        !r ==> final(commands).commands@ == old(commands).commands@,
        r ==> final(commands).commands@.len() == old(commands).commands@.len() + 1,
        r ==> final(commands).commands@.subrange(0, old(commands).commands@.len() as int)
            == old(commands).commands@,
        r ==> (final(commands).commands@.last() matches Command::Spawn(c) && tags_of(c) == seq![
            Tag::Asteroid,
            Tag::Enemy,
        ] && c.position == Some(crate::components::Position { x, y: entry_y(size), r: 0 })),
{
    let y: i32 = -PLAYFIELD_HEIGHT / 2 - size as i32;
    if !is_empty_at(world, x, y, size) {
        return false;
    }
    let c = asteroid(x, y, size, vx, vy, vr);
    commands.spawn(c);
    proof {
        assert(commands.commands@.subrange(0, old(commands).commands@.len() as int) =~= old(commands).commands@);
    }
    true
}

/// Queues an asteroid of random size, entry point and motion, unless it
/// would overlap a solid entity of `world`.
pub fn spawn_asteroid(world: &World, commands: &mut CommandBuffer) -> (r: bool)
    requires
        world.wf(),
    ensures
        !r ==> final(commands).commands@ == old(commands).commands@,
        r ==> final(commands).commands@.len() == old(commands).commands@.len() + 1,
        r ==> final(commands).commands@.subrange(0, old(commands).commands@.len() as int)
            == old(commands).commands@,
        r ==> (final(commands).commands@.last() matches Command::Spawn(c) && tags_of(c) == seq![
            Tag::Asteroid,
            Tag::Enemy,
        ]),
{
    let size = 25_000 + random_below(150_000);
    let x = -PLAYFIELD_WIDTH / 2 + random_below(PLAYFIELD_WIDTH as u32) as i32;
    let vx = 50_000 - random_below(100_000) as i32;
    let vy = 50_000 + random_below(100_000) as i32;
    let vr = random_below(3142) as i32;
    place_asteroid(world, commands, x, size, vx, vy, vr)
}

/// Queues the removal of every entity of `world` that is the player's hero.
pub fn remove_heroes(world: &World, commands: &mut CommandBuffer)
    requires
        world.wf(),
    ensures
        final(commands).commands@.len() >= old(commands).commands@.len(),
        final(commands).commands@.subrange(0, old(commands).commands@.len() as int) == old(commands).commands@,
        forall|e: EntityId| #[trigger] world@.contains_key(e) && world@[e].hero_player ==> final(commands).commands@.contains(Command::Remove(e)),
        forall|k: int| old(commands).commands@.len() <= k < final(commands).commands@.len() ==>
            (#[trigger] final(commands).commands@[k] matches Command::Remove(e) && world@.contains_key(e) && world@[e].hero_player),
{
    let kinds = vec![ComponentKind::HeroPlayer];
    let heroes = world.entities_with(&kinds);
    let ghost c0 = commands.commands@;
    let mut k: usize = 0;
    proof {
        assert(commands.commands@.subrange(0, c0.len() as int) =~= c0);
    }
    while k < heroes.len()
        invariant
            commands.commands@.len() == c0.len() + k,
            commands.commands@.subrange(0, c0.len() as int) == c0,
            k <= heroes@.len(),
            kinds@ == seq![ComponentKind::HeroPlayer],
            forall|e: EntityId| heroes@.contains(e) <==> world@.contains_key(e) && world@[e].has_all_spec(kinds@),
            forall|m: int| 0 <= m < k ==> commands.commands@[c0.len() + m] == Command::Remove(#[trigger] heroes@[m]),
        decreases heroes@.len() - k,
    {
        let ghost cb = commands.commands@;
        commands.remove(heroes[k]);
        proof {
            assert(commands.commands@.subrange(0, c0.len() as int) =~= cb.subrange(0, c0.len() as int));
        }
        k = k + 1;
    }
    proof {
        assert forall|e: EntityId| #[trigger] world@.contains_key(e) && world@[e].hero_player implies commands.commands@.contains(Command::Remove(e)) by {
            assert(world@[e].has_all_spec(kinds@));
            assert(heroes@.contains(e));
            let m = choose|m: int| 0 <= m < heroes@.len() && heroes@[m] == e;
            assert(commands.commands@[c0.len() + m] == Command::Remove(e));
        }
        assert forall|k: int| c0.len() <= k < commands.commands@.len() implies
            (#[trigger] commands.commands@[k] matches Command::Remove(e) && world@.contains_key(e) && world@[e].hero_player) by {
            let m = k - c0.len();
            assert(commands.commands@[c0.len() + m] == Command::Remove(heroes@[m]));
            assert(heroes@.contains(heroes@[m]));
            assert(kinds@[0] == ComponentKind::HeroPlayer);
        }
    }
}

/// The attract-mode system's effect, from `s` to `t`.
pub open spec fn attract_step(s: Game, t: Game) -> bool {
    let c0 = s.commands.commands@;
    let c = t.commands.commands@;
    if s.mode.is_pending_spec(GameMode::Attract) {
        &&& t == (Game { inputs: t.inputs, mode: t.mode, commands: t.commands, ..s })
        &&& t.inputs == Inputs::released()
        &&& t.mode == s.mode.resolved_spec()
        &&& c.len() == c0.len() + 2
        &&& c.subrange(0, c0.len() as int) == c0
        &&& c[c0.len() as int] is Clear
        &&& (c.last() matches Command::Spawn(p) && p.hero_planet && tags_of(p) == seq![Tag::Planet, Tag::Friend])
    } else if s.mode.is_current_spec(GameMode::Attract) {
        &&& t == (Game { mode: t.mode, commands: t.commands, ..s })
        &&& t.mode == if s.inputs.fire {
            s.mode.changed(GameMode::Playing)
        } else {
            s.mode
        }
        &&& c0.len() <= c.len() <= c0.len() + 1
        &&& c.subrange(0, c0.len() as int) == c0
        &&& c.len() > c0.len() ==> (c.last() matches Command::Spawn(a) && tags_of(a) == seq![Tag::Asteroid, Tag::Enemy])
    } else {
        t == s
    }
}

/// The play-mode system's effect, from `s` to `t`.
pub open spec fn playing_step(s: Game, t: Game) -> bool {
    let c0 = s.commands.commands@;
    let c = t.commands.commands@;
    let s0 = s.sounds.requests@;
    let sn = t.sounds.requests@;
    if s.mode.is_pending_spec(GameMode::Playing) {
        &&& t == (Game {
            inputs: t.inputs,
            mode: t.mode,
            commands: t.commands,
            playing: t.playing,
            score: t.score,
            sounds: t.sounds,
            ..s
        })
        &&& t.inputs == Inputs::released()
        &&& t.mode == s.mode.resolved_spec()
        &&& t.playing.ready_delay == READY_DELAY
        &&& t.score.current_spec() == 0
        &&& t.score.displayed_spec() == 0
        &&& t.score.factor_spec() == s.score.factor_spec()
        &&& sn == s0.push(SoundEffectType::Ready)
        &&& c.len() == c0.len() + 3
        &&& c.subrange(0, c0.len() as int) == c0
        &&& c[c0.len() as int] is Clear
        &&& (c[c0.len() + 1int] matches Command::Spawn(p) && p.hero_player && tags_of(p) == seq![Tag::Player, Tag::Friend])
        &&& (c[c0.len() + 2int] matches Command::Spawn(p) && p.hero_planet && tags_of(p) == seq![Tag::Planet, Tag::Friend])
    } else if s.mode.is_current_spec(GameMode::Playing) {
        &&& t == (Game {
            playing: t.playing,
            mode: t.mode,
            commands: t.commands,
            world: t.world,
            sounds: t.sounds,
            ..s
        })
        &&& t.playing.ready_delay == counted_down(s.playing.ready_delay, s.delta)
        &&& t.mode == if any_with(s.world@, ComponentKind::HeroPlanet) && any_with(s.world@, ComponentKind::HeroPlayer) {
            s.mode
        } else {
            s.mode.changed(GameMode::GameOver)
        }
        &&& t.world.wf()
        &&& t.world@.dom() == s.world@.dom()
        &&& forall|e: EntityId| #[trigger] t.world@.contains_key(e) ==> if s.world@[e].thrusters is Some
            && s.world@[e].gun is Some {
            steered(s.world@[e], t.world@[e], s.inputs)
        } else {
            t.world@[e] == s.world@[e]
        }
        &&& sn.len() >= s0.len()
        &&& sn.subrange(0, s0.len() as int) == s0
        &&& exists|m: int|
            c0.len() <= m <= c0.len() + 1 && m <= c.len() && c.subrange(0, c0.len() as int) == c0 && (m
                > c0.len() ==> (c[m - 1] matches Command::Spawn(a) && tags_of(a) == seq![Tag::Asteroid, Tag::Enemy]))
                && explosions_for(c.subrange(m, c.len() as int), sn.subrange(s0.len() as int, sn.len() as int), t.world@, s.despawns.events@)
    } else {
        t == s
    }
}

/// The game-over system's effect, from `s` to `t`.
pub open spec fn game_over_step(s: Game, t: Game) -> bool {
    let c0 = s.commands.commands@;
    let c = t.commands.commands@;
    if s.mode.is_pending_spec(GameMode::GameOver) {
        &&& t == (Game {
            inputs: t.inputs,
            mode: t.mode,
            commands: t.commands,
            game_over: t.game_over,
            score: t.score,
            ..s
        })
        &&& t.inputs == Inputs::released()
        &&& t.mode == s.mode.resolved_spec()
        &&& t.game_over.reset_ttl == RESET_TTL_MAX
        &&& t.score.current_spec() == s.score.current_spec()
        &&& t.score.displayed_spec() == 0
        &&& t.score.factor_spec() == s.score.factor_spec()
        &&& c.len() >= c0.len()
        &&& c.subrange(0, c0.len() as int) == c0
        &&& forall|e: EntityId| #[trigger] s.world@.contains_key(e) && s.world@[e].hero_player ==> c.contains(Command::Remove(e))
        &&& forall|k: int| c0.len() <= k < c.len() ==> (#[trigger] c[k] matches Command::Remove(e) && s.world@.contains_key(e)
            && s.world@[e].hero_player)
    } else if s.mode.is_current_spec(GameMode::GameOver) && s.score.current_spec() == s.score.displayed_spec() {
        let ttl = counted_down(s.game_over.reset_ttl, s.delta);
        let m1 = if ttl <= 0 {
            s.mode.changed(GameMode::Attract)
        } else {
            s.mode
        };
        &&& t == (Game { game_over: t.game_over, mode: t.mode, ..s })
        &&& t.game_over.reset_ttl == ttl
        &&& t.mode == if s.inputs.fire {
            m1.changed(GameMode::Playing)
        } else {
            m1
        }
    } else {
        t == s
    }
}

/// What running the system `kind` does, from `s` to `t`: exactly the
/// contract of that system, and nothing outside the state it uses.
#[verifier::opaque]
pub open spec fn system_step(kind: SystemKind, s: Game, t: Game) -> bool {
    let w0 = s.world@;
    let w1 = t.world@;
    let q0 = s.despawns.events@;
    let q1 = t.despawns.events@;
    match kind {
        SystemKind::Gun => {
            &&& t == (Game { world: t.world, commands: t.commands, sounds: t.sounds, ..s })
            &&& gun_effect(w0, w1, s.delta, s.commands.commands@, t.commands.commands@, s.sounds.requests@, t.sounds.requests@)
        },
        SystemKind::Collision => {
            &&& t == (Game { collisions: t.collisions, ..s })
            &&& forall|a: EntityId, b: EntityId| t.collisions@.contains((a, b)) <==> crate::collision::collides(w0, a, b)
        },
        SystemKind::DamageOnCollision => {
            let d0 = s.damages.events@;
            let d1 = t.damages.events@;
            &&& t == (Game { damages: t.damages, despawns: t.despawns, ..s })
            &&& d1.len() >= d0.len()
            &&& d1.subrange(0, d0.len() as int) == d0
            &&& crate::damage::hit_events(d1.subrange(d0.len() as int, d1.len() as int), w0, s.collisions@)
            &&& crate::despawn::extends(q0, q1)
            &&& crate::damage::self_destructs(crate::despawn::appended(q0, q1), w0, s.collisions@)
        },
        SystemKind::CollisionReactions => if s.mode.is_current_spec(GameMode::Playing) {
            &&& t == (Game { damages: t.damages, sounds: t.sounds, shake: t.shake, ..s })
            &&& reactions_effect(w0, s.collisions@, s.rules@, s.damages.events@, t.damages.events@, s.sounds.requests@, t.sounds.requests@, s.shake, t.shake)
        } else {
            t == s
        },
        SystemKind::Health => {
            &&& t == (Game { world: t.world, damages: t.damages, despawns: t.despawns, ..s })
            &&& w1 == crate::damage::apply_events(w0, s.damages.events@)
            &&& t.damages.events@ == Seq::<crate::damage::DamageEvent>::empty()
            &&& crate::despawn::extends(q0, q1)
            &&& crate::despawn::emitted(crate::despawn::appended(q0, q1), DespawnReason::Health, crate::damage::dead_set(w1))
        },
        SystemKind::Motion => {
            &&& t == (Game { world: t.world, ..s })
            &&& w1 == crate::motion::world_moved(w0, s.delta)
        },
        SystemKind::PositionBounds => {
            &&& t == (Game { world: t.world, ..s })
            &&& w1 == crate::motion::world_bounded(w0)
        },
        SystemKind::Timeout => {
            &&& t == (Game { world: t.world, despawns: t.despawns, ..s })
            &&& w1 == crate::despawn::timeouts_after(w0, s.delta)
            &&& crate::despawn::extends(q0, q1)
            &&& crate::despawn::emitted(crate::despawn::appended(q0, q1), DespawnReason::Timeout, crate::despawn::timed_out_set(w1))
        },
        SystemKind::DespawnBounds => {
            &&& t == (Game { despawns: t.despawns, ..s })
            &&& crate::despawn::extends(q0, q1)
            &&& crate::despawn::emitted(crate::despawn::appended(q0, q1), DespawnReason::OutOfBounds, crate::despawn::out_of_bounds_set(w0))
        },
        SystemKind::DespawnOnCollision => {
            &&& t == (Game { despawns: t.despawns, ..s })
            &&& crate::despawn::extends(q0, q1)
            &&& crate::despawn::emitted(crate::despawn::appended(q0, q1), DespawnReason::Collision, crate::despawn::collided_set(w0, s.collisions@))
        },
        SystemKind::Score => {
            &&& t == (Game { score: t.score, ..s })
            &&& t.score.displayed_spec() == crate::score::eased(
                s.score.current_spec() as int,
                s.score.displayed_spec() as int,
                s.score.factor_spec() as int,
            )
            &&& t.score.current_spec() == s.score.current_spec()
            &&& t.score.factor_spec() == s.score.factor_spec()
        },
        SystemKind::PointsOnLastHit => {
            &&& t == (Game { score: t.score, ..s })
            &&& t.score.current_spec() == crate::score::credited(s.score.current_spec(), w0, q0)
            &&& t.score.displayed_spec() == s.score.displayed_spec()
            &&& t.score.factor_spec() == s.score.factor_spec()
        },
        SystemKind::AttractMode => attract_step(s, t),
        SystemKind::PlayingMode => playing_step(s, t),
        SystemKind::GameOverMode => game_over_step(s, t),
    }
}

/// The end of a frame, from `s` to `t`: the despawned entities are deleted,
/// then the deferred commands applied, creating entities with fresh ids,
/// and the event queues are emptied.
pub open spec fn end_frame_step(s: Game, t: Game) -> bool {
    let cleared = s.world@.remove_keys(crate::despawn::targets(s.despawns.events@));
    &&& t == (Game { world: t.world, damages: t.damages, despawns: t.despawns, commands: t.commands, ..s })
    &&& exists|ids: Seq<EntityId>| {
        &&& ids.len() == crate::commands::spawn_count(s.commands.commands@)
        &&& #[trigger] crate::commands::replay(cleared, s.commands.commands@, ids) == t.world@
        &&& crate::commands::fresh_ids(cleared, s.commands.commands@, ids)
    }
    &&& t.damages.events@ == Seq::<crate::damage::DamageEvent>::empty()
    &&& t.despawns.events@ == Seq::<crate::despawn::DespawnEvent>::empty()
    &&& t.commands.commands@ == Seq::<Command>::empty()
}

/// A frame of `dt` milliseconds from `s` to `t`, through the states `ss`:
/// the frame time is set and the view shake runs down, each scheduled
/// system steps in order, then the frame ends.
pub open spec fn frame(s: Game, dt: u32, ss: Seq<Game>, t: Game) -> bool {
    let n = s.order@.len();
    &&& ss.len() == n + 1
    &&& ss[0] == (Game {
        delta: dt,
        shake: CameraShake { remaining: counted_down(s.shake.remaining, dt), ..s.shake },
        ..s
    })
    &&& forall|k: int|
        0 <= k < n ==> system_step(s.scheduler.names_spec()[s.order@[k] as int], #[trigger] ss[k], ss[k + 1])
    &&& end_frame_step(ss[n as int], t)
}

fn no_deps() -> (v: Vec<SystemKind>)
    ensures
        v@ == Seq::<SystemKind>::empty(),
{
    Vec::new()
}

fn after(a: SystemKind) -> (v: Vec<SystemKind>)
    ensures
        v@ == seq![a],
{
    let mut v = Vec::new();
    v.push(a);
    assert(v@ =~= seq![a]);
    v
}

fn after_both(a: SystemKind, b: SystemKind) -> (v: Vec<SystemKind>)
    ensures
        v@ == seq![a, b],
{
    let mut v = Vec::new();
    v.push(a);
    v.push(b);
    assert(v@ =~= seq![a, b]);
    v
}

/// Registers `kind` after all of its dependencies.
fn register(s: &mut Scheduler, kind: SystemKind, deps: Vec<SystemKind>)
    requires
        old(s).wf(),
        old(s).deps_registered_before(),
        !old(s).names_spec().contains(kind),
        forall|k: int| 0 <= k < deps@.len() ==> old(s).names_spec().contains(#[trigger] deps@[k]),
    ensures
        final(s).wf(),
        final(s).deps_registered_before(),
        final(s).names_spec() == old(s).names_spec().push(kind),
{
    let ghost ds = deps@;
    let r = s.add(kind, deps);
    proof {
        let n0 = old(s).names_spec().len();
        assert forall|i: int, d: SystemKind|
            0 <= i < s.names_spec().len() && #[trigger] s.deps_spec(i).contains(d) implies exists|j: int|
                0 <= j < i && s.names_spec()[j] == d by {
            if i < n0 {
                assert(old(s).deps_spec(i).contains(d));
                let j = choose|j: int| 0 <= j < i && old(s).names_spec()[j] == d;
                assert(s.names_spec()[j] == d);
            } else {
                let k = choose|k: int| 0 <= k < ds.len() && ds[k] == d;
                assert(old(s).names_spec().contains(ds[k]));
                let j = choose|j: int| 0 <= j < n0 && old(s).names_spec()[j] == d;
                assert(s.names_spec()[j] == d);
            }
        }
    }
}

/// Whether `new` keeps the schedule and the rules of `old`.
pub open spec fn same_setup(old: &Game, new: &Game) -> bool {
    &&& new.order@ == old.order@
    &&& new.scheduler == old.scheduler
    &&& new.rules@ == old.rules@
}

/// The vertical position where asteroids enter, above the playfield.
pub open spec fn entry_y(size: u32) -> i32 {
    (-PLAYFIELD_HEIGHT / 2 - size) as i32
}

impl Game {
    /// Attract mode: on entry clears the world and raises the planet; then
    /// sends asteroids now and then, and starts play when fire is pressed.
    pub fn attract_mode_system(&mut self)
        requires
            old(self).wf(),
        ensures
            final(self).wf(),
            attract_step(*old(self), *final(self)),
    {
        if self.mode.is_pending(GameMode::Attract) {
            self.inputs.reset();
            self.commands.clear_world();
            self.commands.spawn(planet());
            self.mode.resolve();
            proof {
                let c0 = old(self).commands.commands@;
                assert(self.commands.commands@.subrange(0, c0.len() as int) =~= c0);
                assert(self.commands.commands@[c0.len() as int] == Command::Clear);
            }
            return;
        }
        if !self.mode.is_current(GameMode::Attract) {
            return;
        }
        if random_below(1000) < 100 {
            spawn_asteroid(&self.world, &mut self.commands);
        }
        proof {
            assert(self.commands.commands@.subrange(0, old(self).commands.commands@.len() as int) =~= old(self).commands.commands@);
        }
        if self.inputs.fire {
            self.mode.change(GameMode::Playing);
        }
    }

    /// Play: on entry clears the world, resets the score and the ready
    /// delay, and brings on the player and the planet; then, once ready,
    /// sends asteroids more often as the score grows, ends the game when
    /// the player or the planet is gone, steers the player, and leaves an
    /// explosion where an asteroid was destroyed.
    pub fn playing_mode_system(&mut self)
        requires
            old(self).wf(),
        ensures
            final(self).wf(),
            playing_step(*old(self), *final(self)),
    {
        if self.mode.is_pending(GameMode::Playing) {
            self.inputs.reset();
            self.commands.clear_world();
            self.playing.reset();
            self.score.reset();
            self.commands.spawn(player());
            self.commands.spawn(planet());
            self.sounds.play(SoundEffectType::Ready);
            self.mode.resolve();
            proof {
                let c0 = old(self).commands.commands@;
                assert(self.commands.commands@.subrange(0, c0.len() as int) =~= c0);
                assert(self.commands.commands@[c0.len() as int] == Command::Clear);
            }
            return;
        }
        if !self.mode.is_current(GameMode::Playing) {
            return;
        }
        self.playing.update(self.delta);
        if self.playing.ready_delay <= 0 {
            let chance: i64 = 25 + self.score.get() as i64 / 1500;
            if (random_below(1000) as i64) < chance {
                spawn_asteroid(&self.world, &mut self.commands);
            }
        }
        let planet_alive = any_entity_with(&self.world, ComponentKind::HeroPlanet);
        let player_alive = any_entity_with(&self.world, ComponentKind::HeroPlayer);
        if !planet_alive || !player_alive {
            self.mode.change(GameMode::GameOver);
        }
        PlayerControlSystem.run(&mut self.world, &self.inputs);
        let ghost cm = self.commands.commands@;
        let ghost sm = self.sounds.requests@;
        tombstone_system(&self.world, &self.despawns, &mut self.commands, &mut self.sounds);
        proof {
            let c0 = old(self).commands.commands@;
            let c = self.commands.commands@;
            let m = cm.len() as int;
            assert(c.subrange(0, c0.len() as int) =~= cm.subrange(0, c0.len() as int));
            assert(sm == old(self).sounds.requests@);
            if m > c0.len() {
                assert(c[m - 1] == cm[m - 1]);
            }
            assert(c0.len() <= m <= c0.len() + 1 && m <= c.len() && c.subrange(0, c0.len() as int) == c0 && (m
                > c0.len() ==> (c[m - 1] matches Command::Spawn(a) && tags_of(a) == seq![Tag::Asteroid, Tag::Enemy])));
        }
    }

    /// Game over: on entry removes the player and lets the displayed score
    /// count up again; once it has caught up, counts down to attract mode,
    /// or starts a new game when fire is pressed.
    pub fn game_over_mode_system(&mut self)
        requires
            old(self).wf(),
        ensures
            final(self).wf(),
            game_over_step(*old(self), *final(self)),
    {
        if self.mode.is_pending(GameMode::GameOver) {
            self.inputs.reset();
            remove_heroes(&self.world, &mut self.commands);
            self.game_over.reset();
            self.score.reset_displayed();
            self.mode.resolve();
            return;
        }
        if self.mode.is_current(GameMode::GameOver) {
            if self.score.get() == self.score.get_displayed() {
                self.game_over.update(self.delta);
                if self.game_over.reset_ttl <= 0 {
                    self.mode.change(GameMode::Attract);
                }
                if self.inputs.fire {
                    self.mode.change(GameMode::Playing);
                }
            }
        }
    }

    /// Runs one system of the frame.
    pub fn run_system(&mut self, kind: SystemKind)
        requires
            old(self).wf(),
        ensures
            final(self).wf(),
            system_step(kind, *old(self), *final(self)),
            same_setup(old(self), final(self)),
            final(self).delta == old(self).delta,
    {
        proof {
            reveal(system_step);
        }
        match kind {
            SystemKind::Gun => gun_system(&mut self.world, self.delta, &mut self.commands, &mut self.sounds),
            SystemKind::Collision => self.collisions.detect(&self.world),
            SystemKind::DamageOnCollision => damage_on_collision_system(
                &self.world,
                &self.collisions,
                &mut self.damages,
                &mut self.despawns,
            ),
            SystemKind::CollisionReactions => {
                if self.mode.is_current(GameMode::Playing) {
                    collision_reactions_system(
                        &self.world,
                        &self.collisions,
                        &self.rules,
                        &mut self.damages,
                        &mut self.sounds,
                        &mut self.shake,
                    );
                }
            },
            SystemKind::Health => health_system(&mut self.world, &mut self.damages, &mut self.despawns),
            SystemKind::Motion => motion_system(&mut self.world, self.delta),
            SystemKind::PositionBounds => position_bounds_system(&mut self.world),
            SystemKind::Timeout => timeout_system(&mut self.world, self.delta, &mut self.despawns),
            SystemKind::DespawnBounds => despawn_bounds_system(&self.world, &mut self.despawns),
            SystemKind::DespawnOnCollision => despawn_on_collision_system(
                &self.world,
                &self.collisions,
                &mut self.despawns,
            ),
            SystemKind::Score => self.score.update(),
            SystemKind::PointsOnLastHit => points_on_last_hit_system(
                &self.world,
                &self.despawns.events,
                &mut self.score,
            ),
            SystemKind::AttractMode => self.attract_mode_system(),
            SystemKind::PlayingMode => self.playing_mode_system(),
            SystemKind::GameOverMode => self.game_over_mode_system(),
        }
    }

    /// One frame of `dt` milliseconds: runs the scheduled systems in order,
    /// deletes the entities whose despawn was requested, applies the
    /// deferred commands, and empties the frame's event queues.
    pub fn advance(&mut self, dt: u32)
        requires
            old(self).wf(),
        ensures
            final(self).wf(),
            exists|ss: Seq<Game>| #[trigger] frame(*old(self), dt, ss, *final(self)),
    {
        self.delta = dt;
        self.shake.remaining = if self.shake.remaining > 0 {
            self.shake.remaining - dt as i64
        } else {
            self.shake.remaining
        };
        let ghost s0 = *old(self);
        let ghost mut ss: Seq<Game> = seq![*self];
        proof {
            assert(ss[0] == (Game {
                delta: dt,
                shake: CameraShake { remaining: counted_down(s0.shake.remaining, dt), ..s0.shake },
                ..s0
            }));
        }
        let n = self.order.len();
        let mut k: usize = 0;
        while k < n
            invariant
                self.wf(),
                same_setup(&s0, self),
                n == self.order@.len(),
                k <= n,
                ss.len() == k + 1,
                ss[0] == (Game {
                    delta: dt,
                    shake: CameraShake { remaining: counted_down(s0.shake.remaining, dt), ..s0.shake },
                    ..s0
                }),
                ss[k as int] == *self,
                forall|j: int|
                    0 <= j < k ==> system_step(s0.scheduler.names_spec()[s0.order@[j] as int], #[trigger] ss[j], ss[j + 1]),
            decreases n - k,
        {
            let idx = self.order[k];
            let kind = self.scheduler.kind_at(idx);
            let ghost before = ss;
            self.run_system(kind);
            proof {
                ss = ss.push(*self);
                assert forall|j: int|
                    0 <= j < k + 1 implies system_step(s0.scheduler.names_spec()[s0.order@[j] as int], #[trigger] ss[j], ss[j + 1]) by {
                    if j < k {
                        assert(ss[j] == before[j]);
                        assert(ss[j + 1] == before[j + 1]);
                    }
                }
            }
            k = k + 1;
        }
        self.end_frame();
        proof {
            assert(frame(s0, dt, ss, *self));
        }
    }

    /// The end of a frame: deletes the entities whose despawn was requested,
    /// then applies the deferred commands in order, and empties the event
    /// queues.  The result lists the entities the commands created.
    pub fn end_frame(&mut self) -> (ids: Vec<EntityId>)
        requires
            old(self).wf(),
        ensures
            final(self).wf(),
            same_setup(old(self), final(self)),
            final(self).delta == old(self).delta,
            final(self).mode == old(self).mode,
            ids@.len() == crate::commands::spawn_count(old(self).commands.commands@),
            final(self).world@ == crate::commands::replay(
                old(self).world@.remove_keys(crate::despawn::targets(old(self).despawns.events@)),
                old(self).commands.commands@,
                ids@,
            ),
            crate::commands::fresh_ids(
                old(self).world@.remove_keys(crate::despawn::targets(old(self).despawns.events@)),
                old(self).commands.commands@,
                ids@,
            ),
            final(self).damages.events@ == Seq::<crate::damage::DamageEvent>::empty(),
            final(self).despawns.events@ == Seq::<crate::despawn::DespawnEvent>::empty(),
            final(self).commands.commands@ == Seq::<Command>::empty(),
            end_frame_step(*old(self), *final(self)),
    {
        resolve_despawn_queue(&mut self.world, &mut self.despawns);
        let ids = self.commands.apply(&mut self.world);
        self.damages.clear();
        ids
    }

    /// Records `control` as held (`down`) or released.
    pub fn set_control(&mut self, control: Control, down: bool)
        requires
            old(self).wf(),
        ensures
            final(self).wf(),
            same_setup(old(self), final(self)),
            final(self).inputs == old(self).inputs.with(control, down),
            final(self).world@ == old(self).world@,
            final(self).mode == old(self).mode,
    {
        self.inputs.set_control(control, down);
    }

    /// Replaces the state of every control.
    pub fn set_input(&mut self, inputs: Inputs)
        requires
            old(self).wf(),
        ensures
            final(self).wf(),
            same_setup(old(self), final(self)),
            final(self).inputs == inputs,
            final(self).world@ == old(self).world@,
            final(self).mode == old(self).mode,
    {
        self.inputs = inputs;
    }

    /// Hands out the sounds requested so far, oldest first, and forgets them.
    pub fn next_sound_requests(&mut self) -> (r: Vec<SoundEffectType>)
        requires
            old(self).wf(),
        ensures
            final(self).wf(),
            same_setup(old(self), final(self)),
            r@ == old(self).sounds.requests@,
            final(self).sounds.requests@ == Seq::<SoundEffectType>::empty(),
            final(self).world@ == old(self).world@,
    {
        self.sounds.take()
    }

    /// Every entity with a position and a sprite, in slot order, with what
    /// is needed to draw it.
    pub fn renderables(&self) -> (r: Vec<Renderable>)
        requires
            self.wf(),
        ensures
            forall|k: int| 0 <= k < r@.len() ==> {
                let e = #[trigger] r@[k].entity;
                &&& self.world@.contains_key(e)
                &&& self.world@[e].position == Some(crate::components::Position { x: r@[k].x, y: r@[k].y, r: r@[k].r })
                &&& self.world@[e].sprite == Some(r@[k].sprite)
            },
            forall|e: EntityId| self.world@.contains_key(e) && self.world@[e].position is Some && self.world@[e].sprite is Some
                ==> exists|k: int| 0 <= k < r@.len() && r@[k].entity == e,
            forall|k: int, l: int| 0 <= k < l < r@.len() ==> r@[k].entity.index < r@[l].entity.index,
    {
        let kinds = vec![ComponentKind::Position, ComponentKind::Sprite];
        let ghost ks = kinds@;
        proof {
            assert(ks[0] == ComponentKind::Position && ks[1] == ComponentKind::Sprite);
        }
        let ids = self.world.entities_with(&kinds);
        let mut out: Vec<Renderable> = Vec::new();
        let mut k: usize = 0;
        while k < ids.len()
            invariant
                self.wf(),
                k <= ids@.len(),
                out@.len() == k,
                forall|e: EntityId| ids@.contains(e) <==> self.world@.contains_key(e) && self.world@[e].has_all_spec(ks),
                forall|a: int, b: int| 0 <= a < b < ids@.len() ==> ids@[a].index < ids@[b].index,
                ks[0] == ComponentKind::Position && ks[1] == ComponentKind::Sprite && ks.len() == 2,
                forall|m: int| 0 <= m < k ==> {
                    let e = #[trigger] out@[m].entity;
                    &&& e == ids@[m]
                    &&& self.world@.contains_key(e)
                    &&& self.world@[e].position == Some(crate::components::Position { x: out@[m].x, y: out@[m].y, r: out@[m].r })
                    &&& self.world@[e].sprite == Some(out@[m].sprite)
                },
            decreases ids@.len() - k,
        {
            let e = ids[k];
            proof {
                assert(ids@.contains(e));
                assert(self.world@[e].has_spec(ks[0]));
                assert(self.world@[e].has_spec(ks[1]));
            }
            let c = self.world.get(e).unwrap();
            let p = c.position.unwrap();
            let spr = c.sprite.unwrap();
            out.push(Renderable { entity: e, x: p.x, y: p.y, r: p.r, sprite: spr });
            k = k + 1;
        }
        proof {
            assert forall|e: EntityId| self.world@.contains_key(e) && self.world@[e].position is Some && self.world@[e].sprite is Some
                implies exists|m: int| 0 <= m < out@.len() && out@[m].entity == e by {
                assert forall|i: int| 0 <= i < ks.len() implies self.world@[e].has_spec(#[trigger] ks[i]) by {
                    if i == 0 {
                        assert(ks[i] == ComponentKind::Position);
                    } else {
                        assert(ks[i] == ComponentKind::Sprite);
                    }
                }
                assert(ids@.contains(e));
                let m = choose|m: int| 0 <= m < ids@.len() && ids@[m] == e;
                assert(out@[m].entity == e);
            }
            assert forall|a: int, b: int| 0 <= a < b < out@.len() implies out@[a].entity.index < out@[b].entity.index by {
                assert(out@[a].entity == ids@[a]);
                assert(out@[b].entity == ids@[b]);
            }
        }
        out
    }
}

} // verus!
