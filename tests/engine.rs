use invaders::collision::{is_empty_at, overlap, Collisions};
use invaders::commands::CommandBuffer;
use invaders::components::{
    Collidable, Component, ComponentKind, Components, EntityId, Health, Position, Rect, Tag, Tags,
    Timeout, Velocity,
};
use invaders::damage::{damage_on_collision_system, health_system, DamageEventQueue, DamagePolarity};
use invaders::despawn::{
    despawn_bounds_system, despawn_on_collision_system, resolve_despawn_queue, resolve_despawns,
    timeout_system, DespawnEvent, DespawnEventQueue, DespawnReason,
};
use invaders::motion::{motion_system, position_bounds_system};
use invaders::score::{points_on_last_hit_system, PlayerScore};
use invaders::world::World;

fn solid_at(world: &mut World, x: i32, y: i32, size: u32) -> EntityId {
    let mut c = Components::empty();
    c.position = Some(Position { x, y, r: 0 });
    c.collidable = Some(Collidable { size });
    world.spawn(c)
}

#[test]
fn overlapping_pair_are_mutual_partners() {
    let mut world = World::new();
    let a = solid_at(&mut world, 0, 0, 10);
    let b = solid_at(&mut world, 5, 0, 10);
    let mut collisions = Collisions::new();
    collisions.detect(&world);
    assert!(collisions.contains(a, b));
    assert!(collisions.contains(b, a));
    assert_eq!(collisions.partners(a), vec![b]);
    assert_eq!(collisions.partners(b), vec![a]);
}

#[test]
fn detection_is_symmetric_and_skips_distant_and_self() {
    let mut world = World::new();
    let a = solid_at(&mut world, 0, 0, 10);
    let b = solid_at(&mut world, 10, 0, 10);
    let c = solid_at(&mut world, 11, 0, 10);
    let far = solid_at(&mut world, 1000, 1000, 10);
    let mut collisions = Collisions::new();
    collisions.detect(&world);
    // distance 10 equals the half-sum 10: touching counts
    assert!(collisions.contains(a, b) && collisions.contains(b, a));
    // distance 11 exceeds it
    assert!(!collisions.contains(a, c) && !collisions.contains(c, a));
    assert!(collisions.contains(b, c) && collisions.contains(c, b));
    assert!(!collisions.has_partner(far));
    for e in [a, b, c, far] {
        assert!(!collisions.contains(e, e));
        for p in collisions.partners(e) {
            assert!(collisions.contains(p, e));
        }
    }
}

#[test]
fn same_centre_always_overlaps() {
    assert!(overlap(7, -3, 1, 7, -3, 1));
    let mut world = World::new();
    let a = solid_at(&mut world, 7, -3, 2);
    let b = solid_at(&mut world, 7, -3, 2);
    let mut collisions = Collisions::new();
    collisions.detect(&world);
    assert!(collisions.contains(a, b) && collisions.contains(b, a));
}

#[test]
fn detection_discards_the_previous_frame() {
    let mut world = World::new();
    let a = solid_at(&mut world, 0, 0, 10);
    let b = solid_at(&mut world, 5, 0, 10);
    let mut collisions = Collisions::new();
    collisions.detect(&world);
    assert!(collisions.contains(a, b));
    world.attach(b, Component::Position(Position { x: 500, y: 0, r: 0 }));
    collisions.detect(&world);
    assert!(!collisions.contains(a, b));
    assert!(!collisions.has_partner(a));
}

#[test]
fn collisions_insert_and_remove_both_directions() {
    let mut world = World::new();
    let a = world.create();
    let b = world.create();
    let mut collisions = Collisions::new();
    collisions.insert(a, b);
    assert!(collisions.contains(a, b) && collisions.contains(b, a));
    collisions.insert(a, b);
    assert_eq!(collisions.partners(a).len(), 1);
    collisions.remove(b, a);
    assert!(!collisions.contains(a, b) && !collisions.contains(b, a));
}

#[test]
fn empty_region_query() {
    let mut world = World::new();
    solid_at(&mut world, 0, 0, 10);
    assert!(!is_empty_at(&world, 5, 0, 10));
    assert!(is_empty_at(&world, 100, 0, 10));
    assert!(is_empty_at(&World::new(), 0, 0, 1000));
}

#[test]
fn lethal_damage_queues_a_health_despawn() {
    let mut world = World::new();
    let attacker = world.create();
    let mut c = Components::empty();
    c.health = Some(Health::new(10));
    let target = world.spawn(c);
    let mut damages = DamageEventQueue::new();
    damages.hurt(attacker, target, 15);
    let mut despawns = DespawnEventQueue::new();
    health_system(&mut world, &mut damages, &mut despawns);
    assert_eq!(damages.len(), 0);
    assert_eq!(despawns.events, vec![DespawnEvent { entity: target, reason: DespawnReason::Health }]);
    let h = world.get(target).unwrap().health.unwrap();
    assert_eq!(h.health, -5);
    assert_eq!(h.last_hurt_by, Some(attacker));
}

#[test]
fn healing_records_the_healer() {
    let mut world = World::new();
    let medic = world.create();
    let mut c = Components::empty();
    c.health = Some(Health::new(10));
    let target = world.spawn(c);
    let mut damages = DamageEventQueue::new();
    damages.heal(medic, target, 4);
    assert_eq!(damages.events[0].amount, -4);
    assert_eq!(damages.events[0].polarity, DamagePolarity::Heal);
    let mut despawns = DespawnEventQueue::new();
    health_system(&mut world, &mut damages, &mut despawns);
    let h = world.get(target).unwrap().health.unwrap();
    assert_eq!(h.health, 14);
    assert_eq!(h.last_healed_by, Some(medic));
    assert_eq!(h.last_hurt_by, None);
    assert!(despawns.events.is_empty());
}

#[test]
fn damage_queue_is_drained_every_resolution() {
    let mut world = World::new();
    let mut c = Components::empty();
    c.health = Some(Health::new(100));
    let target = world.spawn(c);
    let mut damages = DamageEventQueue::new();
    damages.hurt_mutual(target, target, 1);
    let mut despawns = DespawnEventQueue::new();
    health_system(&mut world, &mut damages, &mut despawns);
    assert_eq!(damages.len(), 0);
    assert_eq!(world.get(target).unwrap().health.unwrap().health, 98);
    // a second drain with nothing queued changes nothing
    health_system(&mut world, &mut damages, &mut despawns);
    assert_eq!(world.get(target).unwrap().health.unwrap().health, 98);
}

#[test]
fn damage_on_collision_hits_partners_not_excluded() {
    let mut world = World::new();
    let bullet = solid_at(&mut world, 0, 0, 10);
    let friend = solid_at(&mut world, 1, 0, 10);
    let enemy = solid_at(&mut world, 2, 0, 10);
    let mut dc = invaders::components::DamageOnCollision::default();
    dc.damage = 7;
    dc.exclude = vec![friend];
    world.attach(bullet, Component::DamageOnCollision(dc));
    let mut collisions = Collisions::new();
    collisions.detect(&world);
    let mut damages = DamageEventQueue::new();
    let mut despawns = DespawnEventQueue::new();
    damage_on_collision_system(&world, &collisions, &mut damages, &mut despawns);
    assert_eq!(damages.len(), 1);
    assert_eq!(damages.events[0].from, bullet);
    assert_eq!(damages.events[0].to, enemy);
    assert_eq!(damages.events[0].amount, 7);
    assert_eq!(despawns.events, vec![DespawnEvent { entity: bullet, reason: DespawnReason::SelfDestruct }]);
}

#[test]
fn despawned_entities_are_gone_and_a_second_pass_is_harmless() {
    let mut world = World::new();
    let a = world.create();
    let b = world.create();
    let keep = world.create();
    let events = vec![
        DespawnEvent { entity: a, reason: DespawnReason::Timeout },
        DespawnEvent { entity: b, reason: DespawnReason::Collision },
        DespawnEvent { entity: a, reason: DespawnReason::Health },
    ];
    resolve_despawns(&mut world, &events);
    assert!(!world.is_live(a) && !world.is_live(b));
    assert!(world.is_live(keep));
    resolve_despawns(&mut world, &events);
    assert!(!world.is_live(a) && !world.is_live(b));
    assert!(world.is_live(keep));
    let mut queue = DespawnEventQueue::new();
    queue.despawn(keep, DespawnReason::Other);
    resolve_despawn_queue(&mut world, &mut queue);
    assert!(!world.is_live(keep));
    assert_eq!(queue.len(), 0);
}

#[test]
fn timeouts_run_down_and_despawn() {
    let mut world = World::new();
    let mut c = Components::empty();
    c.timeout = Some(Timeout { remaining: 500 });
    let short = world.spawn(c);
    let mut c = Components::empty();
    c.timeout = Some(Timeout { remaining: 2000 });
    let long = world.spawn(c);
    let mut queue = DespawnEventQueue::new();
    timeout_system(&mut world, 500, &mut queue);
    assert_eq!(queue.events, vec![DespawnEvent { entity: short, reason: DespawnReason::Timeout }]);
    assert_eq!(world.get(long).unwrap().timeout, Some(Timeout { remaining: 1500 }));
    assert_eq!(world.get(short).unwrap().timeout, Some(Timeout { remaining: 0 }));
}

#[test]
fn out_of_bounds_and_collision_despawns() {
    let mut world = World::new();
    let mut c = Components::empty();
    c.position = Some(Position { x: 50, y: 0, r: 0 });
    c.despawn_bounds = Some(Rect { x: 0, y: 0, w: 10, h: 10 });
    let outside = world.spawn(c);
    let mut c = Components::empty();
    c.position = Some(Position { x: 10, y: 10, r: 0 });
    c.despawn_bounds = Some(Rect { x: 0, y: 0, w: 10, h: 10 });
    world.spawn(c);
    let mut queue = DespawnEventQueue::new();
    despawn_bounds_system(&world, &mut queue);
    assert_eq!(queue.events, vec![DespawnEvent { entity: outside, reason: DespawnReason::OutOfBounds }]);

    let mut world = World::new();
    let a = solid_at(&mut world, 0, 0, 10);
    let b = solid_at(&mut world, 3, 0, 10);
    world.attach(a, Component::DespawnOnCollision);
    let mut collisions = Collisions::new();
    collisions.detect(&world);
    let mut queue = DespawnEventQueue::new();
    despawn_on_collision_system(&world, &collisions, &mut queue);
    assert_eq!(queue.events, vec![DespawnEvent { entity: a, reason: DespawnReason::Collision }]);
    assert!(world.is_live(b));
}

#[test]
fn score_eases_toward_the_target() {
    let mut score = PlayerScore::new();
    assert_eq!(score.get(), 0);
    assert_eq!(score.get_displayed(), 0);
    score.set(1000);
    score.update();
    assert_eq!(score.get_displayed(), 101);
    let mut ticks = 1;
    let mut last = score.get_displayed();
    while score.get_displayed() != 1000 {
        score.update();
        ticks += 1;
        assert!(score.get_displayed() > last);
        assert!(score.get_displayed() <= 1000);
        last = score.get_displayed();
        assert!(ticks <= 1000);
    }
    score.update();
    assert_eq!(score.get_displayed(), 1000);
    assert_eq!(score.get(), 1000);
}

#[test]
fn score_eases_down_without_undershooting() {
    let mut score = PlayerScore::new();
    score.set(1000);
    for _ in 0..200 {
        score.update();
    }
    assert_eq!(score.get_displayed(), 1000);
    score.set(0);
    score.update();
    assert_eq!(score.get_displayed(), 899);
    for _ in 0..200 {
        score.update();
        assert!(score.get_displayed() >= 0);
    }
    assert_eq!(score.get_displayed(), 0);
}

#[test]
fn score_increment_decrement_and_resets() {
    let mut score = PlayerScore::new();
    score.increment(30);
    assert_eq!(score.get(), 30);
    score.decrement(50);
    assert_eq!(score.get(), 0);
    score.set(i32::MAX);
    score.increment(5);
    assert_eq!(score.get(), i32::MAX);
    score.update();
    assert!(score.get_displayed() > 0);
    score.reset_displayed();
    assert_eq!(score.get_displayed(), 0);
    assert_eq!(score.get(), i32::MAX);
    score.reset();
    assert_eq!(score.get(), 0);
    assert_eq!(score.get_displayed(), 0);
}

#[test]
fn points_go_to_the_player_for_kills() {
    let mut world = World::new();
    let mut c = Components::empty();
    c.tags = Some(Tags::new(vec![Tag::PlayerBullet, Tag::PlayerWeapon]));
    let bullet = world.spawn(c);
    let mut c = Components::empty();
    c.tags = Some(Tags::new(vec![Tag::Asteroid]));
    let other = world.spawn(c);
    let mut victim = Components::empty();
    victim.points_on_last_hit = Some(1000);
    let mut h = Health::new(10);
    h.hurt(20, bullet);
    victim.health = Some(h);
    let v1 = world.spawn(victim.clone());
    let mut h2 = Health::new(10);
    h2.hurt(20, other);
    victim.health = Some(h2);
    let v2 = world.spawn(victim);
    let events = vec![
        DespawnEvent { entity: v1, reason: DespawnReason::Health },
        DespawnEvent { entity: v2, reason: DespawnReason::Health },
    ];
    let mut score = PlayerScore::new();
    points_on_last_hit_system(&world, &events, &mut score);
    assert_eq!(score.get(), 1000);
}

#[test]
fn motion_and_bounds() {
    let mut world = World::new();
    let mut c = Components::empty();
    c.position = Some(Position { x: 0, y: 0, r: 0 });
    c.velocity = Some(Velocity { x: 1000, y: -2000, r: 3 });
    let e = world.spawn(c);
    motion_system(&mut world, 500);
    assert_eq!(world.get(e).unwrap().position, Some(Position { x: 500, y: -1000, r: 1 }));
    world.attach(e, Component::PositionBounds(Rect { x: 0, y: 0, w: 100, h: 100 }));
    position_bounds_system(&mut world);
    assert_eq!(world.get(e).unwrap().position, Some(Position { x: 100, y: 0, r: 1 }));
}

#[test]
fn entity_lifecycle() {
    let mut world = World::new();
    let a = world.create();
    assert!(world.is_live(a));
    assert!(world.remove(a));
    assert!(!world.remove(a));
    assert!(world.get(a).is_none());
    let b = world.create();
    assert_ne!(a, b);
    assert!(!world.is_live(a));
    assert!(!world.attach(a, Component::HeroPlayer));
    assert!(world.attach(b, Component::HeroPlayer));
    assert!(world.get(b).unwrap().hero_player);
    world.clear();
    assert!(!world.is_live(b));
    assert_eq!(world.entities_with(&vec![]), Vec::<EntityId>::new());
}

#[test]
fn joins_yield_entities_with_every_kind_in_slot_order() {
    let mut world = World::new();
    let a = solid_at(&mut world, 0, 0, 1);
    let mut c = Components::empty();
    c.position = Some(Position { x: 0, y: 0, r: 0 });
    let only_pos = world.spawn(c);
    let b = solid_at(&mut world, 9, 9, 1);
    let both = world.entities_with(&vec![ComponentKind::Position, ComponentKind::Collidable]);
    assert_eq!(both, vec![a, b]);
    let pos = world.entities_with(&vec![ComponentKind::Position]);
    assert_eq!(pos, vec![a, only_pos, b]);
}

#[test]
fn deferred_commands_apply_in_order() {
    let mut world = World::new();
    let old = world.create();
    let mut buf = CommandBuffer::new();
    buf.clear_world();
    let mut c = Components::empty();
    c.hero_planet = true;
    buf.spawn(c);
    buf.remove(old);
    let ids = buf.apply(&mut world);
    assert_eq!(buf.len(), 0);
    assert_eq!(ids.len(), 1);
    assert!(!world.is_live(old));
    assert!(world.get(ids[0]).unwrap().hero_planet);
    let mut buf = CommandBuffer::new();
    buf.attach(ids[0], Component::HeroPlayer);
    buf.apply(&mut world);
    assert!(world.get(ids[0]).unwrap().hero_player);
}

#[test]
fn an_entity_despawned_twice_is_credited_once() {
    let mut world = World::new();
    let mut c = Components::empty();
    c.tags = Some(Tags::new(vec![Tag::PlayerBullet, Tag::PlayerWeapon]));
    let bullet = world.spawn(c);
    let mut victim = Components::empty();
    victim.points_on_last_hit = Some(1000);
    let mut h = Health::new(10);
    h.hurt(20, bullet);
    victim.health = Some(h);
    let v = world.spawn(victim);
    let events = vec![
        DespawnEvent { entity: v, reason: DespawnReason::Health },
        DespawnEvent { entity: v, reason: DespawnReason::OutOfBounds },
    ];
    let mut score = PlayerScore::new();
    points_on_last_hit_system(&world, &events, &mut score);
    assert_eq!(score.get(), 1000);
}
