use invaders::collision::Collisions;
use invaders::commands::CommandBuffer;
use invaders::damage::DamageEventQueue;
use invaders::despawn::DespawnEventQueue;
use invaders::game::{collision_reactions_system, default_rules, tombstone_system, CameraShake};
use invaders::prefabs::{asteroid, player};
use invaders::despawn::DespawnReason;
use invaders::components::{Component, ComponentKind, Components, Gun, Position, Shape, Tag, Thruster, ThrusterKind, ThrusterSet};
use invaders::game::{gun_system, place_asteroid, Game, PlayerControlSystem};
use invaders::input::{Control, Inputs};
use invaders::mode::{GameMode, GameModeManager, GameOverModeState, PlayingModeState};
use invaders::scheduler::{conflicts, declared_access, Access, Resource, ScheduleError, Scheduler, SystemKind};
use invaders::sound::{SoundEffectQueue, SoundEffectType};
use invaders::world::World;

#[test]
fn change_then_resolve_makes_the_mode_current() {
    let mut m = GameModeManager::new();
    m.resolve();
    assert!(m.is_current(GameMode::Attract));
    m.change(GameMode::Playing);
    assert!(m.is_pending(GameMode::Playing));
    assert!(!m.is_current(GameMode::Playing));
    assert!(!m.is_current(GameMode::Attract));
    m.resolve();
    assert!(m.is_current(GameMode::Playing));
    assert!(!m.is_pending(GameMode::Playing));
}

#[test]
fn mode_stays_current_until_the_next_change() {
    let mut m = GameModeManager::new();
    assert!(m.is_pending(GameMode::Attract));
    m.resolve();
    for _ in 0..5 {
        m.resolve();
        assert!(m.is_current(GameMode::Attract));
        assert!(!m.is_pending(GameMode::Attract));
    }
    m.change(GameMode::GameOver);
    assert!(!m.is_current(GameMode::Attract));
    assert!(m.is_pending(GameMode::GameOver));
}

#[test]
fn mode_timers_count_down_and_stop() {
    let mut s = GameOverModeState::new();
    assert_eq!(s.reset_ttl, 10000);
    s.update(4000);
    assert_eq!(s.reset_ttl, 6000);
    s.update(7000);
    assert_eq!(s.reset_ttl, -1000);
    s.update(7000);
    assert_eq!(s.reset_ttl, -1000);
    s.reset();
    assert_eq!(s.reset_ttl, 10000);
    let mut p = PlayingModeState::new();
    assert_eq!(p.ready_delay, 1000);
    p.update(16);
    assert_eq!(p.ready_delay, 984);
    p.reset();
    assert_eq!(p.ready_delay, 1000);
}

#[test]
fn schedule_respects_dependencies_then_registration_order() {
    let mut s = Scheduler::new();
    assert_eq!(s.add(SystemKind::Health, vec![SystemKind::DamageOnCollision]), Ok(()));
    assert_eq!(s.add(SystemKind::Motion, vec![]), Ok(()));
    assert_eq!(s.add(SystemKind::DamageOnCollision, vec![SystemKind::Collision]), Ok(()));
    assert_eq!(s.add(SystemKind::Collision, vec![]), Ok(()));
    let order = s.build().unwrap();
    let kinds: Vec<SystemKind> = order.iter().map(|i| s.kind_at(*i)).collect();
    assert_eq!(
        kinds,
        vec![SystemKind::Motion, SystemKind::Collision, SystemKind::DamageOnCollision, SystemKind::Health]
    );
}

#[test]
fn independent_systems_keep_registration_order() {
    let mut s = Scheduler::new();
    s.add(SystemKind::Score, vec![]).unwrap();
    s.add(SystemKind::Gun, vec![]).unwrap();
    s.add(SystemKind::Timeout, vec![]).unwrap();
    assert_eq!(s.build(), Ok(vec![0, 1, 2]));
}

#[test]
fn schedule_errors() {
    let mut s = Scheduler::new();
    s.add(SystemKind::Gun, vec![]).unwrap();
    assert_eq!(s.add(SystemKind::Gun, vec![]), Err(ScheduleError::DuplicateSystem(SystemKind::Gun)));
    assert_eq!(s.len(), 1);

    let mut s = Scheduler::new();
    s.add(SystemKind::Health, vec![SystemKind::Collision]).unwrap();
    assert_eq!(
        s.build(),
        Err(ScheduleError::UnknownDependency { system: SystemKind::Health, dependency: SystemKind::Collision })
    );

    let mut s = Scheduler::new();
    s.add(SystemKind::Gun, vec![]).unwrap();
    s.add(SystemKind::Health, vec![SystemKind::Motion]).unwrap();
    s.add(SystemKind::Motion, vec![SystemKind::Health]).unwrap();
    assert_eq!(s.build(), Err(ScheduleError::Cycle));

    let mut s = Scheduler::new();
    s.add(SystemKind::Motion, vec![SystemKind::Motion]).unwrap();
    assert_eq!(s.build(), Err(ScheduleError::Cycle));
    assert_eq!(Scheduler::new().build(), Ok(vec![]));
}

#[test]
fn default_schedule_orders_every_system() {
    let s = Game::default_scheduler().unwrap();
    let order = s.build().unwrap();
    assert_eq!(order.len(), s.len());
    let pos = |k: SystemKind| order.iter().position(|i| s.kind_at(*i) == k).unwrap();
    assert!(pos(SystemKind::Collision) < pos(SystemKind::DamageOnCollision));
    assert!(pos(SystemKind::DamageOnCollision) < pos(SystemKind::Health));
    assert!(pos(SystemKind::CollisionReactions) < pos(SystemKind::Health));
    assert!(pos(SystemKind::Health) < pos(SystemKind::PointsOnLastHit));
    assert!(pos(SystemKind::Health) < pos(SystemKind::PlayingMode));
}

#[test]
fn first_frame_sets_up_attract_mode() {
    let mut game = Game::new().unwrap();
    game.advance(16);
    assert!(game.mode.is_current(GameMode::Attract));
    let planets = game.world.entities_with(&vec![ComponentKind::HeroPlanet]);
    assert_eq!(planets.len(), 1);
    assert_eq!(game.damages.len(), 0);
    assert_eq!(game.despawns.len(), 0);
    assert_eq!(game.commands.len(), 0);
    let r = game.renderables();
    assert!(r.iter().any(|x| x.sprite.shape == Shape::Planet));
}

#[test]
fn fire_starts_play_and_play_brings_the_player() {
    let mut game = Game::new().unwrap();
    game.advance(16);
    game.set_control(Control::Fire, true);
    // attract mode asks for play and the play system takes it up in the same frame
    game.advance(16);
    assert!(game.mode.is_current(GameMode::Playing));
    assert!(!game.mode.is_pending(GameMode::Playing));
    assert_eq!(game.inputs, Inputs::new());
    assert_eq!(game.world.entities_with(&vec![ComponentKind::HeroPlayer]).len(), 1);
    assert_eq!(game.world.entities_with(&vec![ComponentKind::HeroPlanet]).len(), 1);
    assert_eq!(game.score.get(), 0);
    let sounds = game.next_sound_requests();
    assert!(sounds.contains(&SoundEffectType::Ready));
    assert!(game.next_sound_requests().is_empty());
    for _ in 0..20 {
        game.advance(16);
        assert_eq!(game.damages.len(), 0);
        assert!(game.mode.is_current(GameMode::Playing));
    }
}

#[test]
fn losing_the_player_ends_the_game() {
    let mut game = Game::new().unwrap();
    game.advance(16);
    game.set_control(Control::Fire, true);
    game.advance(16);
    assert!(game.mode.is_current(GameMode::Playing));
    let hero = game.world.entities_with(&vec![ComponentKind::HeroPlayer])[0];
    game.world.remove(hero);
    game.advance(16);
    assert!(game.mode.is_current(GameMode::GameOver));
    assert!(!game.mode.is_pending(GameMode::GameOver));
}

#[test]
fn firing_gun_queues_a_bullet_and_a_shot() {
    let mut world = World::new();
    let mut c = Components::empty();
    c.position = Some(Position { x: 0, y: 100_000, r: 0 });
    c.gun = Some(Gun { firing: true, period: 200, cooldown: 0 });
    let e = world.spawn(c);
    let mut commands = CommandBuffer::new();
    let mut sounds = SoundEffectQueue::new();
    gun_system(&mut world, 16, &mut commands, &mut sounds);
    assert_eq!(commands.len(), 1);
    assert_eq!(sounds.requests, vec![SoundEffectType::Shot]);
    assert_eq!(world.get(e).unwrap().gun.unwrap().cooldown, 200);
    gun_system(&mut world, 16, &mut commands, &mut sounds);
    assert_eq!(commands.len(), 1);
    assert_eq!(world.get(e).unwrap().gun.unwrap().cooldown, 184);
    let ids = commands.apply(&mut world);
    let b = world.get(ids[0]).unwrap();
    assert_eq!(b.position, Some(Position { x: 0, y: 50_000, r: 0 }));
    assert!(b.tags.as_ref().unwrap().has(Tag::PlayerWeapon));
}

#[test]
fn asteroids_are_not_placed_on_top_of_others() {
    let mut world = World::new();
    let mut commands = CommandBuffer::new();
    assert!(place_asteroid(&world, &mut commands, 0, 100_000, 0, 0, 0));
    commands.apply(&mut world);
    assert!(!place_asteroid(&world, &mut commands, 10_000, 100_000, 0, 0, 0));
    assert_eq!(commands.len(), 0);
    assert!(place_asteroid(&world, &mut commands, 500_000, 100_000, 0, 0, 0));
    assert_eq!(commands.len(), 1);
}

#[test]
fn inputs_track_controls() {
    let mut i = Inputs::new();
    i.set_control(Control::Left, true);
    i.set_control(Control::Up, true);
    assert!(i.left && i.up && !i.right);
    i.set_control(Control::Left, false);
    assert!(!i.left && i.up);
    i.reset();
    assert_eq!(i, Inputs::new());
}

#[test]
fn player_control_steers_guns_and_thrusters() {
    let mut world = World::new();
    let mut c = Components::empty();
    c.gun = Some(Gun { firing: false, period: 200, cooldown: 0 });
    c.thrusters = Some(ThrusterSet {
        thrusters: vec![
            Thruster { kind: ThrusterKind::Longitudinal, thrust: 10, throttle: 0, angle: 0 },
            Thruster { kind: ThrusterKind::Lateral, thrust: 10, throttle: 0, angle: 1571 },
        ],
    });
    let e = world.spawn(c);
    let mut c = Components::empty();
    c.gun = Some(Gun { firing: false, period: 200, cooldown: 0 });
    let unsteered = world.spawn(c);
    let mut inputs = Inputs::new();
    inputs.fire = true;
    inputs.left = true;
    inputs.down = true;
    PlayerControlSystem.run(&mut world, &inputs);
    let r = world.get(e).unwrap();
    assert!(r.gun.unwrap().firing);
    let ts = &r.thrusters.as_ref().unwrap().thrusters;
    assert_eq!(ts[0].throttle, -1);
    assert_eq!(ts[1].throttle, -1);
    assert!(!world.get(unsteered).unwrap().gun.unwrap().firing);
    inputs.left = false;
    inputs.right = true;
    inputs.down = false;
    inputs.up = true;
    PlayerControlSystem.run(&mut world, &inputs);
    let ts = &world.get(e).unwrap().thrusters.as_ref().unwrap().thrusters;
    assert_eq!(ts[0].throttle, 1);
    assert_eq!(ts[1].throttle, 1);
}

#[test]
fn declared_accesses_conflict_only_on_a_shared_write() {
    let r = |resource| Access { resource, write: false };
    let w = |resource| Access { resource, write: true };
    assert!(!conflicts(&vec![r(Resource::World)], &vec![r(Resource::World)]));
    assert!(conflicts(&vec![r(Resource::World)], &vec![w(Resource::World)]));
    assert!(conflicts(&vec![w(Resource::Score), r(Resource::Inputs)], &vec![w(Resource::Score)]));
    assert!(!conflicts(&vec![w(Resource::Score)], &vec![w(Resource::World)]));
    assert!(!conflicts(&vec![], &vec![w(Resource::World)]));
    assert!(conflicts(&declared_access(SystemKind::Health), &declared_access(SystemKind::Motion)));
    assert!(!conflicts(&declared_access(SystemKind::Collision), &declared_access(SystemKind::Score)));
}

#[test]
fn systems_run_together_only_when_independent_and_compatible() {
    let mut s = Scheduler::new();
    s.add(SystemKind::Collision, vec![]).unwrap();
    s.add(SystemKind::Score, vec![]).unwrap();
    s.add(SystemKind::DespawnOnCollision, vec![SystemKind::Collision]).unwrap();
    s.add(SystemKind::Motion, vec![]).unwrap();
    assert!(s.may_run_together(0, 1));
    assert!(!s.may_run_together(0, 0));
    assert!(!s.may_run_together(0, 2));
    assert!(!s.may_run_together(2, 0));
    assert!(!s.may_run_together(0, 3));
}

#[test]
fn end_frame_deletes_despawned_then_applies_commands() {
    let mut game = Game::new().unwrap();
    let doomed = game.world.create();
    let kept = game.world.create();
    game.despawns.despawn(doomed, DespawnReason::Timeout);
    game.despawns.despawn(doomed, DespawnReason::Health);
    let mut c = Components::empty();
    c.hero_planet = true;
    game.commands.spawn(c);
    game.commands.attach(doomed, Component::HeroPlayer);
    let ids = game.end_frame();
    assert_eq!(ids.len(), 1);
    assert!(!game.world.is_live(doomed));
    assert!(game.world.is_live(kept));
    assert!(game.world.get(ids[0]).unwrap().hero_planet);
    assert_eq!(game.despawns.len(), 0);
    assert_eq!(game.commands.len(), 0);
    assert_eq!(game.damages.len(), 0);
}

#[test]
fn asteroid_hitting_the_player_hurts_both_and_shakes() {
    let mut world = World::new();
    let ship = world.spawn(player());
    let rock = world.spawn(asteroid(0, 250_000, 100_000, 0, 0, 0));
    let mut collisions = Collisions::new();
    collisions.detect(&world);
    assert!(collisions.contains(ship, rock));
    let mut damages = DamageEventQueue::new();
    let mut sounds = SoundEffectQueue::new();
    let mut shake = CameraShake { magnitude: 0, remaining: 0 };
    collision_reactions_system(&world, &collisions, &default_rules(), &mut damages, &mut sounds, &mut shake);
    assert_eq!(damages.len(), 2);
    assert!(damages.events.iter().any(|e| e.from == rock && e.to == ship && e.amount == 100));
    assert!(damages.events.iter().any(|e| e.from == ship && e.to == rock && e.amount == 100));
    assert_eq!(sounds.requests, vec![SoundEffectType::Shield]);
    assert_eq!(shake, CameraShake { magnitude: 16, remaining: 300 });
}

#[test]
fn destroyed_asteroid_leaves_an_explosion() {
    let mut world = World::new();
    let rock = world.spawn(asteroid(1000, 2000, 80_000, 0, 0, 0));
    let ship = world.spawn(player());
    let mut despawns = DespawnEventQueue::new();
    despawns.despawn(rock, DespawnReason::Health);
    despawns.despawn(ship, DespawnReason::Health);
    despawns.despawn(rock, DespawnReason::OutOfBounds);
    let mut commands = CommandBuffer::new();
    let mut sounds = SoundEffectQueue::new();
    tombstone_system(&world, &despawns, &mut commands, &mut sounds);
    assert_eq!(sounds.requests, vec![SoundEffectType::Explosion]);
    let ids = commands.apply(&mut world);
    assert_eq!(ids.len(), 1);
    let boom = world.get(ids[0]).unwrap();
    assert_eq!(boom.position, Some(Position { x: 1000, y: 2000, r: 0 }));
    assert_eq!(boom.sprite.unwrap().shape, Shape::Explosion);
    assert_eq!(boom.sprite.unwrap().scale_x, 80_000);
}

#[test]
fn explosions_spin_and_time_out() {
    let mut world = World::new();
    let rock = world.spawn(asteroid(0, 0, 60_000, 0, 0, 0));
    let mut despawns = DespawnEventQueue::new();
    despawns.despawn(rock, DespawnReason::Health);
    let mut commands = CommandBuffer::new();
    let mut sounds = SoundEffectQueue::new();
    tombstone_system(&world, &despawns, &mut commands, &mut sounds);
    let ids = commands.apply(&mut world);
    let boom = world.get(ids[0]).unwrap();
    assert_eq!(boom.timeout, Some(invaders::components::Timeout { remaining: 500 }));
    assert_eq!(boom.velocity, Some(invaders::components::Velocity { x: 0, y: 0, r: 7 * 3142 }));
}

#[test]
fn bullets_fly_up_the_screen() {
    let mut world = World::new();
    let mut c = Components::empty();
    c.position = Some(Position { x: 7, y: 0, r: 0 });
    c.gun = Some(Gun { firing: true, period: 200, cooldown: 0 });
    world.spawn(c);
    let mut c = Components::empty();
    c.position = Some(Position { x: 9, y: 0, r: 0 });
    c.gun = Some(Gun { firing: true, period: 200, cooldown: 0 });
    world.spawn(c);
    let mut commands = CommandBuffer::new();
    let mut sounds = SoundEffectQueue::new();
    gun_system(&mut world, 16, &mut commands, &mut sounds);
    assert_eq!(sounds.requests, vec![SoundEffectType::Shot, SoundEffectType::Shot]);
    let ids = commands.apply(&mut world);
    assert_eq!(ids.len(), 2);
    let b = world.get(ids[0]).unwrap();
    assert_eq!(b.velocity, Some(invaders::components::Velocity { x: 0, y: -800_000, r: 0 }));
    assert_eq!(b.position, Some(Position { x: 7, y: -50_000, r: 0 }));
}

#[test]
fn the_default_game_always_builds() {
    assert!(Game::default_scheduler().is_ok());
    assert!(Game::new().is_ok());
}
