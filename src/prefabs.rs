//! The records of the game's entities, and the random draws that place them.
use vstd::prelude::*;
use crate::components::{
    BounceOnCollision, Collidable, Components, Gun, Health, Position, Rect, Shape,
    Sprite, Tag, Tags, Thruster, ThrusterKind, ThrusterSet, Timeout, Velocity,
};

verus! {

/// World units in one screen pixel.
pub const UNIT: i32 = 1000;

/// The playfield, centred on the origin, in world units.
pub const PLAYFIELD_WIDTH: i32 = 1_600_000;

pub const PLAYFIELD_HEIGHT: i32 = 900_000;

/// Half a turn, in milliradians.
pub const HALF_TURN: i32 = 3142;

/// Relies on `rand::random::<u32>` (rand 0.4): a value drawn from the
/// thread-local generator.  Nothing is promised of which value; the
/// generator panics only when the system offers no entropy at all.
#[verifier::external_body]
fn random_u32() -> (r: u32) {
    rand::random::<u32>()
}

/// A random value below `n`.
pub fn random_below(n: u32) -> (r: u32)
    requires
        n > 0,
    ensures
        r < n,
{
    random_u32() % n
}

pub open spec fn tags_of(c: Components) -> Seq<Tag> {
    c.tags->0.tags@
}

/// The player's ship.
pub fn player() -> (c: Components)
    ensures
        c.hero_player,
        c.player_control,
        tags_of(c) == seq![Tag::Player, Tag::Friend],
        c.position == Some(Position { x: 0, y: 250_000, r: 0 }),
        c.collidable == Some(Collidable { size: 50_000 }),
        c.health == Some(Health { health: 1000, max_health: 1000, last_hurt_by: None, last_healed_by: None }),
        c.gun == Some(Gun { firing: false, period: 200, cooldown: 0 }),
        c.sprite == Some(Sprite { shape: Shape::Player, scale_x: 50_000, scale_y: 50_000, offset_x: 500, offset_y: 500 }),
        !c.hero_planet,
        c.points_on_last_hit is None,
        c.damage_on_collision is None,
{
    let mut c = Components::empty();
    let mut tags: Vec<Tag> = Vec::new();
    tags.push(Tag::Player);
    tags.push(Tag::Friend);
    proof {
        assert(tags@ =~= seq![Tag::Player, Tag::Friend]);
    }
    c.tags = Some(Tags::new(tags));
    c.hero_player = true;
    c.position = Some(Position { x: 0, y: PLAYFIELD_HEIGHT / 2 - 200 * UNIT, r: 0 });
    c.position_bounds = Some(
        Rect {
            x: -PLAYFIELD_WIDTH / 2 + 25 * UNIT,
            y: -PLAYFIELD_HEIGHT / 2 + 5 * UNIT,
            w: PLAYFIELD_WIDTH - 50 * UNIT,
            h: PLAYFIELD_HEIGHT - 10 * UNIT,
        },
    );
    c.velocity = Some(Velocity::new());
    c.speed_limit = Some(800 * UNIT);
    c.friction = Some(6000 * UNIT);
    let mut thrusters: Vec<Thruster> = Vec::new();
    thrusters.push(Thruster { kind: ThrusterKind::Longitudinal, thrust: 10000 * UNIT, throttle: 0, angle: 0 });
    thrusters.push(Thruster { kind: ThrusterKind::Lateral, thrust: 12500 * UNIT, throttle: 0, angle: HALF_TURN / 2 });
    c.thrusters = Some(ThrusterSet { thrusters });
    c.gun = Some(Gun { firing: false, period: 200, cooldown: 0 });
    c.collidable = Some(Collidable { size: 50_000 });
    c.bounce = Some(BounceOnCollision { mass: 5 });
    c.health = Some(Health::new(1000));
    c.sprite = Some(Sprite::new(Shape::Player, 50 * UNIT, 50 * UNIT));
    c.player_control = true;
    c
}

/// The planet the player defends.
pub fn planet() -> (c: Components)
    ensures
        c.hero_planet,
        tags_of(c) == seq![Tag::Planet, Tag::Friend],
        c.position == Some(Position { x: 0, y: 1_800_000, r: 0 }),
        c.collidable == Some(Collidable { size: 3_000_000 }),
        c.health == Some(Health { health: 5000, max_health: 5000, last_hurt_by: None, last_healed_by: None }),
        !c.hero_player,
        c.points_on_last_hit is None,
        c.damage_on_collision is None,
        c.gun is None,
{
    let mut c = Components::empty();
    c.hero_planet = true;
    let mut tags: Vec<Tag> = Vec::new();
    tags.push(Tag::Planet);
    tags.push(Tag::Friend);
    proof {
        assert(tags@ =~= seq![Tag::Planet, Tag::Friend]);
    }
    c.tags = Some(Tags::new(tags));
    c.position = Some(Position { x: 0, y: 1800 * UNIT, r: 0 });
    c.velocity = Some(Velocity { x: 0, y: 0, r: 47 });
    c.sprite = Some(Sprite::new(Shape::Planet, 3000 * UNIT, 3000 * UNIT));
    c.collidable = Some(Collidable { size: 3_000_000 });
    c.speed_limit = Some(0);
    c.friction = Some(100_000 * UNIT);
    c.bounce = Some(BounceOnCollision { mass: 100_000 });
    c.health = Some(Health::new(5000));
    c
}

/// An asteroid of diameter `size` at `(x, y)` moving at `(vx, vy)` and
/// spinning at `vr`.
pub fn asteroid(x: i32, y: i32, size: u32, vx: i32, vy: i32, vr: i32) -> (c: Components)
    requires
        size <= i32::MAX,
    ensures
        tags_of(c) == seq![Tag::Asteroid, Tag::Enemy],
        c.position == Some(Position { x, y, r: 0 }),
        c.velocity == Some(Velocity { x: vx, y: vy, r: vr }),
        c.collidable == Some(Collidable { size }),
        c.health == Some(Health { health: 100, max_health: 100, last_hurt_by: None, last_healed_by: None }),
        c.points_on_last_hit == Some(1000i32),
        c.sprite == Some(Sprite { shape: Shape::Asteroid, scale_x: size as i32, scale_y: size as i32, offset_x: 500, offset_y: 500 }),
        !c.hero_player,
        !c.hero_planet,
        c.gun is None,
        c.damage_on_collision is None,
{
    let mut c = Components::empty();
    let mut tags: Vec<Tag> = Vec::new();
    tags.push(Tag::Asteroid);
    tags.push(Tag::Enemy);
    proof {
        assert(tags@ =~= seq![Tag::Asteroid, Tag::Enemy]);
    }
    c.tags = Some(Tags::new(tags));
    c.position = Some(Position { x, y, r: 0 });
    c.velocity = Some(Velocity { x: vx, y: vy, r: vr });
    c.collidable = Some(Collidable { size });
    c.bounce = Some(BounceOnCollision::default());
    c.sprite = Some(Sprite::new(Shape::Asteroid, size as i32, size as i32));
    c.despawn_bounds = Some(
        Rect {
            x: -PLAYFIELD_WIDTH / 2 - 200 * UNIT,
            y: -PLAYFIELD_HEIGHT / 2 - 200 * UNIT,
            w: PLAYFIELD_WIDTH + 400 * UNIT,
            h: PLAYFIELD_HEIGHT + 400 * UNIT,
        },
    );
    c.health = Some(Health::new(100));
    c.points_on_last_hit = Some(1000);
    c
}

/// A bullet fired from a gun at `(x, y)`: it starts fifty pixels ahead and
/// flies up the screen.
pub fn bullet(x: i32, y: i32) -> (c: Components)
    ensures
        tags_of(c) == seq![Tag::PlayerBullet, Tag::PlayerWeapon],
        c.position == Some(Position { x, y: if y - 50_000 < i32::MIN { i32::MIN } else { (y - 50_000) as i32 }, r: 0 }),
        c.velocity == Some(Velocity { x: 0, y: -800_000i32, r: 0 }),
        c.collidable == Some(Collidable { size: 50_000 }),
        c.health == Some(Health { health: 10, max_health: 10, last_hurt_by: None, last_healed_by: None }),
        !c.hero_player,
        !c.hero_planet,
        c.gun is None,
{
    let mut c = Components::empty();
    let mut tags: Vec<Tag> = Vec::new();
    tags.push(Tag::PlayerBullet);
    tags.push(Tag::PlayerWeapon);
    proof {
        assert(tags@ =~= seq![Tag::PlayerBullet, Tag::PlayerWeapon]);
    }
    c.tags = Some(Tags::new(tags));
    let by = if y < i32::MIN + 50_000 { i32::MIN } else { y - 50_000 };
    c.position = Some(Position { x, y: by, r: 0 });
    c.velocity = Some(Velocity { x: 0, y: -800 * UNIT, r: 0 });
    c.collidable = Some(Collidable { size: 50_000 });
    c.health = Some(Health::new(10));
    c.despawn_bounds = Some(Rect { x: -800 * UNIT, y: -550 * UNIT, w: 1600 * UNIT, h: 1000 * UNIT });
    c.sprite = Some(Sprite::new(Shape::SimpleBullet, 50 * UNIT, 50 * UNIT));
    c
}

/// A short-lived explosion at `(x, y)` the size of the sprite it replaces.
pub fn explosion(x: i32, y: i32, scale_x: i32, scale_y: i32) -> (c: Components)
    ensures
        c.timeout == Some(Timeout { remaining: 500 }),
        c.position == Some(Position { x, y, r: 0 }),
        c.velocity == Some(Velocity { x: 0, y: 0, r: (7 * HALF_TURN) as i32 }),
        c.sprite == Some(Sprite { shape: Shape::Explosion, scale_x, scale_y, offset_x: 500, offset_y: 500 }),
        c.tags is None,
        c.collidable is None,
        !c.hero_player,
        !c.hero_planet,
{
    let mut c = Components::empty();
    c.timeout = Some(Timeout { remaining: 500 });
    c.position = Some(Position { x, y, r: 0 });
    c.velocity = Some(Velocity { x: 0, y: 0, r: 7 * HALF_TURN });
    c.sprite = Some(Sprite::new(Shape::Explosion, scale_x, scale_y));
    c
}

} // verus!
