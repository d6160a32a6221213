//! Component records that can be attached to entities.
//!
//! Lengths are in world units (a thousandth of a screen pixel), angles in
//! milliradians and durations in milliseconds.
use vstd::prelude::*;

verus! {

/// An entity handle: a slot index and the generation of that slot when the
/// entity was created.  A handle whose generation no longer matches its slot
/// refers to an entity that has been removed.
#[derive(Clone, Copy, PartialEq, Eq, Structural, Debug, Hash)]
pub struct EntityId {
    pub index: usize,
    pub generation: u64,
}

#[derive(Clone, Copy, PartialEq, Eq, Structural, Debug)]
pub struct Position {
    pub x: i32,
    pub y: i32,
    pub r: i32,
}

#[derive(Clone, Copy, PartialEq, Eq, Structural, Debug)]
pub struct Velocity {
    pub x: i32,
    pub y: i32,
    pub r: i32,
}

impl Velocity {
    /// A velocity at rest.
    pub fn new() -> (v: Velocity)
        ensures
            v == (Velocity { x: 0, y: 0, r: 0 }),
    {
        Velocity { x: 0, y: 0, r: 0 }
    }
}

/// An axis-aligned rectangle: corner `(x, y)`, width `w` and height `h`.
#[derive(Clone, Copy, PartialEq, Eq, Structural, Debug)]
pub struct Rect {
    pub x: i32,
    pub y: i32,
    pub w: i32,
    pub h: i32,
}

impl Rect {
    /// Whether the point lies inside the rectangle, edges included.
    pub open spec fn contains_spec(self, px: int, py: int) -> bool {
        self.x <= px && px <= self.x + self.w && self.y <= py && py <= self.y + self.h
    }

    pub fn contains(&self, px: i32, py: i32) -> (r: bool)
        ensures
            r == self.contains_spec(px as int, py as int),
    {
        let right = self.x as i64 + self.w as i64;
        let bottom = self.y as i64 + self.h as i64;
        self.x <= px && px as i64 <= right && self.y <= py && py as i64 <= bottom
    }
}

/// A circular extent of diameter `size`.
#[derive(Clone, Copy, PartialEq, Eq, Structural, Debug)]
pub struct Collidable {
    pub size: u32,
}

#[derive(Clone, Copy, PartialEq, Eq, Structural, Debug)]
pub struct Health {
    pub health: i64,
    pub max_health: i64,
    pub last_hurt_by: Option<EntityId>,
    pub last_healed_by: Option<EntityId>,
}

impl Health {
    pub fn new(health: i64) -> (h: Health)
        ensures
            h == (Health { health, max_health: health, last_hurt_by: None, last_healed_by: None }),
    {
        Health { health, max_health: health, last_hurt_by: None, last_healed_by: None }
    }

    /// Health after subtracting `amount`, held within the range of `i64`.
    pub open spec fn minus(health: i64, amount: i32) -> i64 {
        let v = health - amount;
        if v < i64::MIN {
            i64::MIN
        } else if v > i64::MAX {
            i64::MAX
        } else {
            v as i64
        }
    }

    pub fn sub_clamped(health: i64, amount: i32) -> (r: i64)
        ensures
            r == Health::minus(health, amount),
    {
        let v: i128 = health as i128 - amount as i128;
        if v < i64::MIN as i128 {
            i64::MIN
        } else if v > i64::MAX as i128 {
            i64::MAX
        } else {
            v as i64
        }
    }

    /// Takes `amount` off and remembers who dealt it.
    pub fn hurt(&mut self, amount: i32, from: EntityId)
        ensures
            final(self).health == Health::minus(old(self).health, amount),
            final(self).last_hurt_by == Some(from),
            final(self).max_health == old(self).max_health,
            final(self).last_healed_by == old(self).last_healed_by,
    {
        self.health = Health::sub_clamped(self.health, amount);
        self.last_hurt_by = Some(from);
    }

    /// Adds `amount` back and remembers who gave it.
    pub fn heal(&mut self, amount: i32, from: EntityId)
        requires
            amount > i32::MIN,
        ensures
            final(self).health == Health::minus(old(self).health, (-amount) as i32),
            final(self).last_healed_by == Some(from),
            final(self).max_health == old(self).max_health,
            final(self).last_hurt_by == old(self).last_hurt_by,
    {
        self.health = Health::sub_clamped(self.health, -amount);
        self.last_healed_by = Some(from);
    }
}

impl Default for Health {
    fn default() -> (h: Health)
        ensures
            h == (Health { health: 100, max_health: 100, last_hurt_by: None, last_healed_by: None }),
    {
        Health { health: 100, max_health: 100, last_hurt_by: None, last_healed_by: None }
    }
}

#[derive(Clone, Copy, PartialEq, Eq, Structural, Debug)]
pub enum Shape {
    Test,
    Player,
    Asteroid,
    Explosion,
    SimpleBullet,
    Planet,
    PlanetIcon,
}

/// How an entity is drawn: a shape scaled to `scale_x` by `scale_y` world
/// units, anchored at an offset given in thousandths of its size.
#[derive(Clone, Copy, PartialEq, Eq, Structural, Debug)]
pub struct Sprite {
    pub shape: Shape,
    pub scale_x: i32,
    pub scale_y: i32,
    pub offset_x: i32,
    pub offset_y: i32,
}

impl Sprite {
    /// A centred sprite of the given shape and size.
    pub fn new(shape: Shape, scale_x: i32, scale_y: i32) -> (s: Sprite)
        ensures
            s == (Sprite { shape, scale_x, scale_y, offset_x: 500, offset_y: 500 }),
    {
        Sprite { shape, scale_x, scale_y, offset_x: 500, offset_y: 500 }
    }
}

/// A gun that fires one shot every `period` milliseconds while `firing`.
#[derive(Clone, Copy, PartialEq, Eq, Structural, Debug)]
pub struct Gun {
    pub firing: bool,
    pub period: i64,
    pub cooldown: i64,
}

impl Default for Gun {
    fn default() -> (g: Gun)
        ensures
            g == (Gun { firing: false, period: 1000, cooldown: 0 }),
    {
        Gun { firing: false, period: 1000, cooldown: 0 }
    }
}

#[derive(Clone, Copy, PartialEq, Eq, Structural, Debug)]
pub enum ThrusterKind {
    Longitudinal,
    Lateral,
}

/// A thruster pushing with `thrust` at `angle` relative to its entity, scaled
/// by `throttle` (-1, 0 or 1).
#[derive(Clone, Copy, PartialEq, Eq, Structural, Debug)]
pub struct Thruster {
    pub kind: ThrusterKind,
    pub thrust: i32,
    pub throttle: i32,
    pub angle: i32,
}

#[derive(Clone, Debug)]
pub struct ThrusterSet {
    pub thrusters: Vec<Thruster>,
}

/// Labels that categorise entities; an entity may carry several.
#[derive(Clone, Copy, PartialEq, Eq, Structural, Debug, Hash)]
pub enum Tag {
    Player,
    Friend,
    Planet,
    Asteroid,
    Enemy,
    PlayerBullet,
    PlayerWeapon,
}

#[derive(Clone, Debug)]
pub struct Tags {
    pub tags: Vec<Tag>,
}

impl Tags {
    pub fn new(tags: Vec<Tag>) -> (t: Tags)
        ensures
            t.tags@ == tags@,
    {
        Tags { tags }
    }

    /// Whether the set holds `tag`.
    pub fn has(&self, tag: Tag) -> (r: bool)
        ensures
            r == self.tags@.contains(tag),
    {
        let mut i: usize = 0;
        while i < self.tags.len()
            invariant
                i <= self.tags@.len(),
                forall|j: int| 0 <= j < i ==> self.tags@[j] != tag,
            decreases self.tags@.len() - i,
        {
            if self.tags[i] == tag {
                return true;
            }
            i = i + 1;
        }
        false
    }
}

/// Deals `damage` to every collision partner not listed in `exclude`, and
/// despawns its own entity on a hit when `despawn` is set.
#[derive(Clone, Debug)]
pub struct DamageOnCollision {
    pub damage: i32,
    pub despawn: bool,
    pub exclude: Vec<EntityId>,
}

impl Default for DamageOnCollision {
    fn default() -> (d: DamageOnCollision)
        ensures
            d.damage == 0,
            d.despawn,
            d.exclude@.len() == 0,
    {
        DamageOnCollision { damage: 0, despawn: true, exclude: Vec::new() }
    }
}

/// Milliseconds left before the entity despawns.
#[derive(Clone, Copy, PartialEq, Eq, Structural, Debug)]
pub struct Timeout {
    pub remaining: i64,
}

#[derive(Clone, Copy, PartialEq, Eq, Structural, Debug)]
pub struct BounceOnCollision {
    pub mass: i32,
}

impl Default for BounceOnCollision {
    fn default() -> (b: BounceOnCollision)
        ensures
            b.mass == 100,
    {
        BounceOnCollision { mass: 100 }
    }
}

/// Every component an entity can own, at most one of each kind.
#[derive(Clone, Debug)]
pub struct Components {
    pub position: Option<Position>,
    pub velocity: Option<Velocity>,
    pub position_bounds: Option<Rect>,
    pub collidable: Option<Collidable>,
    pub health: Option<Health>,
    pub damage_on_collision: Option<DamageOnCollision>,
    pub sprite: Option<Sprite>,
    pub gun: Option<Gun>,
    pub thrusters: Option<ThrusterSet>,
    pub tags: Option<Tags>,
    pub timeout: Option<Timeout>,
    pub despawn_bounds: Option<Rect>,
    pub despawn_on_collision: bool,
    pub points_on_last_hit: Option<i32>,
    pub speed_limit: Option<i32>,
    pub friction: Option<i32>,
    pub bounce: Option<BounceOnCollision>,
    pub player_control: bool,
    pub hero_player: bool,
    pub hero_planet: bool,
}

/// One component, as handed to [`crate::world::World::attach`].
#[derive(Clone, Debug)]
pub enum Component {
    Position(Position),
    Velocity(Velocity),
    PositionBounds(Rect),
    Collidable(Collidable),
    Health(Health),
    DamageOnCollision(DamageOnCollision),
    Sprite(Sprite),
    Gun(Gun),
    Thrusters(ThrusterSet),
    Tags(Tags),
    Timeout(Timeout),
    DespawnBounds(Rect),
    DespawnOnCollision,
    PointsOnLastHit(i32),
    SpeedLimit(i32),
    Friction(i32),
    Bounce(BounceOnCollision),
    PlayerControl,
    HeroPlayer,
    HeroPlanet,
}

/// The kind of a component, used to query entities.
#[derive(Clone, Copy, PartialEq, Eq, Structural, Debug)]
pub enum ComponentKind {
    Position,
    Velocity,
    PositionBounds,
    Collidable,
    Health,
    DamageOnCollision,
    Sprite,
    Gun,
    Thrusters,
    Tags,
    Timeout,
    DespawnBounds,
    DespawnOnCollision,
    PointsOnLastHit,
    SpeedLimit,
    Friction,
    Bounce,
    PlayerControl,
    HeroPlayer,
    HeroPlanet,
}

impl Components {
    /// A record that owns no component.
    pub open spec fn empty_spec() -> Components {
        Components {
            position: None,
            velocity: None,
            position_bounds: None,
            collidable: None,
            health: None,
            damage_on_collision: None,
            sprite: None,
            gun: None,
            thrusters: None,
            tags: None,
            timeout: None,
            despawn_bounds: None,
            despawn_on_collision: false,
            points_on_last_hit: None,
            speed_limit: None,
            friction: None,
            bounce: None,
            player_control: false,
            hero_player: false,
            hero_planet: false,
        }
    }

    pub fn empty() -> (c: Components)
        ensures
            c == Components::empty_spec(),
    {
        Components {
            position: None,
            velocity: None,
            position_bounds: None,
            collidable: None,
            health: None,
            damage_on_collision: None,
            sprite: None,
            gun: None,
            thrusters: None,
            tags: None,
            timeout: None,
            despawn_bounds: None,
            despawn_on_collision: false,
            points_on_last_hit: None,
            speed_limit: None,
            friction: None,
            bounce: None,
            player_control: false,
            hero_player: false,
            hero_planet: false,
        }
    }

    /// Whether the record owns a component of kind `k`.
    pub open spec fn has_spec(self, k: ComponentKind) -> bool {
        match k {
            ComponentKind::Position => self.position is Some,
            ComponentKind::Velocity => self.velocity is Some,
            ComponentKind::PositionBounds => self.position_bounds is Some,
            ComponentKind::Collidable => self.collidable is Some,
            ComponentKind::Health => self.health is Some,
            ComponentKind::DamageOnCollision => self.damage_on_collision is Some,
            ComponentKind::Sprite => self.sprite is Some,
            ComponentKind::Gun => self.gun is Some,
            ComponentKind::Thrusters => self.thrusters is Some,
            ComponentKind::Tags => self.tags is Some,
            ComponentKind::Timeout => self.timeout is Some,
            ComponentKind::DespawnBounds => self.despawn_bounds is Some,
            ComponentKind::DespawnOnCollision => self.despawn_on_collision,
            ComponentKind::PointsOnLastHit => self.points_on_last_hit is Some,
            ComponentKind::SpeedLimit => self.speed_limit is Some,
            ComponentKind::Friction => self.friction is Some,
            ComponentKind::Bounce => self.bounce is Some,
            ComponentKind::PlayerControl => self.player_control,
            ComponentKind::HeroPlayer => self.hero_player,
            ComponentKind::HeroPlanet => self.hero_planet,
        }
    }

    pub fn has(&self, k: ComponentKind) -> (r: bool)
        ensures
            r == self.has_spec(k),
    {
        match k {
            ComponentKind::Position => self.position.is_some(),
            ComponentKind::Velocity => self.velocity.is_some(),
            ComponentKind::PositionBounds => self.position_bounds.is_some(),
            ComponentKind::Collidable => self.collidable.is_some(),
            ComponentKind::Health => self.health.is_some(),
            ComponentKind::DamageOnCollision => self.damage_on_collision.is_some(),
            ComponentKind::Sprite => self.sprite.is_some(),
            ComponentKind::Gun => self.gun.is_some(),
            ComponentKind::Thrusters => self.thrusters.is_some(),
            ComponentKind::Tags => self.tags.is_some(),
            ComponentKind::Timeout => self.timeout.is_some(),
            ComponentKind::DespawnBounds => self.despawn_bounds.is_some(),
            ComponentKind::DespawnOnCollision => self.despawn_on_collision,
            ComponentKind::PointsOnLastHit => self.points_on_last_hit.is_some(),
            ComponentKind::SpeedLimit => self.speed_limit.is_some(),
            ComponentKind::Friction => self.friction.is_some(),
            ComponentKind::Bounce => self.bounce.is_some(),
            ComponentKind::PlayerControl => self.player_control,
            ComponentKind::HeroPlayer => self.hero_player,
            ComponentKind::HeroPlanet => self.hero_planet,
        }
    }

    /// Whether the record owns a component of every kind in `kinds`.
    pub open spec fn has_all_spec(self, kinds: Seq<ComponentKind>) -> bool {
        forall|i: int| 0 <= i < kinds.len() ==> self.has_spec(#[trigger] kinds[i])
    }

    pub fn has_all(&self, kinds: &Vec<ComponentKind>) -> (r: bool)
        ensures
            r == self.has_all_spec(kinds@),
    {
        let mut i: usize = 0;
        while i < kinds.len()
            invariant
                i <= kinds@.len(),
                forall|j: int| 0 <= j < i ==> self.has_spec(#[trigger] kinds@[j]),
            decreases kinds@.len() - i,
        {
            if !self.has(kinds[i]) {
                return false;
            }
            i = i + 1;
        }
        true
    }

    /// The record with `c` attached, replacing any component of its kind.
    pub open spec fn with_spec(self, c: Component) -> Components {
        match c {
            Component::Position(v) => Components { position: Some(v), ..self },
            Component::Velocity(v) => Components { velocity: Some(v), ..self },
            Component::PositionBounds(v) => Components { position_bounds: Some(v), ..self },
            Component::Collidable(v) => Components { collidable: Some(v), ..self },
            Component::Health(v) => Components { health: Some(v), ..self },
            Component::DamageOnCollision(v) => Components { damage_on_collision: Some(v), ..self },
            Component::Sprite(v) => Components { sprite: Some(v), ..self },
            Component::Gun(v) => Components { gun: Some(v), ..self },
            Component::Thrusters(v) => Components { thrusters: Some(v), ..self },
            Component::Tags(v) => Components { tags: Some(v), ..self },
            Component::Timeout(v) => Components { timeout: Some(v), ..self },
            Component::DespawnBounds(v) => Components { despawn_bounds: Some(v), ..self },
            Component::DespawnOnCollision => Components { despawn_on_collision: true, ..self },
            Component::PointsOnLastHit(v) => Components { points_on_last_hit: Some(v), ..self },
            Component::SpeedLimit(v) => Components { speed_limit: Some(v), ..self },
            Component::Friction(v) => Components { friction: Some(v), ..self },
            Component::Bounce(v) => Components { bounce: Some(v), ..self },
            Component::PlayerControl => Components { player_control: true, ..self },
            Component::HeroPlayer => Components { hero_player: true, ..self },
            Component::HeroPlanet => Components { hero_planet: true, ..self },
        }
    }

    /// Attaches `c`, replacing any component of its kind.
    pub fn put(&mut self, c: Component)
        ensures
            *final(self) == old(self).with_spec(c),
    {
        match c {
            Component::Position(v) => self.position = Some(v),
            Component::Velocity(v) => self.velocity = Some(v),
            Component::PositionBounds(v) => self.position_bounds = Some(v),
            Component::Collidable(v) => self.collidable = Some(v),
            Component::Health(v) => self.health = Some(v),
            Component::DamageOnCollision(v) => self.damage_on_collision = Some(v),
            Component::Sprite(v) => self.sprite = Some(v),
            Component::Gun(v) => self.gun = Some(v),
            Component::Thrusters(v) => self.thrusters = Some(v),
            Component::Tags(v) => self.tags = Some(v),
            Component::Timeout(v) => self.timeout = Some(v),
            Component::DespawnBounds(v) => self.despawn_bounds = Some(v),
            Component::DespawnOnCollision => self.despawn_on_collision = true,
            Component::PointsOnLastHit(v) => self.points_on_last_hit = Some(v),
            Component::SpeedLimit(v) => self.speed_limit = Some(v),
            Component::Friction(v) => self.friction = Some(v),
            Component::Bounce(v) => self.bounce = Some(v),
            Component::PlayerControl => self.player_control = true,
            Component::HeroPlayer => self.hero_player = true,
            Component::HeroPlanet => self.hero_planet = true,
        }
    }

    /// The record with every component of `cs` attached, in order.
    pub open spec fn with_all_spec(self, cs: Seq<Component>) -> Components
        decreases cs.len(),
    {
        if cs.len() == 0 {
            self
        } else {
            self.with_spec(cs[0]).with_all_spec(cs.drop_first())
        }
    }
}

} // verus!
