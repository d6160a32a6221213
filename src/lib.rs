//! A small entity-component-system engine for an arcade shooter: an entity
//! table, a dependency-ordered system schedule, collision detection, event
//! queues for damage, despawning and sound, scoring and the game-mode state
//! machine.
use vstd::prelude::*;

pub mod seq_facts;
pub mod components;
pub mod world;
pub mod collision;
pub mod despawn;
pub mod damage;
pub mod score;
pub mod mode;
pub mod sound;
pub mod input;
pub mod scheduler;
pub mod motion;
pub mod commands;
pub mod prefabs;
pub mod game;
pub mod fonts;

verus! {

} // verus!
