//! Tick-driven ecosystem simulation: mobile agents ("rabbits") forage, drink,
//! mate, age and die on a static terrain grid seeded with regrowing food
//! patches. The terrain, the foliage field, per-agent perception, the
//! priority-ordered decision policy, breeding and the population lifecycle
//! are all verified; terrain noise evaluation and the wall-clock tick gate
//! live with the driver outside this crate.

pub mod breeding;
pub mod foliage;
pub mod lifecycle;
pub mod movement;
pub mod perception;
pub mod rabbit;
mod rng;
pub mod sim;
pub mod world;

pub use foliage::{Foliage, FoliageConsumedEvent};
pub use rabbit::{Rabbit, RabbitBreedingEvent, RabbitResource};
pub use sim::Simulation;
pub use world::{Loc, Voxel, VoxelType, WorldMap};
