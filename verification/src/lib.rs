//! The Open Half-Life engine's game rules, as a verified library: the
//! decisions, bookkeeping and save-file framing that sit between a loaded
//! map and the host that draws it.
//!
//! - [`assets`]: the asset lookup a game reads from, and an in-memory table.
//! - [`level`]: which entities carry studio models or sprites, their asset
//!   keys, the per-level asset cache and numeric placement keyvalues.
//! - [`damage_map`]: damage masks and their player-side classification.
//! - [`ai`]: monster attack shapes and map-declared trigger conditions.
//! - [`combat`]: the reserve-ammo ledger and the carried-inventory blob.
//! - [`guard`]: the headless guard loop's per-tick decision.
//! - [`walk`]: the breadth-first grid walk over a map's cells.
//! - [`reachability`]: the round-by-round reachability report.
//! - [`route_plan`]: the route planner's decisions over the same walk.
//! - [`events`]: what a simulation step does with the teleports it queued.
//! - [`projectiles`]: the default models of projectiles and deployables.
//! - [`save`] and [`save_state`]: save-file sections and snapshot records.
//! - [`error`]: the engine's failure reasons.

pub mod ai;
pub mod assets;
pub mod combat;
pub mod components;
pub mod damage_map;
pub mod error;
pub mod events;
pub mod guard;
pub mod level;
pub mod projectiles;
pub mod reachability;
pub mod route_plan;
pub mod save;
pub mod save_state;
pub mod walk;

pub use assets::{AssetSource, MemoryAssets};
pub use damage_map::{damage_kind_of, damage_type_of, DamageKind, DamageType};
pub use error::EngineError;
