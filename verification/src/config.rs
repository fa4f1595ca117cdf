//! World dimensions and gameplay constants.
//!
//! Lengths come in two units. Terrain is addressed in whole tiles. Positions
//! of entities are fixed-point numbers with `SUBTILE` units to the tile, so
//! that every distance comparison is exact integer arithmetic.

use vstd::prelude::*;

verus! {

/// Side length of a world, in tiles.
pub const WORLD_SIZE: i32 = 1024;

/// Side length of a chunk, in tiles.
pub const CHUNK_SIZE: i32 = 8;

/// Number of chunks along one side of a world.
pub const CHUNKS_PER_SIDE: i32 = 128;

/// Width of the band along each border in which elevation is pulled down.
pub const WATER_EDGE_SIZE: i32 = 128;

/// Position units per tile.
pub const SUBTILE: i32 = 1000;

/// Side length of a chunk, in position units.
pub const CHUNK_SPAN: i32 = 8000;

/// How far a client sees, in position units (32 tiles).
pub const VIEW_RANGE: u32 = 32000;

/// Distance beyond which a visible entity is torn down on the client, in
/// position units (48 tiles).
pub const UNLOAD_RANGE: u32 = 48000;

/// Reach of an attack around the cursor, in position units (2 tiles).
pub const ATTACK_RANGE: u32 = 2000;

/// Damage of a bare-handed hit.
pub const ATTACK_DAMAGE: i32 = 5;

/// Health of a freshly registered player.
pub const MAX_PLAYER_HEALTH: i32 = 100;

/// Health of a freshly placed static resource.
pub const MAX_WORLD_ENTITY_HEALTH: i32 = 50;

/// The value one in the fixed-point scale of noise samples.
pub const NOISE_UNIT: u32 = 1000000;

/// A static resource is placed where the resource field is below this
/// fraction of `NOISE_UNIT` (0.4).
pub const WORLD_ENTITY_SPAWN_RATE: u32 = 400000;

/// Random draws made for a spawn point before the inset region is scanned.
pub const SPAWN_ATTEMPTS: u32 = 64;

} // verus!
