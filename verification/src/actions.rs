//! Action payload types without floating-point fields.
//!
//! Every Action packet's payload is a JSON action envelope (at most
//! MAX_ACTION_PAYLOAD bytes, UTF-8). The envelope and the actions that carry
//! coordinates, angles or amounts are read and written outside this crate;
//! these are the block, tool and tag types they share.

use vstd::prelude::*;

verus! {

/// The largest action payload accepted.
pub const MAX_ACTION_PAYLOAD: usize = 1024;

/// Whether a payload is small enough to be read as an action envelope;
/// larger payloads are dropped.
pub fn payload_within_limit(bytes: &[u8]) -> (r: bool)
    ensures
        r == (bytes@.len() <= MAX_ACTION_PAYLOAD),
{
    bytes.len() <= MAX_ACTION_PAYLOAD
}

/// Shared block coordinate + metadata used by Mine.
#[derive(Debug, Clone, Copy, PartialEq, Eq, Structural)]
pub struct BlockCoord {
    pub x: i32,
    pub y: i32,
    pub z: i32,
    pub block_id: BlockId,
    pub tool: ToolType,
}

#[derive(Debug, Clone, Copy, PartialEq, Eq, Structural)]
pub struct BuildData {
    pub x: i32,
    pub y: i32,
    pub z: i32,
    pub block_id: BlockId,
    pub face: BlockFace,
}

/// Platform-agnostic block registry. Adapters map these to their native
/// block type.
#[derive(Debug, Clone, Copy, PartialEq, Eq, Structural)]
pub enum BlockId {
    Stone,
    Dirt,
    Wood,
    Glass,
    OreIron,
    /// The Shard ore: glows blue
    OreRift,
    /// Placed Shard entity / beacon
    RiftShard,
    /// Unmapped block
    Unknown,
}

#[derive(Debug, Clone, Copy, PartialEq, Eq, Structural)]
pub enum ToolType {
    Hand,
    Pickaxe,
    Shovel,
    Axe,
}

#[derive(Debug, Clone, Copy, PartialEq, Eq, Structural)]
pub enum BlockFace {
    Top,
    Bottom,
    North,
    South,
    East,
    West,
}

#[derive(Debug, Clone, Copy, PartialEq, Eq, Structural)]
pub enum DropReason {
    Voluntary,
    Killed,
    Timeout,
}

#[derive(Debug, Clone, Copy, PartialEq, Eq, Structural)]
pub enum DamageType {
    Melee,
    Ranged,
    Fall,
    Environment,
}

#[derive(Debug, Clone, Copy, PartialEq, Eq, Structural)]
pub enum ShaperEffect {
    RevealPath,
    CalmMobs,
    AgitateMobs,
}

#[derive(Debug, Clone, Copy, PartialEq, Eq, Structural)]
pub enum CluePlatform {
    Roblox,
    Minecraft,
    Hytale,
}

#[derive(Debug, Clone, Copy, PartialEq, Eq, Structural)]
pub enum ClueType {
    /// Roblox: glowing structure above ground
    StructuralAnomaly,
    /// Minecraft: ore vein direction
    VeinPattern,
    /// Hytale: creature agitation
    MobBehavior,
}

#[derive(Debug, Clone, Copy, PartialEq, Eq, Structural)]
pub enum CardinalDir {
    N,
    Ne,
    E,
    Se,
    S,
    Sw,
    W,
    Nw,
    Up,
    Down,
}

} // verus!
