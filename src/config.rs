use vstd::prelude::*;
use crate::motion::{Boundary, Moving, Position};

verus! {

/// A cell of the tile grid, counted in blocks.
#[derive(Clone, Copy, Debug, PartialEq, Eq, Hash, Structural)]
pub struct GridPosition {
    pub x: i32,
    pub y: i32,
    pub z: i32,
}

/// The world: its size, the size of one step, and the boundary that positions
/// are clamped into.
#[derive(Clone, Copy, Debug, PartialEq, Eq, Hash, Structural)]
pub struct WorldConfig {
    pub size: Position,
    pub step: u32,
    pub boundary: Boundary,
}

/// A player's starting movement state (its speed is also the cruise speed)
/// and starting cell.
#[derive(Clone, Copy, Debug, PartialEq, Eq, Hash, Structural)]
pub struct PlayerConfig {
    pub moving: Moving,
    pub position: GridPosition,
}

/// The configuration read once before play.
#[derive(Clone, Copy, Debug, PartialEq, Eq, Hash, Structural)]
pub struct GameConfig {
    pub world: WorldConfig,
    pub player1: PlayerConfig,
    pub player2: PlayerConfig,
}

/// The kinds of tile a map cell can hold.
#[derive(Clone, Copy, Debug, PartialEq, Eq, Hash, Structural)]
pub enum LandType {
    Tree,
    Ice,
    Brick,
    Iron,
    Water,
    Grass,
    Empty,
}

/// The size of a map in cells.
#[derive(Clone, Copy, Debug, PartialEq, Eq, Hash, Structural)]
pub struct MapSize {
    pub width: u32,
    pub height: u32,
}

/// A tile map: rows of land types.
#[derive(Clone, Debug)]
pub struct GameMap {
    pub size: MapSize,
    pub data: Vec<Vec<LandType>>,
}

} // verus!
