use vstd::prelude::*;
use crate::config::{GameConfig, GridPosition, PlayerConfig};
use crate::direction::frames;
use crate::input::{KeyState, Player, current_of};
use crate::menu::GameState;
use crate::motion::{Moving, Position, resolve, resolved};

verus! {

/// The side of one block of the tile grid, in world units.
pub const GAME_BLOCK: i64 = 24;

/// A player's tank as it stands in the world.
#[derive(Clone, Copy, Debug, PartialEq, Eq, Hash, Structural)]
pub struct Tank {
    pub moving: Moving,
    pub transform: Position,
    pub sprite_index: usize,
}

/// The world position of a grid cell: one block per cell on x and y, z as it is.
pub open spec fn world_position(p: GridPosition) -> Position {
    Position { x: (GAME_BLOCK * p.x) as i64, y: (GAME_BLOCK * p.y) as i64, z: p.z as i64 }
}

/// The tank a player configuration starts with: its movement state, its cell
/// placed in the world, and the still frame of its direction.
pub open spec fn spawned(config: PlayerConfig) -> Tank {
    Tank {
        moving: config.moving,
        transform: world_position(config.position),
        sprite_index: frames(config.moving.direction).0,
    }
}

/// Places a tank for a player configuration.
pub fn spawn_player(config: &PlayerConfig) -> (r: Tank)
    ensures
        r == spawned(*config),
{
    let indices = config.moving.direction.frame_indices();
    let x: i64 = GAME_BLOCK * config.position.x as i64;
    let y: i64 = GAME_BLOCK * config.position.y as i64;
    Tank {
        moving: config.moving,
        transform: Position { x, y, z: config.position.z as i64 },
        sprite_index: indices[0],
    }
}

/// Places both players' tanks; play begins once they stand, so the phase to
/// go to is `Playing`.
pub fn spawn_players(config: &GameConfig) -> (r: (Tank, Tank, GameState))
    ensures
        r.0 == spawned(config.player1),
        r.1 == spawned(config.player2),
        r.2 == GameState::Playing,
{
    (spawn_player(&config.player1), spawn_player(&config.player2), GameState::Playing)
}

/// The resolver for player one: steers by the key player one pressed most
/// recently among those still held, at player one's cruise speed.
pub fn player1_moving(keys: &KeyState, config: &GameConfig, moving: &mut Moving)
    ensures
        *final(moving) == resolved(
            *old(moving),
            current_of(keys.input1_queue@),
            Player::One,
            config.player1.moving.speed,
        ),
{
    resolve(moving, keys.input1_queue.current(), Player::One, config.player1.moving.speed);
}

/// The resolver for player two: steers by the key player two pressed most
/// recently among those still held, at player two's cruise speed.
pub fn player2_moving(keys: &KeyState, config: &GameConfig, moving: &mut Moving)
    ensures
        *final(moving) == resolved(
            *old(moving),
            current_of(keys.input2_queue@),
            Player::Two,
            config.player2.moving.speed,
        ),
{
    resolve(moving, keys.input2_queue.current(), Player::Two, config.player2.moving.speed);
}

} // verus!
