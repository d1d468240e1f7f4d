use vstd::prelude::*;
use crate::direction::{GameDirection, unit_x, unit_y, frames};
use crate::input::{BoundKey, Player, key_direction, direction_of};

verus! {

/// A point in world space.
#[derive(Clone, Copy, Debug, PartialEq, Eq, Hash, Structural)]
pub struct Position {
    pub x: i64,
    pub y: i64,
    pub z: i64,
}

/// The rectangle positions are held inside, on the x and y axes.
#[derive(Clone, Copy, Debug, PartialEq, Eq, Hash, Structural)]
pub struct Boundary {
    pub max: Position,
    pub min: Position,
}

/// How fast, and which way, an entity moves: `speed` is the displacement of
/// one tick.
#[derive(Clone, Copy, Debug, PartialEq, Eq, Hash, Structural)]
pub struct Moving {
    pub speed: u32,
    pub direction: GameDirection,
}

/// A value raised to `lo` when below it, then lowered to `hi` when above it.
pub open spec fn clamp(v: int, lo: int, hi: int) -> int {
    let a = if v < lo { lo } else { v };
    if a > hi { hi } else { a }
}

/// The boundary's minimum lies at or below its maximum on x and y.
pub open spec fn within(b: Boundary) -> bool {
    b.min.x <= b.max.x && b.min.y <= b.max.y
}

/// `p` held inside `b` on the x and y axes; z is kept.
pub open spec fn clamped(p: Position, b: Boundary) -> Position {
    Position {
        x: clamp(p.x as int, b.min.x as int, b.max.x as int) as i64,
        y: clamp(p.y as int, b.min.y as int, b.max.y as int) as i64,
        z: p.z,
    }
}

/// The x coordinate after one tick of movement, before clamping.
pub open spec fn moved_x(p: Position, m: Moving) -> int {
    p.x + m.speed * unit_x(m.direction)
}

/// The y coordinate after one tick of movement, before clamping.
pub open spec fn moved_y(p: Position, m: Moving) -> int {
    p.y + m.speed * unit_y(m.direction)
}

/// The position after one tick: moved by speed times the unit vector of the
/// direction, then clamped into the boundary.
pub open spec fn ticked(p: Position, m: Moving, b: Boundary) -> Position {
    Position {
        x: clamp(moved_x(p, m), b.min.x as int, b.max.x as int) as i64,
        y: clamp(moved_y(p, m), b.min.y as int, b.max.y as int) as i64,
        z: p.z,
    }
}

/// The movement state after the resolver sees the key that steers now.
pub open spec fn resolved(m: Moving, current: Option<BoundKey>, player: Player, cruise: u32) -> Moving {
    match current {
        None => Moving { speed: 0, ..m },
        Some(k) => match key_direction(player, k) {
            Some(d) => Moving { speed: cruise, direction: d },
            None => m,
        },
    }
}

/// The sprite frame after one animator tick.
pub open spec fn animated(index: usize, m: Moving) -> usize {
    if m.speed > 0 {
        if index == frames(m.direction).0 {
            frames(m.direction).1
        } else {
            frames(m.direction).0
        }
    } else {
        index
    }
}

proof fn lemma_clamp_range(v: int, lo: int, hi: int)
    ensures
        clamp(v, lo, hi) == lo || clamp(v, lo, hi) == hi || (lo <= clamp(v, lo, hi) <= hi),
        lo <= hi ==> lo <= clamp(v, lo, hi) <= hi,
{
}

/// Clamps `v` into `[lo, hi]` the way the boundary does.
fn clamp_axis(v: i128, lo: i64, hi: i64) -> (r: i64)
    ensures
        r == clamp(v as int, lo as int, hi as int),
{
    proof {
        lemma_clamp_range(v as int, lo as int, hi as int);
    }
    let a: i128 = if v < lo as i128 { lo as i128 } else { v };
    let r: i128 = if a > hi as i128 { hi as i128 } else { a };
    r as i64
}

impl Position {
    pub fn new(x: i64, y: i64, z: i64) -> (r: Position)
        ensures
            r == (Position { x, y, z }),
    {
        Position { x, y, z }
    }

    /// Holds this position inside `boundary` on the x and y axes; z is kept.
    pub fn boundary(&mut self, boundary: &Boundary)
        ensures
            *final(self) == clamped(*old(self), *boundary),
    {
        self.x = clamp_axis(self.x as i128, boundary.min.x, boundary.max.x);
        self.y = clamp_axis(self.y as i128, boundary.min.y, boundary.max.y);
    }
}

/// Clamping a second time changes nothing.
pub proof fn lemma_clamp_idempotent(p: Position, b: Boundary)
    requires
        within(b),
    ensures
        clamped(clamped(p, b), b) == clamped(p, b),
{
}

/// One tick of the integrator: moves by speed times the direction's unit
/// vector, then clamps into the boundary.
pub fn moving_action(transform: &mut Position, moving: &Moving, boundary: &Boundary)
    ensures
        *final(transform) == ticked(*old(transform), *moving, *boundary),
{
    let (dx, dy) = moving.direction.unit_vector();
    let s: i128 = moving.speed as i128;
    let step_x: i128 = if dx > 0 { s } else if dx < 0 { -s } else { 0 };
    let step_y: i128 = if dy > 0 { s } else if dy < 0 { -s } else { 0 };
    assert(step_x == moving.speed * unit_x(moving.direction));
    assert(step_y == moving.speed * unit_y(moving.direction));
    let x: i128 = transform.x as i128 + step_x;
    let y: i128 = transform.y as i128 + step_y;
    transform.x = clamp_axis(x, boundary.min.x, boundary.max.x);
    transform.y = clamp_axis(y, boundary.min.y, boundary.max.y);
}

/// Where the moved position lies inside the boundary, one tick moves by exactly
/// speed times the unit vector of the direction.
pub proof fn lemma_tick_moves_by_speed(p: Position, m: Moving, b: Boundary)
    requires
        b.min.x <= moved_x(p, m) <= b.max.x,
        b.min.y <= moved_y(p, m) <= b.max.y,
    ensures
        ticked(p, m, b).x - p.x == m.speed * unit_x(m.direction),
        ticked(p, m, b).y - p.y == m.speed * unit_y(m.direction),
        ticked(p, m, b).z == p.z,
{
}

/// The resolver: the key that steers now sets the direction and the cruise
/// speed; with no key held the speed drops to zero and the direction stays.
pub fn resolve(moving: &mut Moving, current: Option<BoundKey>, player: Player, cruise: u32)
    ensures
        *final(moving) == resolved(*old(moving), current, player, cruise),
{
    match current {
        None => {
            moving.speed = 0;
        },
        Some(k) => match direction_of(player, k) {
            Some(d) => {
                moving.direction = d;
                moving.speed = cruise;
            },
            None => {},
        },
    }
}

/// With no key held, the speed is zero whatever came before, and the direction
/// is kept.
pub proof fn lemma_idle_stops(m: Moving, player: Player, cruise: u32)
    ensures
        resolved(m, None, player, cruise).speed == 0,
        resolved(m, None, player, cruise).direction == m.direction,
{
}

/// One animator tick: while moving, the frame flips between the direction's
/// still and moving frames; at speed zero it is left alone.
pub fn turns(sprite_index: &mut usize, moving: &Moving)
    ensures
        *final(sprite_index) == animated(*old(sprite_index), *moving),
{
    let indices = moving.direction.frame_indices();
    if moving.speed > 0 {
        *sprite_index = if *sprite_index == indices[0] { indices[1] } else { indices[0] };
    }
}

/// The frame after `n` animator ticks.
pub open spec fn animated_n(index: usize, m: Moving, n: nat) -> usize
    decreases n,
{
    if n == 0 {
        index
    } else {
        animated(animated_n(index, m, (n - 1) as nat), m)
    }
}

/// An idle entity keeps its frame over any number of ticks.
pub proof fn lemma_idle_keeps_frame(index: usize, m: Moving, n: nat)
    requires
        m.speed == 0,
    ensures
        animated_n(index, m, n) == index,
    decreases n,
{
    if n > 0 {
        lemma_idle_keeps_frame(index, m, (n - 1) as nat);
    }
}

} // verus!
