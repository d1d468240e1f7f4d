use vstd::prelude::*;

verus! {

/// One of the four cardinal orientations a tank can face and move in.
#[derive(Clone, Copy, Debug, PartialEq, Eq, Hash, Structural)]
pub enum GameDirection {
    Left,
    Right,
    Up,
    Down,
}

/// Unit displacement of a direction on the x axis.
pub open spec fn unit_x(d: GameDirection) -> int {
    match d {
        GameDirection::Left => -1,
        GameDirection::Right => 1,
        GameDirection::Up => 0,
        GameDirection::Down => 0,
    }
}

/// Unit displacement of a direction on the y axis.
pub open spec fn unit_y(d: GameDirection) -> int {
    match d {
        GameDirection::Left => 0,
        GameDirection::Right => 0,
        GameDirection::Up => 1,
        GameDirection::Down => -1,
    }
}

/// The `[still, moving]` sprite-frame pair shown for a direction.
pub open spec fn frames(d: GameDirection) -> (usize, usize) {
    match d {
        GameDirection::Up => (0, 1),
        GameDirection::Down => (2, 3),
        GameDirection::Left => (4, 5),
        GameDirection::Right => (6, 7),
    }
}

impl GameDirection {
    /// The unit movement vector `(x, y)` of this direction.
    pub fn unit_vector(&self) -> (r: (i64, i64))
        ensures
            r.0 == unit_x(*self),
            r.1 == unit_y(*self),
    {
        match self {
            GameDirection::Left => (-1, 0),
            GameDirection::Right => (1, 0),
            GameDirection::Up => (0, 1),
            GameDirection::Down => (0, -1),
        }
    }

    /// The sprite-frame indices `[still, moving]` of this direction.
    pub fn frame_indices(&self) -> (r: [usize; 2])
        ensures
            r@ == seq![frames(*self).0, frames(*self).1],
    {
        let r = match self {
            GameDirection::Up => [0, 1],
            GameDirection::Down => [2, 3],
            GameDirection::Left => [4, 5],
            GameDirection::Right => [6, 7],
        };
        assert(r@ =~= seq![frames(*self).0, frames(*self).1]);
        r
    }
}

} // verus!
