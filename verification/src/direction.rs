use vstd::prelude::*;

verus! {

/// A directional movement intent: the primitive vocabulary shared by the
/// input codec, the segments and the transition engine.
#[derive(Clone, Copy, Debug, PartialEq, Eq, Structural)]
pub enum Direction {
    Up,
    Down,
    Left,
    Right,
}

impl Default for Direction {
    /// A freshly spawned segment faces up.
    fn default() -> (d: Direction)
        ensures
            d == Direction::Up,
    {
        Direction::Up
    }
}

/// The exact 180-degree reverse of a direction.
pub open spec fn opposite(d: Direction) -> Direction {
    match d {
        Direction::Up => Direction::Down,
        Direction::Down => Direction::Up,
        Direction::Left => Direction::Right,
        Direction::Right => Direction::Left,
    }
}

/// Horizontal displacement of one step in direction `d`, in cells.
pub open spec fn dx(d: Direction) -> int {
    match d {
        Direction::Left => -1,
        Direction::Right => 1,
        _ => 0,
    }
}

/// Vertical displacement of one step in direction `d`, in cells.
pub open spec fn dy(d: Direction) -> int {
    match d {
        Direction::Up => 1,
        Direction::Down => -1,
        _ => 0,
    }
}

/// Runtime counterpart of `dx`.
pub fn step_dx(d: Direction) -> (r: i64)
    ensures
        r as int == dx(d),
{
    match d {
        Direction::Left => -1,
        Direction::Right => 1,
        _ => 0,
    }
}

/// Runtime counterpart of `dy`.
pub fn step_dy(d: Direction) -> (r: i64)
    ensures
        r as int == dy(d),
{
    match d {
        Direction::Up => 1,
        Direction::Down => -1,
        _ => 0,
    }
}

impl Direction {
    /// Runtime counterpart of `opposite`.
    pub fn reverse(self) -> (r: Direction)
        ensures
            r == opposite(self),
    {
        match self {
            Direction::Up => Direction::Down,
            Direction::Down => Direction::Up,
            Direction::Left => Direction::Right,
            Direction::Right => Direction::Left,
        }
    }
}

} // verus!
