//! The 3x3 grid: tiles are numbered 0 to 8 row by row, and each tile has
//! four sides.

use vstd::prelude::*;

verus! {

/// One of the four sides of a tile.
#[derive(Debug, Clone, Copy, PartialEq, Eq, Hash, Structural)]
pub enum Direction {
    Up,
    Left,
    Down,
    Right,
}

impl Direction {
    /// The side facing this one.
    pub open spec fn spec_opposite(&self) -> Direction {
        match self {
            Direction::Up => Direction::Down,
            Direction::Left => Direction::Right,
            Direction::Down => Direction::Up,
            Direction::Right => Direction::Left,
        }
    }

    /// What a step towards this side adds to a tile's number.
    pub open spec fn spec_tile_move(&self) -> int {
        match self {
            Direction::Up => -3,
            Direction::Left => -1,
            Direction::Down => 3,
            Direction::Right => 1,
        }
    }

    /// The side facing this one.
    #[verifier::when_used_as_spec(spec_opposite)]
    pub fn opposite(&self) -> (r: Direction)
        ensures
            r == self.spec_opposite(),
            r.spec_opposite() == *self,
            r != *self,
    {
        match self {
            Direction::Up => Direction::Down,
            Direction::Left => Direction::Right,
            Direction::Down => Direction::Up,
            Direction::Right => Direction::Left,
        }
    }

    /// What a step towards this side adds to a tile's number.
    pub fn tile_move(&self) -> (r: isize)
        ensures
            r == self.spec_tile_move(),
    {
        match self {
            Direction::Up => -3,
            Direction::Left => -1,
            Direction::Down => 3,
            Direction::Right => 1,
        }
    }
}

/// Whether a tile has a neighbour on the given side.
pub open spec fn has_neighbor(tile: int, direction: Direction) -> bool {
    match direction {
        Direction::Up => tile >= 3,
        Direction::Left => tile % 3 != 0,
        Direction::Down => tile < 6,
        Direction::Right => tile % 3 != 2,
    }
}

/// The neighbour of a tile on the given side, and the side of that neighbour
/// which touches the tile; nothing at the border of the grid.
pub open spec fn spec_do_move(tile: int, direction: Direction) -> Option<(int, Direction)> {
    if 0 <= tile < 9 && has_neighbor(tile, direction) {
        Some((tile + direction.spec_tile_move(), direction.spec_opposite()))
    } else {
        None
    }
}

/// The plain value of what `do_move` returns.
pub open spec fn move_view(r: Option<(u8, Direction)>) -> Option<(int, Direction)> {
    match r {
        Some((t, d)) => Some((t as int, d)),
        None => None,
    }
}

/// Steps from a tile towards one of its sides: gives the tile reached and the
/// side of it that faces back, or nothing at the border of the grid.
pub fn do_move(tile: u8, direction: Direction) -> (r: Option<(u8, Direction)>)
    requires
        tile < 9,
    ensures
        move_view(r) == spec_do_move(tile as int, direction),
{
    match direction {
        Direction::Up => if tile < 3 {
            None
        } else {
            Some((tile - 3, Direction::Down))
        },
        Direction::Left => if tile == 0 || tile == 3 || tile == 6 {
            None
        } else {
            Some((tile - 1, Direction::Right))
        },
        Direction::Down => if tile >= 6 {
            None
        } else {
            Some((tile + 3, Direction::Up))
        },
        Direction::Right => if tile == 2 || tile == 5 || tile == 8 {
            None
        } else {
            Some((tile + 1, Direction::Left))
        },
    }
}

/// A step taken back leads to where it came from: if the move from `tile`
/// towards `d` gives `(t2, d2)`, the move from `t2` towards `d2` gives
/// `(tile, d)`.
pub proof fn lemma_move_round_trip(tile: int, d: Direction, t2: int, d2: Direction)
    requires
        spec_do_move(tile, d) == Some((t2, d2)),
    ensures
        spec_do_move(t2, d2) == Some((tile, d)),
{
}

} // verus!
