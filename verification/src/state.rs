//! The state of play and the eight operations that change it: four that take
//! the player to a control panel, four that slide a tile into the blank slot.

use vstd::prelude::*;
use crate::chain::{find_entrance, spec_find_entrance};
use crate::gates::{Gate, OpenedGates};
use crate::grid::{do_move, spec_do_move, Direction};
use crate::rooms::{Entrance, PuzzleMover, Room};

verus! {

/// A grid as the game knows it: nine tiles, no room twice, and a blank slot.
pub open spec fn valid_grid(grid: Seq<Room>) -> bool {
    &&& grid.len() == 9
    &&& forall|i: int, j: int| 0 <= i < j < 9 ==> grid[i] != grid[j]
    &&& exists|i: int| 0 <= i < 9 && grid[i] == Room::Empty
}

/// Whether `tile` is the first tile of the grid that holds the blank slot.
pub open spec fn is_empty_tile(grid: Seq<Room>, tile: int) -> bool {
    &&& 0 <= tile < grid.len()
    &&& grid[tile] == Room::Empty
    &&& forall|j: int| 0 <= j < tile ==> grid[j] != Room::Empty
}

/// The first tile of the grid that holds the blank slot.
pub open spec fn empty_tile(grid: Seq<Room>) -> int {
    choose|tile: int| is_empty_tile(grid, tile)
}

/// The grid with the rooms of two tiles exchanged.
pub open spec fn swapped(grid: Seq<Room>, a: int, b: int) -> Seq<Room> {
    grid.update(a, grid[b]).update(b, grid[a])
}

/// Where the player is: the grid, the tile he stands on, and the side of the
/// tile he stands at.
pub struct State {
    pub grid: Seq<Room>,
    pub tile: u8,
    pub direction: Direction,
}

impl State {
    /// The entrance the player stands at, if the room on his tile has one on
    /// his side.
    pub open spec fn entrance(self) -> Option<Entrance> {
        Entrance::spec_from_room_direction(self.grid[self.tile as int], self.direction)
    }

    /// A state of the game: a grid as the game knows it and a tile on it.
    pub open spec fn valid(self) -> bool {
        valid_grid(self.grid) && self.tile < 9
    }

    /// A state in which the player stands at a control panel.
    pub open spec fn at_panel(self) -> bool {
        self.valid() && self.entrance() is Some && self.entrance()->0.spec_has_control_panel()
    }
}

/// The grid and the player's place on it.
#[derive(Debug, Clone, Copy, PartialEq, Eq, Hash)]
pub struct RoomAndPos {
    rooms: [Room; 9],
    pos_tile: u8,
    pos_direction: Direction,
}

impl View for RoomAndPos {
    type V = State;

    closed spec fn view(&self) -> State {
        State { grid: self.rooms@, tile: self.pos_tile, direction: self.pos_direction }
    }
}

impl RoomAndPos {
    pub fn new(rooms: [Room; 9], pos_tile: u8, pos_direction: Direction) -> (r: RoomAndPos)
        ensures
            r@ == (State { grid: rooms@, tile: pos_tile, direction: pos_direction }),
    {
        RoomAndPos { rooms, pos_tile, pos_direction }
    }

    /// A place holds nine tiles.
    pub proof fn lemma_nine_tiles(self)
        ensures
            self@.grid.len() == 9,
    {
    }

    pub fn rooms(&self) -> (r: &[Room; 9])
        ensures
            r@ == self@.grid,
    {
        &self.rooms
    }

    pub fn pos_tile(&self) -> (r: u8)
        ensures
            r == self@.tile,
    {
        self.pos_tile
    }

    pub fn pos_direction(&self) -> (r: Direction)
        ensures
            r == self@.direction,
    {
        self.pos_direction
    }
}

/// The whole of a moment of a search: the grid, the player's place on it, and
/// the gates opened so far.
#[derive(Debug, Clone, Copy, PartialEq, Eq, Hash)]
pub struct UniqueState {
    rooms: [Room; 9],
    pos_tile: u8,
    pos_direction: Direction,
    gates: OpenedGates,
}

impl UniqueState {
    /// The grid and the player's place, without the gates.
    pub closed spec fn state(&self) -> State {
        State { grid: self.rooms@, tile: self.pos_tile, direction: self.pos_direction }
    }

    /// The gates opened so far.
    pub closed spec fn spec_gates(&self) -> OpenedGates {
        self.gates
    }

    pub fn new(place: RoomAndPos, gates: OpenedGates) -> (r: UniqueState)
        ensures
            r.state() == place@,
            r.spec_gates() == gates,
    {
        UniqueState {
            rooms: place.rooms,
            pos_tile: place.pos_tile,
            pos_direction: place.pos_direction,
            gates,
        }
    }

    pub fn room_and_pos(&self) -> (r: RoomAndPos)
        ensures
            r@ == self.state(),
    {
        RoomAndPos {
            rooms: self.rooms,
            pos_tile: self.pos_tile,
            pos_direction: self.pos_direction,
        }
    }

    pub fn gates(&self) -> (r: OpenedGates)
        ensures
            r == self.spec_gates(),
    {
        self.gates
    }
}

/// The operations of a search, in the order in which it tries them.
#[derive(Debug, Clone, Copy, PartialEq, Eq, Hash, Structural)]
pub enum Operations {
    ReachMoverStart,
    ReachMoverLanayruMiningFacility,
    ReachMoverEarthTemple,
    ReachMoverMiniBoss,
    MoveUp,
    MoveLeft,
    MoveDown,
    MoveRight,
}

/// What an operation does: it takes the player to the control panel of a
/// room, or slides into the blank slot the tile next to it on a side.
#[derive(Debug, Clone, Copy, PartialEq, Eq, Hash, Structural)]
pub enum OperationKind {
    Reach(PuzzleMover),
    Move(Direction),
}

impl Operations {
    /// The operation's place in the order of trying, from 0 to 7.
    pub open spec fn spec_index(self) -> int {
        match self {
            Operations::ReachMoverStart => 0,
            Operations::ReachMoverLanayruMiningFacility => 1,
            Operations::ReachMoverEarthTemple => 2,
            Operations::ReachMoverMiniBoss => 3,
            Operations::MoveUp => 4,
            Operations::MoveLeft => 5,
            Operations::MoveDown => 6,
            Operations::MoveRight => 7,
        }
    }

    /// The operation at a place in the order of trying; the last one for a
    /// number that is no place.
    pub open spec fn at(i: int) -> Operations {
        if i == 0 {
            Operations::ReachMoverStart
        } else if i == 1 {
            Operations::ReachMoverLanayruMiningFacility
        } else if i == 2 {
            Operations::ReachMoverEarthTemple
        } else if i == 3 {
            Operations::ReachMoverMiniBoss
        } else if i == 4 {
            Operations::MoveUp
        } else if i == 5 {
            Operations::MoveLeft
        } else if i == 6 {
            Operations::MoveDown
        } else {
            Operations::MoveRight
        }
    }

    /// What the operation does.
    pub open spec fn spec_kind(self) -> OperationKind {
        match self {
            Operations::ReachMoverStart => OperationKind::Reach(PuzzleMover::Start),
            Operations::ReachMoverLanayruMiningFacility => OperationKind::Reach(
                PuzzleMover::LanayruMiningFacility,
            ),
            Operations::ReachMoverEarthTemple => OperationKind::Reach(PuzzleMover::EarthTemple),
            Operations::ReachMoverMiniBoss => OperationKind::Reach(PuzzleMover::MiniBoss),
            Operations::MoveUp => OperationKind::Move(Direction::Up),
            Operations::MoveLeft => OperationKind::Move(Direction::Left),
            Operations::MoveDown => OperationKind::Move(Direction::Down),
            Operations::MoveRight => OperationKind::Move(Direction::Right),
        }
    }

    pub fn index(&self) -> (r: u8)
        ensures
            r == self.spec_index(),
            r < 8,
    {
        match self {
            Operations::ReachMoverStart => 0,
            Operations::ReachMoverLanayruMiningFacility => 1,
            Operations::ReachMoverEarthTemple => 2,
            Operations::ReachMoverMiniBoss => 3,
            Operations::MoveUp => 4,
            Operations::MoveLeft => 5,
            Operations::MoveDown => 6,
            Operations::MoveRight => 7,
        }
    }

    /// The operation at a place in the order of trying, if there is one.
    pub fn from_index(i: u8) -> (r: Option<Operations>)
        ensures
            i < 8 ==> r == Some(Operations::at(i as int)),
            i >= 8 ==> r is None,
    {
        match i {
            0 => Some(Operations::ReachMoverStart),
            1 => Some(Operations::ReachMoverLanayruMiningFacility),
            2 => Some(Operations::ReachMoverEarthTemple),
            3 => Some(Operations::ReachMoverMiniBoss),
            4 => Some(Operations::MoveUp),
            5 => Some(Operations::MoveLeft),
            6 => Some(Operations::MoveDown),
            7 => Some(Operations::MoveRight),
            _ => None,
        }
    }

    /// What the operation does.
    pub fn kind(&self) -> (r: OperationKind)
        ensures
            r == self.spec_kind(),
    {
        match self {
            Operations::ReachMoverStart => OperationKind::Reach(PuzzleMover::Start),
            Operations::ReachMoverLanayruMiningFacility => OperationKind::Reach(
                PuzzleMover::LanayruMiningFacility,
            ),
            Operations::ReachMoverEarthTemple => OperationKind::Reach(PuzzleMover::EarthTemple),
            Operations::ReachMoverMiniBoss => OperationKind::Reach(PuzzleMover::MiniBoss),
            Operations::MoveUp => OperationKind::Move(Direction::Up),
            Operations::MoveLeft => OperationKind::Move(Direction::Left),
            Operations::MoveDown => OperationKind::Move(Direction::Down),
            Operations::MoveRight => OperationKind::Move(Direction::Right),
        }
    }
}

/// What taking the player to a room's control panel makes of a state: the
/// player stands at the panel's entrance, on the tile where a walk from his
/// place, or from one tile further, came by it. Nothing if neither walk comes
/// by it.
pub open spec fn spec_reach(s: State, gates: Set<Gate>, mover: PuzzleMover) -> Option<State> {
    match spec_find_entrance(s.grid, gates, s.tile, s.direction, mover.spec_panel()) {
        Some(t) => Some(State { grid: s.grid, tile: t, direction: mover.spec_panel().direction() }),
        None => None,
    }
}

/// What sliding makes of a state: the blank slot and the tile next to it on
/// the side `direction` change places. Nothing if there is no tile on that
/// side of the blank slot, or if the player stands on it.
pub open spec fn spec_slide(s: State, direction: Direction) -> Option<State> {
    match spec_do_move(empty_tile(s.grid), direction) {
        Some((t, d)) => if t == s.tile {
            None
        } else {
            Some(
                State {
                    grid: swapped(s.grid, empty_tile(s.grid), t),
                    tile: s.tile,
                    direction: s.direction,
                },
            )
        },
        None => None,
    }
}

/// What an operation makes of a state, with the given gates opened; nothing
/// where it cannot be done.
pub open spec fn spec_apply(op: Operations, s: State, gates: Set<Gate>) -> Option<State> {
    match op.spec_kind() {
        OperationKind::Reach(mover) => spec_reach(s, gates, mover),
        OperationKind::Move(direction) => spec_slide(s, direction),
    }
}

/// Whether the grid is one as the game knows it.
pub fn is_valid_grid(rooms: &[Room; 9]) -> (r: bool)
    ensures
        r == valid_grid(rooms@),
{
    let mut i: usize = 0;
    while i < 9
        invariant
            i <= 9,
            forall|a: int, b: int| 0 <= a < b < 9 && a < i ==> rooms@[a] != rooms@[b],
        decreases 9 - i,
    {
        let mut j: usize = i + 1;
        while j < 9
            invariant
                i < 9,
                i < j <= 9,
                forall|b: int| i < b < j ==> rooms@[i as int] != rooms@[b],
            decreases 9 - j,
        {
            if rooms[i] == rooms[j] {
                return false;
            }
            j = j + 1;
        }
        i = i + 1;
    }
    find_empty(rooms).is_some()
}

/// The first tile that holds the blank slot, if the grid has one.
pub fn find_empty(rooms: &[Room; 9]) -> (r: Option<u8>)
    ensures
        match r {
            Some(t) => is_empty_tile(rooms@, t as int),
            None => forall|i: int| 0 <= i < 9 ==> rooms@[i] != Room::Empty,
        },
        r matches Some(t) ==> t == empty_tile(rooms@),
{
    let mut i: u8 = 0;
    while i < 9
        invariant
            i <= 9,
            forall|j: int| 0 <= j < i ==> rooms@[j] != Room::Empty,
        decreases 9 - i,
    {
        if rooms[i as usize] == Room::Empty {
            proof {
                lemma_empty_tile(rooms@, i as int);
            }
            return Some(i);
        }
        i = i + 1;
    }
    None
}

/// The first tile with the blank slot is the only tile that is it.
pub proof fn lemma_empty_tile(grid: Seq<Room>, tile: int)
    requires
        is_empty_tile(grid, tile),
    ensures
        empty_tile(grid) == tile,
{
    let other = empty_tile(grid);
    assert(is_empty_tile(grid, other));
    if other < tile {
    } else if tile < other {
    }
}

impl RoomAndPos {
    /// Takes the player to the control panel of a room, if a walk from his
    /// place, or from one tile further, comes by it.
    pub fn reach(&self, gates: OpenedGates, mover: PuzzleMover) -> (r: Option<RoomAndPos>)
        requires
            self@.tile < 9,
        ensures
            option_view(r) == spec_reach(self@, gates@, mover),
    {
        let panel = mover.panel();
        match find_entrance(&self.rooms, gates, self.pos_tile, self.pos_direction, panel) {
            Some(t) => Some(
                RoomAndPos {
                    rooms: self.rooms,
                    pos_tile: t,
                    pos_direction: panel.to_room_direction().1,
                },
            ),
            None => None,
        }
    }

    /// Slides into the blank slot the tile next to it on the side
    /// `direction`, if there is one and the player does not stand on it.
    pub fn slide(&self, direction: Direction) -> (r: Option<RoomAndPos>)
        requires
            self@.valid(),
        ensures
            option_view(r) == spec_slide(self@, direction),
    {
        let blank = match find_empty(&self.rooms) {
            Some(t) => t,
            None => {
                return None;
            },
        };
        match do_move(blank, direction) {
            Some((t, _)) => if t == self.pos_tile {
                None
            } else {
                let mut rooms = self.rooms;
                let room = rooms[t as usize];
                rooms[t as usize] = Room::Empty;
                rooms[blank as usize] = room;
                assert(rooms@ =~= swapped(self.rooms@, blank as int, t as int));
                Some(RoomAndPos { rooms, pos_tile: self.pos_tile, pos_direction: self.pos_direction })
            },
            None => None,
        }
    }

    /// Does an operation, if it can be done with the given gates opened.
    pub fn apply(&self, op: Operations, gates: OpenedGates) -> (r: Option<RoomAndPos>)
        requires
            self@.valid(),
        ensures
            option_view(r) == spec_apply(op, self@, gates@),
    {
        match op.kind() {
            OperationKind::Reach(mover) => self.reach(gates, mover),
            OperationKind::Move(direction) => self.slide(direction),
        }
    }
}

/// The state that an optional place stands for.
pub open spec fn option_view(r: Option<RoomAndPos>) -> Option<State> {
    match r {
        Some(p) => Some(p@),
        None => None,
    }
}

} // verus!
