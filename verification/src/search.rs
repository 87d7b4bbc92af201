//! The search: from the first control panel that the player comes to on
//! entering the grid, it tries the operations in their order, goes on from
//! every state it has not been in with as many gates, comes back when nothing
//! is left to try, and stops as soon as no entrance is missing.

use vstd::prelude::*;
use crate::chain::{
    chain, find_panel, first_where, is_panel, lemma_first_where, scan_chain, spec_find_panel,
};
use crate::entrances::EntranceSet;
use crate::gates::OpenedGates;
use crate::grid::Direction;
use crate::ledger::{
    lemma_begin, lemma_descend, lemma_exhausted, lemma_first_look, lemma_look, lemma_pop,
    lemma_prune, search_inv, Pending,
};
use crate::memo::MemoTable;
use crate::progress::{lemma_apply_valid, lemma_chain_tiles, seen_from, solvable};
use crate::rooms::{lemma_entrance_round_trip, Entrance, Room};
use crate::state::{is_valid_grid, valid_grid, Operations, RoomAndPos, State};

verus! {

/// Why a grid cannot even be entered.
#[derive(Debug, Clone, Copy, PartialEq, Eq, Hash, Structural)]
pub enum Failure {
    /// The room on the tile of entry has no entrance on the side of entry.
    NoEntrance,
    /// The walk from the point of entry comes by no control panel.
    NoControlPanel,
}

/// What there is to say of a grid.
#[derive(Debug, Clone, Copy, PartialEq, Eq, Hash, Structural)]
pub enum SolveResult {
    /// The player can come by every entrance.
    Solvable,
    /// The player cannot come by every entrance.
    Unsolvable,
    /// The player cannot enter the grid, or comes to no control panel.
    StructuralFailure(Failure),
}

/// The tile by which the player enters the grid.
pub open spec fn spec_entry_tile() -> u8 {
    7
}

/// The side of that tile at which the player enters.
pub open spec fn spec_entry_direction() -> Direction {
    Direction::Down
}

/// Where the search starts: at the first control panel on the walk from the
/// point of entry with no gate opened, at the side of its entrance. Or why
/// there is no such place.
pub open spec fn spec_entry(grid: Seq<Room>) -> Result<State, Failure> {
    if Entrance::spec_from_room_direction(
        grid[spec_entry_tile() as int],
        spec_entry_direction(),
    ) is None {
        Err(Failure::NoEntrance)
    } else {
        match spec_find_panel(grid, Set::empty(), spec_entry_tile(), spec_entry_direction()) {
            Some(v) => Ok(State { grid, tile: v.1, direction: v.0.direction() }),
            None => Err(Failure::NoControlPanel),
        }
    }
}

/// What there is to say of a grid as the game knows it.
pub open spec fn verdict(grid: Seq<Room>) -> SolveResult {
    match spec_entry(grid) {
        Err(why) => SolveResult::StructuralFailure(why),
        Ok(start) => if solvable(start) {
            SolveResult::Solvable
        } else {
            SolveResult::Unsolvable
        },
    }
}

/// The state that a result of `entry` stands for.
pub open spec fn entry_view(r: Result<RoomAndPos, Failure>) -> Result<State, Failure> {
    match r {
        Ok(p) => Ok(p@),
        Err(why) => Err(why),
    }
}

/// On a grid as the game knows it the search starts at a control panel.
pub proof fn lemma_entry(grid: Seq<Room>)
    requires
        valid_grid(grid),
    ensures
        spec_entry(grid) matches Ok(start) ==> start.at_panel(),
{
    if spec_entry(grid) is Ok {
        let c = chain(grid, Set::empty(), spec_entry_tile(), spec_entry_direction());
        lemma_first_where(c, is_panel());
        lemma_chain_tiles(grid, Set::empty(), spec_entry_tile(), spec_entry_direction());
        let v = first_where(c, is_panel())->0;
        let i = choose|i: int| 0 <= i < c.len() && c[i] == v;
        assert(c[i].1 < 9);
        lemma_entrance_round_trip(v.0, Room::Empty, Direction::Up);
    }
}

impl Failure {
    /// The failure in words.
    pub fn message(&self) -> (r: &'static str)
        ensures
            r@ == match self {
                Failure::NoEntrance => "no entrance at fixed entry point"@,
                Failure::NoControlPanel => "no control panel reachable from entry"@,
            },
    {
        match self {
            Failure::NoEntrance => "no entrance at fixed entry point",
            Failure::NoControlPanel => "no control panel reachable from entry",
        }
    }
}

/// A state that the search has left and will come back to, and the place in
/// the order of trying of the operation that led on from it.
#[derive(Debug, Clone, Copy)]
struct Frame {
    place: RoomAndPos,
    cursor: u8,
}

/// Finds the place from which the search starts.
pub fn entry(rooms: &[Room; 9]) -> (r: Result<RoomAndPos, Failure>)
    ensures
        entry_view(r) == spec_entry(rooms@),
{
    if Entrance::from_room_direction(rooms[7], Direction::Down).is_none() {
        return Err(Failure::NoEntrance);
    }
    match find_panel(rooms, OpenedGates::empty(), 7, Direction::Down) {
        Some((panel, tile)) => Ok(RoomAndPos::new(*rooms, tile, panel.to_room_direction().1)),
        None => Err(Failure::NoControlPanel),
    }
}

/// Searches from a state in which the player stands at a control panel, with
/// no gate opened, and says whether he can come by every entrance.
pub fn search(start: RoomAndPos) -> (r: bool)
    requires
        start@.at_panel(),
    ensures
        r == solvable(start@),
{
    let mut memo = MemoTable::new();
    let mut missing = EntranceSet::full();
    let (seen, opened) = scan_chain(
        start.rooms(),
        OpenedGates::empty(),
        start.pos_tile(),
        start.pos_direction(),
    );
    missing.remove_all(seen);
    if missing.is_empty() {
        proof {
            lemma_first_look(start@);
        }
        return true;
    }
    memo.insert(&start, opened);
    let mut cur = start;
    let mut gates = opened;
    let mut cursor: u8 = 0;
    let mut stack: Vec<Frame> = Vec::new();
    let ghost mut frames: Seq<Pending> = Seq::empty();
    proof {
        let e = choose|e: Entrance| missing@.contains(e);
        assert(Set::<Entrance>::full().difference(seen_from(start@, Set::empty())).contains(e));
        lemma_begin(start@);
    }
    loop
        invariant
            memo.wf(),
            missing.wf(),
            gates.wf(),
            cursor <= 8,
            search_inv(start@, memo@, missing@, frames, cur@, gates@, cursor as int),
            frames.len() == stack.len(),
            forall|i: int|
                0 <= i < stack.len() ==> (#[trigger] stack[i]).place@ == frames[i].state
                    && stack[i].cursor == frames[i].cursor,
        decreases memo.room_left(), stack.len(), 8 - cursor,
    {
        if cursor < 8 {
            let op = match Operations::from_index(cursor) {
                Some(op) => op,
                None => Operations::MoveRight,
            };
            match cur.apply(op, gates) {
                None => {
                    cursor = cursor + 1;
                },
                Some(next) => {
                    // look around from the new state with the gates brought along
                    proof {
                        lemma_apply_valid(op, cur@, gates@);
                        lemma_look(start@, memo@, missing@, cur@, gates@, op);
                    }
                    let ghost missing_before = missing@;
                    let (seen, opened) = scan_chain(
                        next.rooms(),
                        gates,
                        next.pos_tile(),
                        next.pos_direction(),
                    );
                    missing.remove_all(seen);
                    if missing.is_empty() {
                        return true;
                    }
                    let brought = gates.union(opened);
                    let had = memo.get(&next);
                    let pruned = match had {
                        Some(g) => g.contains(brought),
                        None => false,
                    };
                    if pruned {
                        // been there with as many gates: nothing new to try
                        proof {
                            lemma_prune(
                                start@,
                                memo@,
                                missing_before,
                                frames,
                                cur@,
                                gates@,
                                cursor as int,
                                missing@,
                            );
                        }
                        cursor = cursor + 1;
                    } else {
                        // note the state and go on from it, first operation first
                        let noted = match had {
                            Some(g) => g.union(brought),
                            None => brought,
                        };
                        proof {
                            lemma_descend(
                                start@,
                                memo@,
                                missing_before,
                                frames,
                                cur@,
                                gates@,
                                cursor as int,
                                next@,
                                noted@,
                                missing@,
                            );
                            frames = frames.push(
                                Pending { state: cur@, cursor: cursor as int, gates: gates@ },
                            );
                        }
                        memo.insert(&next, noted);
                        stack.push(Frame { place: cur, cursor });
                        cur = next;
                        gates = noted;
                        cursor = 0;
                    }
                },
            }
        } else {
            // every operation tried: back to the state left last
            match stack.pop() {
                None => {
                    proof {
                        lemma_exhausted(start@, memo@, missing@, cur@, gates@);
                    }
                    return false;
                },
                Some(frame) => {
                    proof {
                        lemma_pop(start@, memo@, missing@, frames, cur@, gates@);
                        frames = frames.drop_last();
                    }
                    cur = frame.place;
                    gates = match memo.get(&cur) {
                        Some(g) => g,
                        None => OpenedGates::empty(),
                    };
                    cursor = frame.cursor + 1;
                },
            }
        }
    }
}

/// Says of a grid as the game knows it whether the player can come by every
/// entrance, or why he cannot even start.
pub fn evaluate(rooms: &[Room; 9]) -> (r: SolveResult)
    requires
        valid_grid(rooms@),
    ensures
        r == verdict(rooms@),
{
    match entry(rooms) {
        Err(why) => SolveResult::StructuralFailure(why),
        Ok(start) => {
            proof {
                lemma_entry(rooms@);
            }
            if search(start) {
                SolveResult::Solvable
            } else {
                SolveResult::Unsolvable
            }
        },
    }
}

/// Says the same of any nine rooms, and nothing where they are no grid as
/// the game knows it: where a room stands twice or the blank slot is not
/// there.
pub fn evaluate_checked(rooms: &[Room; 9]) -> (r: Option<SolveResult>)
    ensures
        r == if valid_grid(rooms@) {
            Some(verdict(rooms@))
        } else {
            None
        },
{
    if is_valid_grid(rooms) {
        Some(evaluate(rooms))
    } else {
        None
    }
}

} // verus!
