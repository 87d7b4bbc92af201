use std::collections::HashMap;

use skykeep::chain::scan_chain;
use skykeep::entrances::EntranceSet;
use skykeep::gates::OpenedGates;
use skykeep::grid::Direction;
use skykeep::rooms::Room;
use skykeep::search::{entry, evaluate, evaluate_checked, search, Failure, SolveResult};
use skykeep::state::{Operations, RoomAndPos};

fn grid(ix: [u8; 9]) -> [Room; 9] {
    ix.map(|i| Room::from_index(i).unwrap())
}

const SOLVABLE: [[u8; 9]; 4] = [
    [4, 5, 2, 6, 3, 8, 7, 0, 1],
    [2, 4, 5, 7, 8, 0, 6, 3, 1],
    [3, 5, 4, 8, 6, 0, 7, 2, 1],
    [4, 6, 8, 0, 2, 5, 1, 3, 7],
];

const UNSOLVABLE: [[u8; 9]; 5] = [
    [1, 2, 5, 7, 8, 6, 4, 0, 3],
    [1, 2, 7, 0, 8, 5, 3, 4, 6],
    [7, 3, 6, 0, 1, 5, 2, 4, 8],
    [4, 3, 0, 1, 8, 5, 6, 2, 7],
    [1, 7, 4, 6, 8, 0, 5, 2, 3],
];

#[test]
fn the_identity_grid_cannot_be_entered() {
    let rooms = [
        Room::Start,
        Room::Skyview,
        Room::EarthTemple,
        Room::LanayruMiningFacility,
        Room::MiniBoss,
        Room::AncientCistern,
        Room::FireSanctuary,
        Room::Sandship,
        Room::Empty,
    ];
    assert_eq!(evaluate(&rooms), SolveResult::StructuralFailure(Failure::NoEntrance));
    assert_eq!(entry(&rooms), Err(Failure::NoEntrance));
    assert_eq!(Failure::NoEntrance.message(), "no entrance at fixed entry point");
}

#[test]
fn a_grid_without_a_panel_on_the_way_in() {
    for ix in [[6u8, 8, 4, 1, 2, 0, 7, 5, 3], [0, 1, 3, 6, 4, 2, 8, 5, 7], [1, 8, 2, 6, 7, 4, 3, 5, 0]] {
        let rooms = grid(ix);
        assert_eq!(evaluate(&rooms), SolveResult::StructuralFailure(Failure::NoControlPanel));
        assert_eq!(entry(&rooms), Err(Failure::NoControlPanel));
    }
    assert_eq!(Failure::NoControlPanel.message(), "no control panel reachable from entry");
}

#[test]
fn the_search_starts_at_the_first_panel() {
    assert_eq!(
        entry(&grid([4, 5, 2, 6, 3, 8, 7, 0, 1])),
        Ok(RoomAndPos::new(grid([4, 5, 2, 6, 3, 8, 7, 0, 1]), 7, Direction::Right))
    );
    assert_eq!(
        entry(&grid([2, 4, 5, 7, 8, 0, 6, 3, 1])),
        Ok(RoomAndPos::new(grid([2, 4, 5, 7, 8, 0, 6, 3, 1]), 7, Direction::Down))
    );
    assert_eq!(
        entry(&grid([3, 5, 4, 8, 6, 0, 7, 2, 1])),
        Ok(RoomAndPos::new(grid([3, 5, 4, 8, 6, 0, 7, 2, 1]), 7, Direction::Down))
    );
    assert_eq!(
        entry(&grid([1, 2, 7, 0, 8, 5, 3, 4, 6])),
        Ok(RoomAndPos::new(grid([1, 2, 7, 0, 8, 5, 3, 4, 6]), 7, Direction::Left))
    );
}

#[test]
fn a_grid_with_the_start_on_the_tile_of_entry_is_solvable() {
    // MiniBoss       AncientCistern         EarthTemple
    // FireSanctuary  LanayruMiningFacility  Empty
    // Sandship       Start                  Skyview
    let rooms = grid([4, 5, 2, 6, 3, 8, 7, 0, 1]);
    assert_eq!(rooms[7], Room::Start);
    assert_eq!(evaluate(&rooms), SolveResult::Solvable);
}

#[test]
fn solvable_grids() {
    for ix in SOLVABLE {
        assert_eq!(evaluate(&grid(ix)), SolveResult::Solvable);
    }
}

#[test]
fn unsolvable_grids() {
    for ix in UNSOLVABLE {
        assert_eq!(evaluate(&grid(ix)), SolveResult::Unsolvable);
    }
}

#[test]
fn a_grid_on_which_the_player_never_leaves_the_first_panel() {
    // Skyview   EarthTemple  AncientCistern
    // Sandship  Empty        FireSanctuary
    // MiniBoss  Start        LanayruMiningFacility
    let rooms = grid([1, 2, 5, 7, 8, 6, 4, 0, 3]);
    assert_eq!(rooms[3], Room::Sandship);
    assert_eq!(evaluate(&rooms), SolveResult::Unsolvable);
}

#[test]
fn a_grid_on_which_the_sandship_is_found_and_others_are_not() {
    // MiniBoss  LanayruMiningFacility  Start
    // Skyview   Empty                  AncientCistern
    // FireSanctuary  EarthTemple       Sandship
    let rooms = grid([4, 3, 0, 1, 8, 5, 6, 2, 7]);
    assert_eq!(rooms[8], Room::Sandship);
    assert_eq!(
        entry(&rooms),
        Ok(RoomAndPos::new(rooms, 7, Direction::Down))
    );
    assert_eq!(evaluate(&rooms), SolveResult::Unsolvable);
}

#[test]
fn search_agrees_with_evaluate() {
    for ix in SOLVABLE {
        assert!(search(entry(&grid(ix)).unwrap()));
    }
    for ix in UNSOLVABLE {
        assert!(!search(entry(&grid(ix)).unwrap()));
    }
}

#[test]
fn evaluate_gives_the_same_verdict_every_time() {
    for ix in SOLVABLE.iter().chain(UNSOLVABLE.iter()) {
        let rooms = grid(*ix);
        let first = evaluate(&rooms);
        for _ in 0..3 {
            assert_eq!(evaluate(&rooms), first);
        }
    }
    let identity = grid([0, 1, 2, 3, 4, 5, 6, 7, 8]);
    assert_eq!(evaluate(&identity), evaluate(&identity));
}

#[test]
fn what_is_no_grid_is_turned_away() {
    assert_eq!(evaluate_checked(&grid([0, 1, 2, 3, 4, 5, 6, 7, 7])), None);
    assert_eq!(evaluate_checked(&grid([4, 5, 2, 6, 3, 8, 7, 0, 0])), None);
    assert_eq!(evaluate_checked(&grid([8, 5, 2, 6, 3, 8, 7, 0, 1])), None);
    assert_eq!(evaluate_checked(&[Room::Start; 9]), None);
    assert_eq!(evaluate_checked(&[Room::Empty; 9]), None);
}

#[test]
fn a_grid_is_let_through() {
    assert_eq!(evaluate_checked(&grid([4, 5, 2, 6, 3, 8, 7, 0, 1])), Some(SolveResult::Solvable));
    assert_eq!(evaluate_checked(&grid([1, 2, 5, 7, 8, 6, 4, 0, 3])), Some(SolveResult::Unsolvable));
    assert_eq!(
        evaluate_checked(&grid([0, 1, 2, 3, 4, 5, 6, 7, 8])),
        Some(SolveResult::StructuralFailure(Failure::NoEntrance))
    );
    assert_eq!(
        evaluate_checked(&grid([6, 8, 4, 1, 2, 0, 7, 5, 3])),
        Some(SolveResult::StructuralFailure(Failure::NoControlPanel))
    );
}

fn look(at: &RoomAndPos, gates: OpenedGates) -> (EntranceSet, OpenedGates) {
    scan_chain(at.rooms(), gates, at.pos_tile(), at.pos_direction())
}

/// The least table that holds the start and is closed under the operations,
/// built without any order of trying and without giving anything up, and the
/// entrances that the walks from its states come by.
fn by_closure(start: RoomAndPos) -> bool {
    let mut table: HashMap<RoomAndPos, OpenedGates> = HashMap::new();
    table.insert(start, look(&start, OpenedGates::empty()).1);
    let mut work = vec![start];
    while let Some(at) = work.pop() {
        let gates = table[&at];
        for i in 0u8..8 {
            let op = Operations::from_index(i).unwrap();
            if let Some(next) = at.apply(op, gates) {
                let brought = gates.union(look(&next, gates).1);
                let noted = match table.get(&next) {
                    Some(had) if had.contains(brought) => continue,
                    Some(had) => had.union(brought),
                    None => brought,
                };
                table.insert(next, noted);
                work.push(next);
            }
        }
    }
    let mut missing = EntranceSet::full();
    for (at, gates) in table.iter() {
        missing.remove_all(look(at, *gates).0);
    }
    missing.is_empty()
}

#[test]
fn the_verdict_is_that_of_the_least_closed_table() {
    for ix in SOLVABLE.iter().chain(UNSOLVABLE.iter()) {
        let start = entry(&grid(*ix)).unwrap();
        assert_eq!(search(start), by_closure(start));
    }
}

/// Every sequence of at most `depth` operations from a state, with the
/// gates opened on the way and nothing remembered: whether one of them comes
/// by every entrance.
fn by_plain_walks(at: RoomAndPos, gates: OpenedGates, missing: EntranceSet, depth: u32) -> bool {
    let (seen, opened) = look(&at, gates);
    let mut missing = missing;
    missing.remove_all(seen);
    if missing.is_empty() {
        return true;
    }
    if depth == 0 {
        return false;
    }
    let gates = gates.union(opened);
    for i in 0u8..8 {
        let op = Operations::from_index(i).unwrap();
        if let Some(next) = at.apply(op, gates) {
            if by_plain_walks(next, gates, missing, depth - 1) {
                return true;
            }
        }
    }
    false
}

#[test]
fn remembering_loses_no_solution() {
    for ix in SOLVABLE.iter().chain(UNSOLVABLE.iter()) {
        let start = entry(&grid(*ix)).unwrap();
        let plain = by_plain_walks(start, OpenedGates::empty(), EntranceSet::full(), 5);
        if plain {
            assert!(search(start));
        }
        if !search(start) {
            assert!(!plain);
        }
    }
}

fn shuffled(seed: &mut u64) -> [u8; 9] {
    let mut ix = [0u8, 1, 2, 3, 4, 5, 6, 7, 8];
    for i in (1..9usize).rev() {
        *seed = seed.wrapping_mul(6364136223846793005).wrapping_add(1442695040888963407);
        let j = ((*seed >> 33) % (i as u64 + 1)) as usize;
        ix.swap(i, j);
    }
    ix
}

#[test]
fn the_verdict_is_that_of_the_least_closed_table_on_many_grids() {
    let mut seed = 2024u64;
    let mut searched = 0;
    let mut solvable = 0;
    for _ in 0..60 {
        let rooms = grid(shuffled(&mut seed));
        match entry(&rooms) {
            Ok(start) => {
                let expected = by_closure(start);
                assert_eq!(search(start), expected);
                assert_eq!(
                    evaluate_checked(&rooms),
                    Some(if expected { SolveResult::Solvable } else { SolveResult::Unsolvable })
                );
                searched += 1;
                if expected {
                    solvable += 1;
                }
            }
            Err(why) => {
                assert_eq!(evaluate_checked(&rooms), Some(SolveResult::StructuralFailure(why)));
            }
        }
    }
    assert!(searched > 10);
    assert!(solvable > 0 && solvable < searched);
}
