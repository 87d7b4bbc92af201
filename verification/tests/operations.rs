use skykeep::gates::OpenedGates;
use skykeep::grid::Direction;
use skykeep::memo::MemoTable;
use skykeep::rooms::{PuzzleMover, Room};
use skykeep::state::{find_empty, is_valid_grid, OperationKind, Operations, RoomAndPos, UniqueState};

fn grid(ix: [u8; 9]) -> [Room; 9] {
    ix.map(|i| Room::from_index(i).unwrap())
}

// MiniBoss       AncientCistern         EarthTemple
// FireSanctuary  LanayruMiningFacility  Empty
// Sandship       Start                  Skyview
fn sample() -> [Room; 9] {
    grid([4, 5, 2, 6, 3, 8, 7, 0, 1])
}

fn all_operations() -> Vec<Operations> {
    (0u8..8).map(|i| Operations::from_index(i).unwrap()).collect()
}

#[test]
fn operations_come_in_their_order() {
    assert_eq!(
        all_operations(),
        vec![
            Operations::ReachMoverStart,
            Operations::ReachMoverLanayruMiningFacility,
            Operations::ReachMoverEarthTemple,
            Operations::ReachMoverMiniBoss,
            Operations::MoveUp,
            Operations::MoveLeft,
            Operations::MoveDown,
            Operations::MoveRight,
        ]
    );
    assert_eq!(Operations::from_index(8), None);
    for (i, op) in all_operations().into_iter().enumerate() {
        assert_eq!(op.index() as usize, i);
    }
    assert_eq!(Operations::ReachMoverStart.kind(), OperationKind::Reach(PuzzleMover::Start));
    assert_eq!(
        Operations::ReachMoverLanayruMiningFacility.kind(),
        OperationKind::Reach(PuzzleMover::LanayruMiningFacility)
    );
    assert_eq!(Operations::ReachMoverEarthTemple.kind(), OperationKind::Reach(PuzzleMover::EarthTemple));
    assert_eq!(Operations::ReachMoverMiniBoss.kind(), OperationKind::Reach(PuzzleMover::MiniBoss));
    assert_eq!(Operations::MoveUp.kind(), OperationKind::Move(Direction::Up));
    assert_eq!(Operations::MoveLeft.kind(), OperationKind::Move(Direction::Left));
    assert_eq!(Operations::MoveDown.kind(), OperationKind::Move(Direction::Down));
    assert_eq!(Operations::MoveRight.kind(), OperationKind::Move(Direction::Right));
}

#[test]
fn valid_grids_hold_every_room_once() {
    assert!(is_valid_grid(&grid([0, 1, 2, 3, 4, 5, 6, 7, 8])));
    assert!(is_valid_grid(&sample()));
    assert!(is_valid_grid(&grid([8, 7, 6, 5, 4, 3, 2, 1, 0])));
}

#[test]
fn a_room_twice_is_no_grid() {
    assert!(!is_valid_grid(&grid([0, 1, 2, 3, 4, 5, 6, 7, 7])));
    assert!(!is_valid_grid(&grid([0, 0, 2, 3, 4, 5, 6, 7, 8])));
    assert!(!is_valid_grid(&grid([8, 1, 2, 3, 4, 5, 6, 7, 8])));
    assert!(!is_valid_grid(&grid([0, 1, 2, 3, 4, 5, 6, 0, 8])));
    assert!(!is_valid_grid(&[Room::Empty; 9]));
}

#[test]
fn find_empty_gives_the_first_blank_slot() {
    assert_eq!(find_empty(&sample()), Some(5));
    assert_eq!(find_empty(&grid([8, 1, 2, 3, 4, 5, 6, 7, 0])), Some(0));
    assert_eq!(find_empty(&grid([0, 1, 2, 3, 4, 5, 6, 7, 8])), Some(8));
    assert_eq!(find_empty(&grid([0, 1, 2, 8, 4, 5, 8, 7, 8])), Some(3));
    assert_eq!(find_empty(&grid([0, 1, 2, 3, 4, 5, 6, 7, 7])), None);
}

#[test]
fn sliding_swaps_the_blank_slot_with_its_neighbour() {
    let at = RoomAndPos::new(sample(), 7, Direction::Right);
    let up = at.slide(Direction::Up).unwrap();
    assert_eq!(*up.rooms(), grid([4, 5, 8, 6, 3, 2, 7, 0, 1]));
    assert_eq!((up.pos_tile(), up.pos_direction()), (7, Direction::Right));
    let left = at.slide(Direction::Left).unwrap();
    assert_eq!(*left.rooms(), grid([4, 5, 2, 6, 8, 3, 7, 0, 1]));
    let down = at.slide(Direction::Down).unwrap();
    assert_eq!(*down.rooms(), grid([4, 5, 2, 6, 3, 1, 7, 0, 8]));
    assert_eq!(at.slide(Direction::Right), None);
}

#[test]
fn the_tile_under_the_player_does_not_slide() {
    let rooms = sample();
    assert_eq!(RoomAndPos::new(rooms, 2, Direction::Down).slide(Direction::Up), None);
    assert_eq!(RoomAndPos::new(rooms, 4, Direction::Down).slide(Direction::Left), None);
    assert_eq!(RoomAndPos::new(rooms, 8, Direction::Left).slide(Direction::Down), None);
    assert!(RoomAndPos::new(rooms, 8, Direction::Left).slide(Direction::Up).is_some());
}

#[test]
fn sliding_keeps_the_grid_valid() {
    let mut at = RoomAndPos::new(sample(), 7, Direction::Right);
    let steps = [Direction::Up, Direction::Left, Direction::Left, Direction::Down, Direction::Right, Direction::Up];
    for d in steps {
        if let Some(next) = at.slide(d) {
            at = next;
        }
        assert!(is_valid_grid(at.rooms()));
        assert_eq!(at.pos_tile(), 7);
        assert_eq!(at.rooms()[7], Room::Start);
    }
}

#[test]
fn reaching_a_panel_moves_the_player_to_it() {
    let rooms = sample();
    let at = RoomAndPos::new(rooms, 7, Direction::Right);
    let none = OpenedGates::empty();
    // the panel the player stands at
    assert_eq!(at.reach(none, PuzzleMover::Start), Some(at));
    assert_eq!(at.reach(none, PuzzleMover::LanayruMiningFacility), None);
    assert_eq!(at.reach(none, PuzzleMover::EarthTemple), None);
    assert_eq!(at.reach(none, PuzzleMover::MiniBoss), None);
    // from the mining facility the walk leads up into the cistern and ends at the temple's closed side
    let lmf = RoomAndPos::new(rooms, 4, Direction::Down);
    assert_eq!(lmf.reach(none, PuzzleMover::LanayruMiningFacility), Some(lmf));
    assert_eq!(lmf.reach(none, PuzzleMover::EarthTemple), None);
}

#[test]
fn reaching_takes_the_panel_side() {
    // EarthTemple    MiniBoss               AncientCistern
    // Sandship       Empty                  Start
    // FireSanctuary  LanayruMiningFacility  Skyview
    let rooms = grid([2, 4, 5, 7, 8, 0, 6, 3, 1]);
    let all = OpenedGates::from_bits(15).unwrap();
    // up through the facility lies the blank slot, and below it nothing
    let at = RoomAndPos::new(rooms, 7, Direction::Down);
    assert_eq!(at.reach(all, PuzzleMover::MiniBoss), None);
    let boss = RoomAndPos::new(rooms, 1, Direction::Left);
    assert_eq!(boss.reach(all, PuzzleMover::MiniBoss), Some(boss));
    // one tile to the left of the boss room stands the temple, entered from its right side
    assert_eq!(boss.reach(OpenedGates::empty(), PuzzleMover::EarthTemple), None);
    assert_eq!(boss.reach(OpenedGates::mini_boss(), PuzzleMover::EarthTemple), None);
    let found = boss.reach(OpenedGates::earth_temple(), PuzzleMover::EarthTemple).unwrap();
    assert_eq!((found.pos_tile(), found.pos_direction()), (0, Direction::Down));
    assert_eq!(*found.rooms(), rooms);
    assert_eq!(boss.reach(all, PuzzleMover::EarthTemple), Some(found));
}

#[test]
fn apply_does_what_the_operation_says() {
    let at = RoomAndPos::new(sample(), 7, Direction::Right);
    let none = OpenedGates::empty();
    assert_eq!(at.apply(Operations::ReachMoverStart, none), Some(at));
    assert_eq!(at.apply(Operations::ReachMoverLanayruMiningFacility, none), None);
    assert_eq!(at.apply(Operations::ReachMoverEarthTemple, none), None);
    assert_eq!(at.apply(Operations::ReachMoverMiniBoss, none), None);
    assert_eq!(
        at.apply(Operations::MoveUp, none),
        Some(RoomAndPos::new(grid([4, 5, 8, 6, 3, 2, 7, 0, 1]), 7, Direction::Right))
    );
    assert_eq!(
        at.apply(Operations::MoveLeft, none),
        Some(RoomAndPos::new(grid([4, 5, 2, 6, 8, 3, 7, 0, 1]), 7, Direction::Right))
    );
    assert_eq!(
        at.apply(Operations::MoveDown, none),
        Some(RoomAndPos::new(grid([4, 5, 2, 6, 3, 1, 7, 0, 8]), 7, Direction::Right))
    );
    assert_eq!(at.apply(Operations::MoveRight, none), None);
}

#[test]
fn more_gates_take_no_operation_away() {
    let at = RoomAndPos::new(sample(), 7, Direction::Right);
    for op in all_operations() {
        for g1 in 0u8..16 {
            for g2 in 0u8..16 {
                if g1 & g2 == g1 {
                    let before = at.apply(op, OpenedGates::from_bits(g1).unwrap());
                    if before.is_some() {
                        assert_eq!(at.apply(op, OpenedGates::from_bits(g2).unwrap()), before);
                    }
                }
            }
        }
    }
}

#[test]
fn unique_state_keeps_place_and_gates() {
    let place = RoomAndPos::new(sample(), 7, Direction::Right);
    let gates = OpenedGates::starting().union(OpenedGates::fire_sanctuary());
    let u = UniqueState::new(place, gates);
    assert_eq!(u.room_and_pos(), place);
    assert_eq!(u.gates(), gates);
}

#[test]
fn the_table_keeps_gates_by_state() {
    let mut memo = MemoTable::new();
    let a = RoomAndPos::new(sample(), 7, Direction::Right);
    let b = RoomAndPos::new(sample(), 7, Direction::Down);
    let c = RoomAndPos::new(sample(), 4, Direction::Right);
    let d = RoomAndPos::new(grid([4, 5, 8, 6, 3, 2, 7, 0, 1]), 7, Direction::Right);
    assert_eq!(memo.get(&a), None);
    memo.insert(&a, OpenedGates::starting());
    assert_eq!(memo.get(&a), Some(OpenedGates::starting()));
    assert_eq!(memo.get(&b), None);
    assert_eq!(memo.get(&c), None);
    assert_eq!(memo.get(&d), None);
    memo.insert(&b, OpenedGates::mini_boss());
    memo.insert(&c, OpenedGates::empty());
    memo.insert(&d, OpenedGates::from_bits(15).unwrap());
    memo.insert(&a, OpenedGates::from_bits(3).unwrap());
    assert_eq!(memo.get(&a), OpenedGates::from_bits(3));
    assert_eq!(memo.get(&b), Some(OpenedGates::mini_boss()));
    assert_eq!(memo.get(&c), Some(OpenedGates::empty()));
    assert_eq!(memo.get(&d), OpenedGates::from_bits(15));
}

#[test]
fn the_table_tells_all_grids_apart() {
    let mut memo = MemoTable::new();
    let base = [0u8, 1, 2, 3, 4, 5, 6, 7, 8];
    let mut n: u8 = 0;
    let mut places = Vec::new();
    for i in 0..9 {
        for j in (i + 1)..9 {
            let mut ix = base;
            ix.swap(i, j);
            for tile in [0u8, 8] {
                for d in [Direction::Up, Direction::Left, Direction::Down, Direction::Right] {
                    let place = RoomAndPos::new(grid(ix), tile, d);
                    assert_eq!(memo.get(&place), None);
                    memo.insert(&place, OpenedGates::from_bits(n % 16).unwrap());
                    places.push((place, n % 16));
                    n = n.wrapping_add(1);
                }
            }
        }
    }
    assert_eq!(places.len(), 288);
    for (place, bits) in places {
        assert_eq!(memo.get(&place), OpenedGates::from_bits(bits));
    }
}
