use std::cell::RefCell;

use skykeep::chain::{
    chain_step, find_entrance, find_panel, follow_chain, follow_chain_both, scan_chain, ChainStep,
};
use skykeep::entrances::EntranceSet;
use skykeep::gates::OpenedGates;
use skykeep::grid::Direction;
use skykeep::rooms::{Entrance, Room};

fn grid(ix: [u8; 9]) -> [Room; 9] {
    ix.map(|i| Room::from_index(i).unwrap())
}

// MiniBoss       AncientCistern         EarthTemple
// FireSanctuary  LanayruMiningFacility  Empty
// Sandship       Start                  Skyview
fn sample() -> [Room; 9] {
    grid([4, 5, 2, 6, 3, 8, 7, 0, 1])
}

fn all_gates() -> OpenedGates {
    OpenedGates::from_bits(15).unwrap()
}

fn walk(rooms: &[Room; 9], gates: OpenedGates, tile: u8, direction: Direction) -> Vec<(Entrance, u8)> {
    let visits = RefCell::new(Vec::new());
    let check = |e: Entrance, t: u8| -> Option<()> {
        visits.borrow_mut().push((e, t));
        None
    };
    assert_eq!(follow_chain(rooms, gates, tile, direction, &check), None);
    visits.into_inner()
}

#[test]
fn a_walk_goes_from_room_to_room() {
    let rooms = sample();
    assert_eq!(
        walk(&rooms, OpenedGates::empty(), 7, Direction::Down),
        vec![
            (Entrance::StartDown, 7),
            (Entrance::StartRight, 7),
            (Entrance::SkyviewLeft, 8),
            (Entrance::SkyviewUp, 8)
        ]
    );
    assert_eq!(
        walk(&rooms, OpenedGates::empty(), 4, Direction::Down),
        vec![
            (Entrance::LanayruMiningFacilityDown, 4),
            (Entrance::LanayruMiningFacilityUp, 4),
            (Entrance::AncientCisternDown, 1),
            (Entrance::AncientCisternRight, 1)
        ]
    );
}

#[test]
fn a_walk_ends_at_a_locked_link() {
    let rooms = sample();
    assert_eq!(walk(&rooms, OpenedGates::empty(), 7, Direction::Right), vec![(Entrance::StartRight, 7)]);
    assert_eq!(walk(&rooms, OpenedGates::empty(), 0, Direction::Left), vec![(Entrance::MiniBossLeft, 0)]);
    assert_eq!(
        walk(&rooms, OpenedGates::starting(), 7, Direction::Right),
        vec![(Entrance::StartRight, 7), (Entrance::StartDown, 7)]
    );
    assert_eq!(
        walk(&rooms, all_gates(), 0, Direction::Left),
        vec![(Entrance::MiniBossLeft, 0), (Entrance::MiniBossDown, 0)]
    );
}

#[test]
fn a_walk_ends_where_the_room_has_no_entrance() {
    let rooms = sample();
    assert_eq!(walk(&rooms, all_gates(), 5, Direction::Left), vec![]);
    assert_eq!(walk(&rooms, all_gates(), 6, Direction::Down), vec![]);
    assert_eq!(walk(&rooms, all_gates(), 6, Direction::Left), vec![(Entrance::SandshipLeft, 6)]);
    assert_eq!(
        walk(&rooms, all_gates(), 2, Direction::Down),
        vec![(Entrance::EarthTempleDown, 2), (Entrance::EarthTempleRight, 2)]
    );
}

#[test]
fn chain_step_tells_the_four_ways_apart() {
    let rooms = sample();
    let none = OpenedGates::empty();
    assert_eq!(chain_step(&rooms, none, 5, Direction::Up), ChainStep::End);
    assert_eq!(chain_step(&rooms, none, 7, Direction::Right), ChainStep::Single(Entrance::StartRight));
    assert_eq!(
        chain_step(&rooms, none, 2, Direction::Down),
        ChainStep::Double(Entrance::EarthTempleDown, Entrance::EarthTempleRight)
    );
    assert_eq!(
        chain_step(&rooms, none, 7, Direction::Down),
        ChainStep::Onward(Entrance::StartDown, Entrance::StartRight, 8, Direction::Left)
    );
}

#[test]
fn follow_chain_stops_at_the_first_answer() {
    let rooms = sample();
    let calls = RefCell::new(0);
    let check = |e: Entrance, t: u8| {
        *calls.borrow_mut() += 1;
        if e == Entrance::StartRight {
            Some((e, t, 42))
        } else {
            None
        }
    };
    assert_eq!(
        follow_chain(&rooms, OpenedGates::empty(), 7, Direction::Down, &check),
        Some((Entrance::StartRight, 7, 42))
    );
    assert_eq!(*calls.borrow(), 2);
}

#[test]
fn follow_chain_both_tries_the_tile_ahead() {
    let rooms = sample();
    let want = |target: Entrance| move |e: Entrance, t: u8| if e == target { Some(t) } else { None };
    // the blank slot has no entrance; the walk from the tile above it does
    assert_eq!(
        follow_chain(&rooms, OpenedGates::empty(), 5, Direction::Up, &want(Entrance::EarthTempleRight)),
        None
    );
    assert_eq!(
        follow_chain_both(&rooms, OpenedGates::empty(), 5, Direction::Up, &want(Entrance::EarthTempleRight)),
        Some(2)
    );
    // the direct walk comes first
    assert_eq!(
        follow_chain_both(&rooms, OpenedGates::empty(), 7, Direction::Down, &want(Entrance::SkyviewUp)),
        Some(8)
    );
    // no tile ahead at the border
    assert_eq!(
        follow_chain_both(&rooms, OpenedGates::empty(), 6, Direction::Down, &want(Entrance::SandshipLeft)),
        None
    );
}

#[test]
fn find_entrance_gives_the_tile() {
    let rooms = sample();
    let none = OpenedGates::empty();
    assert_eq!(find_entrance(&rooms, none, 7, Direction::Right, Entrance::StartRight), Some(7));
    assert_eq!(find_entrance(&rooms, none, 7, Direction::Right, Entrance::StartDown), None);
    assert_eq!(find_entrance(&rooms, OpenedGates::starting(), 7, Direction::Right, Entrance::StartDown), Some(7));
    // one tile further to the right of the start stands the sky view
    assert_eq!(find_entrance(&rooms, none, 7, Direction::Right, Entrance::SkyviewUp), Some(8));
    assert_eq!(find_entrance(&rooms, none, 7, Direction::Right, Entrance::MiniBossLeft), None);
    assert_eq!(find_entrance(&rooms, none, 4, Direction::Down, Entrance::AncientCisternRight), Some(1));
}

#[test]
fn find_panel_gives_the_first_panel() {
    let rooms = sample();
    let none = OpenedGates::empty();
    assert_eq!(find_panel(&rooms, none, 7, Direction::Down), Some((Entrance::StartRight, 7)));
    assert_eq!(find_panel(&rooms, none, 4, Direction::Down), Some((Entrance::LanayruMiningFacilityDown, 4)));
    assert_eq!(find_panel(&rooms, none, 8, Direction::Left), None);
    assert_eq!(find_panel(&rooms, none, 5, Direction::Down), None);
    assert_eq!(find_panel(&rooms, none, 2, Direction::Right), None);
    assert_eq!(find_panel(&rooms, OpenedGates::earth_temple(), 2, Direction::Right), Some((Entrance::EarthTempleDown, 2)));
}

fn set_of(entrances: &[Entrance]) -> EntranceSet {
    let mut s = EntranceSet::empty();
    for e in entrances {
        s.insert(*e);
    }
    s
}

#[test]
fn scan_chain_collects_entrances_and_gates() {
    let rooms = sample();
    let (seen, opened) = scan_chain(&rooms, OpenedGates::empty(), 7, Direction::Down);
    assert_eq!(
        seen,
        set_of(&[Entrance::StartDown, Entrance::StartRight, Entrance::SkyviewLeft, Entrance::SkyviewUp])
    );
    assert_eq!(opened, OpenedGates::starting());

    let (seen, opened) = scan_chain(&rooms, OpenedGates::empty(), 7, Direction::Right);
    assert_eq!(seen, set_of(&[Entrance::StartRight]));
    assert_eq!(opened, OpenedGates::empty());

    let (seen, opened) = scan_chain(&rooms, OpenedGates::empty(), 2, Direction::Down);
    assert_eq!(seen, set_of(&[Entrance::EarthTempleDown, Entrance::EarthTempleRight]));
    assert_eq!(opened, OpenedGates::earth_temple());

    let (seen, opened) = scan_chain(&rooms, OpenedGates::empty(), 5, Direction::Down);
    assert_eq!(seen, EntranceSet::empty());
    assert_eq!(opened, OpenedGates::empty());
}

#[test]
fn scan_chain_walks_by_the_gates_it_was_given() {
    let rooms = sample();
    // the walk opens the mini boss gate only after it has passed the locked link
    let (seen, opened) = scan_chain(&rooms, OpenedGates::empty(), 0, Direction::Left);
    assert_eq!(seen, set_of(&[Entrance::MiniBossLeft]));
    assert_eq!(opened, OpenedGates::empty());
    let (seen, opened) = scan_chain(&rooms, OpenedGates::mini_boss(), 0, Direction::Left);
    assert_eq!(seen, set_of(&[Entrance::MiniBossLeft, Entrance::MiniBossDown]));
    assert_eq!(opened, OpenedGates::mini_boss());
}

#[test]
fn more_gates_lengthen_a_walk() {
    let rooms = sample();
    for tile in 0u8..9 {
        for d in [Direction::Up, Direction::Left, Direction::Down, Direction::Right] {
            for g1 in 0u8..16 {
                for g2 in 0u8..16 {
                    if g1 & g2 == g1 {
                        let a = walk(&rooms, OpenedGates::from_bits(g1).unwrap(), tile, d);
                        let b = walk(&rooms, OpenedGates::from_bits(g2).unwrap(), tile, d);
                        assert!(a.len() <= b.len());
                        assert_eq!(a[..], b[..a.len()]);
                    }
                }
            }
        }
    }
}

#[test]
fn entrance_sets() {
    let mut s = EntranceSet::empty();
    assert!(s.is_empty());
    s.insert(Entrance::SandshipLeft);
    s.insert(Entrance::StartDown);
    s.insert(Entrance::StartDown);
    assert!(!s.is_empty());
    assert!(s.contains(Entrance::SandshipLeft));
    assert!(s.contains(Entrance::StartDown));
    assert!(!s.contains(Entrance::StartRight));
    let full = EntranceSet::full();
    for i in 0u8..15 {
        assert!(full.contains(Entrance::from_index(i).unwrap()));
    }
    let mut rest = full;
    rest.remove_all(s);
    assert!(!rest.contains(Entrance::SandshipLeft));
    assert!(!rest.contains(Entrance::StartDown));
    assert!(rest.contains(Entrance::StartRight));
    assert_eq!(rest.union(s), full);
    rest.remove_all(full);
    assert!(rest.is_empty());
    assert_eq!(rest, EntranceSet::empty());
}
