//! The rooms, their entrances, and the links inside each room.

use vstd::prelude::*;
use crate::gates::{Gate, OpenedGates};
use crate::grid::Direction;

verus! {

/// What a tile of the grid holds: one of eight rooms, or the blank slot that
/// lets the tiles slide.
#[derive(Debug, Clone, Copy, PartialEq, Eq, Hash, Structural)]
pub enum Room {
    Start,
    Skyview,
    EarthTemple,
    LanayruMiningFacility,
    MiniBoss,
    AncientCistern,
    FireSanctuary,
    Sandship,
    Empty,
}

/// A way into a room, on one of its sides. There are fifteen of them.
#[derive(Debug, Clone, Copy, PartialEq, Eq, Hash, Structural)]
pub enum Entrance {
    StartDown,
    StartRight,
    SkyviewLeft,
    SkyviewUp,
    EarthTempleRight,
    EarthTempleDown,
    LanayruMiningFacilityDown,
    LanayruMiningFacilityUp,
    MiniBossLeft,
    MiniBossDown,
    AncientCisternRight,
    AncientCisternDown,
    FireSanctuaryLeft,
    FireSanctuaryRight,
    SandshipLeft,
}

/// A room with a control panel. From one panel the player can have himself
/// taken to another that he could walk to.
#[derive(Debug, Clone, Copy, PartialEq, Eq, Hash, Structural)]
pub enum PuzzleMover {
    Start,
    LanayruMiningFacility,
    EarthTemple,
    MiniBoss,
}

impl Room {
    /// The room's place in the list of rooms, from 0 to 8.
    pub open spec fn spec_index(self) -> int {
        match self {
            Room::Start => 0,
            Room::Skyview => 1,
            Room::EarthTemple => 2,
            Room::LanayruMiningFacility => 3,
            Room::MiniBoss => 4,
            Room::AncientCistern => 5,
            Room::FireSanctuary => 6,
            Room::Sandship => 7,
            Room::Empty => 8,
        }
    }

    pub fn index(&self) -> (r: u8)
        ensures
            r == self.spec_index(),
            r < 9,
    {
        match self {
            Room::Start => 0,
            Room::Skyview => 1,
            Room::EarthTemple => 2,
            Room::LanayruMiningFacility => 3,
            Room::MiniBoss => 4,
            Room::AncientCistern => 5,
            Room::FireSanctuary => 6,
            Room::Sandship => 7,
            Room::Empty => 8,
        }
    }

    /// The room with the given place in the list, if there is one.
    pub fn from_index(i: u8) -> (r: Option<Room>)
        ensures
            i < 9 ==> r is Some && r->0.spec_index() == i,
            i >= 9 ==> r is None,
    {
        match i {
            0 => Some(Room::Start),
            1 => Some(Room::Skyview),
            2 => Some(Room::EarthTemple),
            3 => Some(Room::LanayruMiningFacility),
            4 => Some(Room::MiniBoss),
            5 => Some(Room::AncientCistern),
            6 => Some(Room::FireSanctuary),
            7 => Some(Room::Sandship),
            8 => Some(Room::Empty),
            _ => None,
        }
    }
}

impl Entrance {
    /// The room an entrance belongs to and the side of the room it is on.
    pub open spec fn spec_to_room_direction(&self) -> (Room, Direction) {
        match self {
            Entrance::StartDown => (Room::Start, Direction::Down),
            Entrance::StartRight => (Room::Start, Direction::Right),
            Entrance::SkyviewLeft => (Room::Skyview, Direction::Left),
            Entrance::SkyviewUp => (Room::Skyview, Direction::Up),
            Entrance::EarthTempleRight => (Room::EarthTemple, Direction::Right),
            Entrance::EarthTempleDown => (Room::EarthTemple, Direction::Down),
            Entrance::LanayruMiningFacilityDown => (Room::LanayruMiningFacility, Direction::Down),
            Entrance::LanayruMiningFacilityUp => (Room::LanayruMiningFacility, Direction::Up),
            Entrance::MiniBossLeft => (Room::MiniBoss, Direction::Left),
            Entrance::MiniBossDown => (Room::MiniBoss, Direction::Down),
            Entrance::AncientCisternRight => (Room::AncientCistern, Direction::Right),
            Entrance::AncientCisternDown => (Room::AncientCistern, Direction::Down),
            Entrance::FireSanctuaryLeft => (Room::FireSanctuary, Direction::Left),
            Entrance::FireSanctuaryRight => (Room::FireSanctuary, Direction::Right),
            Entrance::SandshipLeft => (Room::Sandship, Direction::Left),
        }
    }

    /// The room an entrance belongs to.
    pub open spec fn room(&self) -> Room {
        self.spec_to_room_direction().0
    }

    /// The side of its room an entrance is on.
    pub open spec fn direction(&self) -> Direction {
        self.spec_to_room_direction().1
    }

    /// The entrance of a room on a side, if the room has one there.
    pub open spec fn spec_from_room_direction(room: Room, direction: Direction) -> Option<
        Entrance,
    > {
        match (room, direction) {
            (Room::Start, Direction::Down) => Some(Entrance::StartDown),
            (Room::Start, Direction::Right) => Some(Entrance::StartRight),
            (Room::Skyview, Direction::Up) => Some(Entrance::SkyviewUp),
            (Room::Skyview, Direction::Left) => Some(Entrance::SkyviewLeft),
            (Room::EarthTemple, Direction::Down) => Some(Entrance::EarthTempleDown),
            (Room::EarthTemple, Direction::Right) => Some(Entrance::EarthTempleRight),
            (Room::LanayruMiningFacility, Direction::Up) => Some(Entrance::LanayruMiningFacilityUp),
            (Room::LanayruMiningFacility, Direction::Down) => Some(
                Entrance::LanayruMiningFacilityDown,
            ),
            (Room::MiniBoss, Direction::Left) => Some(Entrance::MiniBossLeft),
            (Room::MiniBoss, Direction::Down) => Some(Entrance::MiniBossDown),
            (Room::AncientCistern, Direction::Down) => Some(Entrance::AncientCisternDown),
            (Room::AncientCistern, Direction::Right) => Some(Entrance::AncientCisternRight),
            (Room::FireSanctuary, Direction::Left) => Some(Entrance::FireSanctuaryLeft),
            (Room::FireSanctuary, Direction::Right) => Some(Entrance::FireSanctuaryRight),
            (Room::Sandship, Direction::Left) => Some(Entrance::SandshipLeft),
            _ => None,
        }
    }

    /// The entrance at the other end of the link inside the room, whether the
    /// link is open or not. The sandship's entrance has none.
    pub open spec fn inner_link(&self) -> Option<Entrance> {
        match self {
            Entrance::StartDown => Some(Entrance::StartRight),
            Entrance::StartRight => Some(Entrance::StartDown),
            Entrance::SkyviewLeft => Some(Entrance::SkyviewUp),
            Entrance::SkyviewUp => Some(Entrance::SkyviewLeft),
            Entrance::EarthTempleRight => Some(Entrance::EarthTempleDown),
            Entrance::EarthTempleDown => Some(Entrance::EarthTempleRight),
            Entrance::LanayruMiningFacilityDown => Some(Entrance::LanayruMiningFacilityUp),
            Entrance::LanayruMiningFacilityUp => Some(Entrance::LanayruMiningFacilityDown),
            Entrance::MiniBossLeft => Some(Entrance::MiniBossDown),
            Entrance::MiniBossDown => Some(Entrance::MiniBossLeft),
            Entrance::AncientCisternRight => Some(Entrance::AncientCisternDown),
            Entrance::AncientCisternDown => Some(Entrance::AncientCisternRight),
            Entrance::FireSanctuaryLeft => Some(Entrance::FireSanctuaryRight),
            Entrance::FireSanctuaryRight => Some(Entrance::FireSanctuaryLeft),
            Entrance::SandshipLeft => None,
        }
    }

    /// Which gate locks the link from this entrance into its room, if one
    /// does.
    pub open spec fn link_gate(&self) -> Option<Gate> {
        match self {
            Entrance::StartRight => Some(Gate::Starting),
            Entrance::EarthTempleRight => Some(Gate::EarthTemple),
            Entrance::MiniBossLeft => Some(Gate::MiniBoss),
            Entrance::FireSanctuaryLeft => Some(Gate::FireSanctuary),
            _ => None,
        }
    }

    /// Where the link inside the room leads from this entrance with the given
    /// gates opened: to the room's other entrance, unless the room has none
    /// or the link is locked.
    pub open spec fn spec_traverse_room(&self, gates: Set<Gate>) -> Option<Entrance> {
        match self.link_gate() {
            Some(g) => if gates.contains(g) {
                self.inner_link()
            } else {
                None
            },
            None => self.inner_link(),
        }
    }

    /// Whether the entrance has a control panel.
    pub open spec fn spec_has_control_panel(&self) -> bool {
        match self {
            Entrance::StartRight => true,
            Entrance::LanayruMiningFacilityDown => true,
            Entrance::EarthTempleDown => true,
            Entrance::MiniBossLeft => true,
            _ => false,
        }
    }

    /// Which gate coming by this entrance opens for good, if it opens one.
    pub open spec fn spec_open_gate(&self) -> Option<Gate> {
        match self {
            Entrance::StartDown => Some(Gate::Starting),
            Entrance::EarthTempleDown => Some(Gate::EarthTemple),
            Entrance::MiniBossDown => Some(Gate::MiniBoss),
            Entrance::FireSanctuaryRight => Some(Gate::FireSanctuary),
            _ => None,
        }
    }

    /// The entrance's place in the list of entrances, from 0 to 14.
    pub open spec fn spec_index(self) -> int {
        match self {
            Entrance::StartDown => 0,
            Entrance::StartRight => 1,
            Entrance::SkyviewLeft => 2,
            Entrance::SkyviewUp => 3,
            Entrance::EarthTempleRight => 4,
            Entrance::EarthTempleDown => 5,
            Entrance::LanayruMiningFacilityDown => 6,
            Entrance::LanayruMiningFacilityUp => 7,
            Entrance::MiniBossLeft => 8,
            Entrance::MiniBossDown => 9,
            Entrance::AncientCisternRight => 10,
            Entrance::AncientCisternDown => 11,
            Entrance::FireSanctuaryLeft => 12,
            Entrance::FireSanctuaryRight => 13,
            Entrance::SandshipLeft => 14,
        }
    }

    /// The entrance of a room on a side, if the room has one there.
    pub fn from_room_direction(room: Room, direction: Direction) -> (r: Option<Entrance>)
        ensures
            r == Entrance::spec_from_room_direction(room, direction),
    {
        match (room, direction) {
            (Room::Start, Direction::Down) => Some(Entrance::StartDown),
            (Room::Start, Direction::Right) => Some(Entrance::StartRight),
            (Room::Skyview, Direction::Up) => Some(Entrance::SkyviewUp),
            (Room::Skyview, Direction::Left) => Some(Entrance::SkyviewLeft),
            (Room::EarthTemple, Direction::Down) => Some(Entrance::EarthTempleDown),
            (Room::EarthTemple, Direction::Right) => Some(Entrance::EarthTempleRight),
            (Room::LanayruMiningFacility, Direction::Up) => Some(Entrance::LanayruMiningFacilityUp),
            (Room::LanayruMiningFacility, Direction::Down) => Some(
                Entrance::LanayruMiningFacilityDown,
            ),
            (Room::MiniBoss, Direction::Left) => Some(Entrance::MiniBossLeft),
            (Room::MiniBoss, Direction::Down) => Some(Entrance::MiniBossDown),
            (Room::AncientCistern, Direction::Down) => Some(Entrance::AncientCisternDown),
            (Room::AncientCistern, Direction::Right) => Some(Entrance::AncientCisternRight),
            (Room::FireSanctuary, Direction::Left) => Some(Entrance::FireSanctuaryLeft),
            (Room::FireSanctuary, Direction::Right) => Some(Entrance::FireSanctuaryRight),
            (Room::Sandship, Direction::Left) => Some(Entrance::SandshipLeft),
            _ => None,
        }
    }

    /// Goes through the room from this entrance: gives the room's other
    /// entrance, or nothing where the room has none or the link is locked.
    pub fn traverse_room(&self, gates: OpenedGates) -> (r: Option<Entrance>)
        ensures
            r == self.spec_traverse_room(gates@),
    {
        match self {
            Entrance::StartDown => Some(Entrance::StartRight),
            Entrance::StartRight => if gates.contains_gate(Gate::Starting) {
                Some(Entrance::StartDown)
            } else {
                None
            },
            Entrance::SkyviewLeft => Some(Entrance::SkyviewUp),
            Entrance::SkyviewUp => Some(Entrance::SkyviewLeft),
            Entrance::EarthTempleRight => if gates.contains_gate(Gate::EarthTemple) {
                Some(Entrance::EarthTempleDown)
            } else {
                None
            },
            Entrance::EarthTempleDown => Some(Entrance::EarthTempleRight),
            Entrance::LanayruMiningFacilityDown => Some(Entrance::LanayruMiningFacilityUp),
            Entrance::LanayruMiningFacilityUp => Some(Entrance::LanayruMiningFacilityDown),
            Entrance::MiniBossLeft => if gates.contains_gate(Gate::MiniBoss) {
                Some(Entrance::MiniBossDown)
            } else {
                None
            },
            Entrance::MiniBossDown => Some(Entrance::MiniBossLeft),
            Entrance::AncientCisternRight => Some(Entrance::AncientCisternDown),
            Entrance::AncientCisternDown => Some(Entrance::AncientCisternRight),
            Entrance::FireSanctuaryLeft => if gates.contains_gate(Gate::FireSanctuary) {
                Some(Entrance::FireSanctuaryRight)
            } else {
                None
            },
            Entrance::FireSanctuaryRight => Some(Entrance::FireSanctuaryLeft),
            Entrance::SandshipLeft => None,
        }
    }

    /// The room an entrance belongs to and the side of the room it is on.
    pub fn to_room_direction(&self) -> (r: (Room, Direction))
        ensures
            r == self.spec_to_room_direction(),
    {
        match self {
            Entrance::StartDown => (Room::Start, Direction::Down),
            Entrance::StartRight => (Room::Start, Direction::Right),
            Entrance::SkyviewUp => (Room::Skyview, Direction::Up),
            Entrance::SkyviewLeft => (Room::Skyview, Direction::Left),
            Entrance::EarthTempleDown => (Room::EarthTemple, Direction::Down),
            Entrance::EarthTempleRight => (Room::EarthTemple, Direction::Right),
            Entrance::LanayruMiningFacilityUp => (Room::LanayruMiningFacility, Direction::Up),
            Entrance::LanayruMiningFacilityDown => (Room::LanayruMiningFacility, Direction::Down),
            Entrance::MiniBossLeft => (Room::MiniBoss, Direction::Left),
            Entrance::MiniBossDown => (Room::MiniBoss, Direction::Down),
            Entrance::AncientCisternDown => (Room::AncientCistern, Direction::Down),
            Entrance::AncientCisternRight => (Room::AncientCistern, Direction::Right),
            Entrance::FireSanctuaryLeft => (Room::FireSanctuary, Direction::Left),
            Entrance::FireSanctuaryRight => (Room::FireSanctuary, Direction::Right),
            Entrance::SandshipLeft => (Room::Sandship, Direction::Left),
        }
    }

    /// Whether the entrance has a control panel.
    pub fn has_control_panel(&self) -> (r: bool)
        ensures
            r == self.spec_has_control_panel(),
    {
        match self {
            Entrance::StartRight => true,
            Entrance::LanayruMiningFacilityDown => true,
            Entrance::EarthTempleDown => true,
            Entrance::MiniBossLeft => true,
            _ => false,
        }
    }

    /// What coming by this entrance opens for good, as a set of one gate;
    /// nothing for an entrance that opens none.
    pub fn open_gate(&self) -> (r: Option<OpenedGates>)
        ensures
            r is Some == self.spec_open_gate() is Some,
            r matches Some(g) ==> g.wf() && g@ == set![self.spec_open_gate()->0],
    {
        match self {
            Entrance::StartDown => Some(OpenedGates::starting()),
            Entrance::EarthTempleDown => Some(OpenedGates::earth_temple()),
            Entrance::MiniBossDown => Some(OpenedGates::mini_boss()),
            Entrance::FireSanctuaryRight => Some(OpenedGates::fire_sanctuary()),
            _ => None,
        }
    }

    pub fn index(&self) -> (r: u8)
        ensures
            r == self.spec_index(),
            r < 15,
    {
        match self {
            Entrance::StartDown => 0,
            Entrance::StartRight => 1,
            Entrance::SkyviewLeft => 2,
            Entrance::SkyviewUp => 3,
            Entrance::EarthTempleRight => 4,
            Entrance::EarthTempleDown => 5,
            Entrance::LanayruMiningFacilityDown => 6,
            Entrance::LanayruMiningFacilityUp => 7,
            Entrance::MiniBossLeft => 8,
            Entrance::MiniBossDown => 9,
            Entrance::AncientCisternRight => 10,
            Entrance::AncientCisternDown => 11,
            Entrance::FireSanctuaryLeft => 12,
            Entrance::FireSanctuaryRight => 13,
            Entrance::SandshipLeft => 14,
        }
    }

    /// The entrance with the given place in the list, if there is one.
    pub fn from_index(i: u8) -> (r: Option<Entrance>)
        ensures
            i < 15 ==> r is Some && r->0.spec_index() == i,
            i >= 15 ==> r is None,
    {
        match i {
            0 => Some(Entrance::StartDown),
            1 => Some(Entrance::StartRight),
            2 => Some(Entrance::SkyviewLeft),
            3 => Some(Entrance::SkyviewUp),
            4 => Some(Entrance::EarthTempleRight),
            5 => Some(Entrance::EarthTempleDown),
            6 => Some(Entrance::LanayruMiningFacilityDown),
            7 => Some(Entrance::LanayruMiningFacilityUp),
            8 => Some(Entrance::MiniBossLeft),
            9 => Some(Entrance::MiniBossDown),
            10 => Some(Entrance::AncientCisternRight),
            11 => Some(Entrance::AncientCisternDown),
            12 => Some(Entrance::FireSanctuaryLeft),
            13 => Some(Entrance::FireSanctuaryRight),
            14 => Some(Entrance::SandshipLeft),
            _ => None,
        }
    }
}

impl PuzzleMover {
    /// The entrance at which the room's control panel stands.
    pub open spec fn spec_panel(&self) -> Entrance {
        match self {
            PuzzleMover::Start => Entrance::StartRight,
            PuzzleMover::LanayruMiningFacility => Entrance::LanayruMiningFacilityDown,
            PuzzleMover::EarthTemple => Entrance::EarthTempleDown,
            PuzzleMover::MiniBoss => Entrance::MiniBossLeft,
        }
    }

    /// The entrance at which the room's control panel stands.
    pub fn panel(&self) -> (r: Entrance)
        ensures
            r == self.spec_panel(),
            r.spec_has_control_panel(),
    {
        match self {
            PuzzleMover::Start => Entrance::StartRight,
            PuzzleMover::LanayruMiningFacility => Entrance::LanayruMiningFacilityDown,
            PuzzleMover::EarthTemple => Entrance::EarthTempleDown,
            PuzzleMover::MiniBoss => Entrance::MiniBossLeft,
        }
    }
}

/// Every entrance is the entrance of its own room on its own side, and an
/// entrance found for a room and a side belongs to that room and that side.
pub proof fn lemma_entrance_round_trip(e: Entrance, room: Room, direction: Direction)
    ensures
        Entrance::spec_from_room_direction(e.room(), e.direction()) == Some(e),
        Entrance::spec_from_room_direction(room, direction) == Some(e) ==> e.room() == room
            && e.direction() == direction,
{
}

/// Opening gates closes no link: an entrance whose link can be walked with
/// the gates `g1` leads to the same entrance with any gates `g2` that hold
/// those of `g1`.
pub proof fn lemma_traverse_monotone(e: Entrance, g1: Set<Gate>, g2: Set<Gate>)
    requires
        g1.subset_of(g2),
        e.spec_traverse_room(g1) is Some,
    ensures
        e.spec_traverse_room(g2) == e.spec_traverse_room(g1),
{
}

} // verus!
