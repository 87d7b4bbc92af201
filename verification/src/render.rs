//! A grid as text, for showing it.

use vstd::prelude::*;
use crate::rooms::Room;

verus! {

/// The three letters that stand for a room.
pub open spec fn spec_room_str(r: Room) -> Seq<char> {
    match r {
        Room::Start => "STR"@,
        Room::Skyview => "SV "@,
        Room::EarthTemple => "ET "@,
        Room::LanayruMiningFacility => "LMF"@,
        Room::MiniBoss => "BOS"@,
        Room::AncientCistern => "AC "@,
        Room::FireSanctuary => "FS "@,
        Room::Sandship => "SSH"@,
        Room::Empty => "   "@,
    }
}

/// The first `n` tiles of a grid as text: every room by its three letters and
/// a blank after it, and the line ended after every third.
pub open spec fn spec_rooms_text(grid: Seq<Room>, n: int) -> Seq<char>
    decreases n,
{
    if n <= 0 {
        Seq::empty()
    } else if n % 3 == 0 {
        spec_rooms_text(grid, n - 1) + spec_room_str(grid[n - 1]) + " "@ + "\n"@
    } else {
        spec_rooms_text(grid, n - 1) + spec_room_str(grid[n - 1]) + " "@
    }
}

/// The three letters that stand for a room.
pub fn room_str(r: Room) -> (s: &'static str)
    ensures
        s@ == spec_room_str(r),
{
    match r {
        Room::Start => "STR",
        Room::Skyview => "SV ",
        Room::EarthTemple => "ET ",
        Room::LanayruMiningFacility => "LMF",
        Room::MiniBoss => "BOS",
        Room::AncientCistern => "AC ",
        Room::FireSanctuary => "FS ",
        Room::Sandship => "SSH",
        Room::Empty => "   ",
    }
}

/// The grid as three lines of text.
pub fn rooms_text(rooms: &[Room; 9]) -> (s: String)
    ensures
        s@ == spec_rooms_text(rooms@, 9),
{
    let mut s = String::new();
    let mut i: usize = 0;
    while i < 9
        invariant
            i <= 9,
            s@ == spec_rooms_text(rooms@, i as int),
        decreases 9 - i,
    {
        s.append(room_str(rooms[i]));
        s.append(" ");
        if i % 3 == 2 {
            s.append("\n");
        }
        i = i + 1;
    }
    s
}

} // verus!
