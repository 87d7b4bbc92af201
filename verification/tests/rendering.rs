use skykeep::render::{room_str, rooms_text};
use skykeep::rooms::Room;

#[test]
fn every_room_has_three_letters() {
    assert_eq!(room_str(Room::Start), "STR");
    assert_eq!(room_str(Room::Skyview), "SV ");
    assert_eq!(room_str(Room::EarthTemple), "ET ");
    assert_eq!(room_str(Room::LanayruMiningFacility), "LMF");
    assert_eq!(room_str(Room::MiniBoss), "BOS");
    assert_eq!(room_str(Room::AncientCistern), "AC ");
    assert_eq!(room_str(Room::FireSanctuary), "FS ");
    assert_eq!(room_str(Room::Sandship), "SSH");
    assert_eq!(room_str(Room::Empty), "   ");
}

#[test]
fn a_grid_is_three_lines() {
    let rooms = [
        Room::Start,
        Room::Skyview,
        Room::EarthTemple,
        Room::LanayruMiningFacility,
        Room::MiniBoss,
        Room::AncientCistern,
        Room::FireSanctuary,
        Room::Sandship,
        Room::Empty,
    ];
    assert_eq!(rooms_text(&rooms), "STR SV  ET  \nLMF BOS AC  \nFS  SSH     \n");
    let blank = [Room::Empty; 9];
    assert_eq!(rooms_text(&blank), "            \n            \n            \n");
}
