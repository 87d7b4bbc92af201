//! Decides whether a 3x3 sliding grid of rooms can be played to the end:
//! whether the player, sliding tiles and walking through rooms whose inner
//! links open one gate at a time, can come by every room entrance.

pub mod chain;
pub mod entrances;
pub mod gates;
pub mod grid;
pub mod ledger;
pub mod memo;
pub mod progress;
pub mod render;
pub mod rooms;
pub mod search;
pub mod state;

