//! The simulation core of a push-and-pull grid puzzle: a level grid and its occupancy map,
//! the resolution of a move into the entities it pushes and pulls, the step counter with a
//! per-entity position history for undo and reset, the history of removed entities that a
//! rewind brings back, and the check that no movable entity can be moved any more.

pub mod collision;
pub mod entity;
pub mod grid;
pub mod history;
pub mod level;
pub mod mechanics;
pub mod player;
pub mod pos;
pub mod reach;
pub mod state;
pub mod tiles;
pub mod undo;
pub mod world;
