//! The authoritative game world: its data model, component store, per-tick
//! simulation systems, and the state machine that drives them.

pub mod data;
pub mod entities;
pub mod systems;
pub mod state;
