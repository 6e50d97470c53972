//! Core of a multiplayer space-combat simulation: wire protocol, server-side
//! entity simulation, client-side reconciliation, and the text interface that
//! sits on top of them.

pub mod vec;
pub mod game;
pub mod wire;
pub mod protocol;
pub mod server;
pub mod text;
pub mod client;
pub mod ids;
pub mod ui;
pub mod events;
pub mod platform;
