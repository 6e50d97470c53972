//! The server side: client sessions, sequencing, and eviction around the
//! authoritative game state.

pub mod clients;
