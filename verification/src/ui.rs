//! The text interface: screen buffers and their widgets, input processing,
//! and the command line. Rendering collaborators take the draw operations
//! these produce; no I/O happens here.

pub mod base;
pub mod cli;
pub mod render;
pub mod screen;
pub mod widgets;
