//! The seams to the outside: what a platform front end and a full interface
//! implement. The library never performs I/O itself; implementations of
//! these traits live with the embedding program.

use vstd::prelude::*;

use crate::ui::cli::{Frame, UiEvent};

verus! {

/// A platform front end: it reads raw input characters and shows a frame.
/// Implementations wrap a terminal or a pipe; failure is reported as a
/// plain message.
pub trait PlatformIo {
    /// The characters received since the last poll.
    fn input(&mut self) -> Vec<char>;

    /// Presents the frame; an implementation says in the error text what
    /// went wrong.
    fn render(&mut self, frame: &Frame) -> Result<(), String>;
}

/// A whole interface: per frame it takes the client's knowledge and hands
/// back what the player asked for.
pub trait Interface {
    fn update(&mut self, frame: &Frame) -> Result<Vec<UiEvent>, String>;
}

} // verus!
