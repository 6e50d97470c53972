//! The vocabulary the widgets share: positions, colors, element status,
//! input events, and the traits for processing input, updating state and
//! rendering into a buffer.

use vstd::prelude::*;

use crate::ui::screen::ScreenBuffer;

verus! {

/// A screen coordinate.
pub type Pos = u16;

/// The colors the terminal interface knows.
#[derive(Clone, Copy, Debug, PartialEq, Eq, Structural)]
pub enum Color {
    Black,
    White,
    Blue,
    Yellow,
    Green,
    Red,
}

/// One key press, after escape-sequence decoding.
#[derive(Clone, Copy, Debug, PartialEq, Eq, Structural)]
pub enum InputEvent {
    Char(char),
    CursorLeft,
    CursorRight,
    CursorUp,
    CursorDown,
    Backspace,
    Enter,
}

/// How an element takes part in interaction right now.
#[derive(Clone, Copy, Debug, PartialEq, Eq, Structural)]
pub enum Status {
    Passive,
    Selected,
    Active,
}

/// The foreground and background colors an element of a status is drawn
/// with.
pub open spec fn sp_colors(s: Status) -> (Color, Color) {
    match s {
        Status::Passive => (Color::White, Color::Black),
        Status::Selected => (Color::White, Color::Blue),
        Status::Active => (Color::Black, Color::Yellow),
    }
}

impl Status {
    /// The foreground and background colors an element of this status is
    /// drawn with.
    pub fn colors(&self) -> (r: (Color, Color))
        ensures
            r == sp_colors(*self),
    {
        match self {
            Status::Passive => (Color::White, Color::Black),
            Status::Selected => (Color::White, Color::Blue),
            Status::Active => (Color::Black, Color::Yellow),
        }
    }
}

/// An element that reacts to input events.
pub trait ProcessInput {
    fn process_event(&mut self, event: InputEvent);
}

/// An element that refreshes itself from some per-frame arguments.
pub trait Update {
    type Args;

    fn update(&mut self, args: &Self::Args);
}

/// An element that draws itself into a buffer at a position.
pub trait Render {
    type Args;

    fn render(&self, b: &mut ScreenBuffer, x: Pos, y: Pos, args: &Self::Args) -> Result<(), ()>
        requires
            old(b).wf(),
    ;
}

} // verus!
