//! Editing core of a console text editor: a line-oriented text buffer with
//! character-precise mutation, an undo log of exact inverse operations, a
//! dual-coordinate cursor, a scrolling viewport with dirty-region redraw,
//! linear and rectangular selections, and a find/replace engine.

use vstd::prelude::*;

pub mod buffer;
pub mod cursor;
pub mod editor;
pub mod history;
pub mod key_event;
pub mod prompt;
pub mod row;
pub mod screen;

verus! {

/// Foreground colors the terminal layer understands.
#[derive(Clone, Copy, Debug, PartialEq, Eq, Structural)]
pub enum Color {
    Blue,
    Green,
    Cyan,
    Red,
    Magenta,
    Yellow,
    White,
}

} // verus!
