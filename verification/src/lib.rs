//! Pick one entry of a directory by typing a two-letter code.
//!
//! The crate holds the selection engine of a terminal directory hopper: the
//! code generator, the ordered set of candidates, the pages cut to the size of
//! the screen, the prefix matcher, the grid geometry and the rules that turn
//! keystrokes into actions. Reading keys and writing to the terminal are left
//! to the program around it.

use vstd::prelude::*;

pub mod app;
pub mod args;
pub mod grid;
pub mod label;
pub mod matcher;
pub mod tui;
pub mod util;

verus! {

/// A rectangle of character cells on the screen.
#[derive(Debug, Clone, Copy, PartialEq, Eq, Structural)]
pub struct Rect {
    pub x: u16,
    pub y: u16,
    pub width: u16,
    pub height: u16,
}

} // verus!
