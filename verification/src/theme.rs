//! Colours shared by the messages and the interface.

use vstd::prelude::*;

verus! {

/// Red part of the accent colour.
pub const ACCENT_RED: u8 = 207;

/// Green part of the accent colour.
pub const ACCENT_GREEN: u8 = 106;

/// Blue part of the accent colour.
pub const ACCENT_BLUE: u8 = 76;

/// The accent colour as red, green and blue.
pub fn accent_rgb() -> (r: (u8, u8, u8))
    ensures
        r == (ACCENT_RED, ACCENT_GREEN, ACCENT_BLUE),
{
    (ACCENT_RED, ACCENT_GREEN, ACCENT_BLUE)
}

/// The colour of a piece of text, by what it stands for.
#[derive(Debug, Clone, Copy, PartialEq, Eq, Structural)]
pub enum Tone {
    /// The terminal's own colour.
    Plain,
    /// The accent colour.
    Accent,
    /// White, for what the pointer is over.
    White,
    /// Green, for what succeeded.
    Success,
    /// Yellow, for what is running or waiting.
    Running,
    /// Red, for what failed.
    Failure,
    /// Dark gray, for what matters less.
    Dim,
    /// Gray, for the guides of the tree.
    Tree,
}

} // verus!
