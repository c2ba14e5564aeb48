//! Colours.

use vstd::prelude::*;

verus! {

/// A colour of 24 bits.
#[derive(Debug, Clone, Copy, PartialEq, Eq, Structural)]
pub struct RgbColor {
    pub r: u8,
    pub g: u8,
    pub b: u8,
}

/// A colour to draw with.
#[derive(Debug, Clone, Copy, PartialEq, Eq, Structural)]
pub enum Color {
    /// The default of the terminal.
    Reset,
    Black,
    Gray,
    DarkGray,
    White,
    /// An entry of the palette.
    Indexed(u8),
    Rgb(u8, u8, u8),
}

} // verus!
