use vstd::prelude::*;

verus! {

/// An RGBA color with four 8-bit channels. Alpha defaults to fully opaque.
#[derive(Copy, Clone, Debug, PartialEq, Eq, Structural)]
pub struct Color {
    pub red: u8,
    pub green: u8,
    pub blue: u8,
    pub alpha: u8,
}

impl Color {
    /// Builds a color from the three color channels, fully opaque.
    pub fn new(red: u8, green: u8, blue: u8) -> (c: Color)
        ensures
            c == (Color { red, green, blue, alpha: 255u8 }),
    {
        Color { red, green, blue, alpha: 255 }
    }
}

} // verus!
