use vstd::prelude::*;

verus! {

/// An RGBA color with one byte per channel.
#[derive(Clone, Copy, Debug, PartialEq, Eq, Structural)]
pub struct Color {
    pub r: u8,
    pub g: u8,
    pub b: u8,
    pub a: u8,
}

impl Color {
    /// The color every channel of which is zero, alpha included.
    pub open spec fn is_black(self) -> bool {
        self.r == 0 && self.g == 0 && self.b == 0 && self.a == 0
    }

    /// The zero color: what a pixel shows where no object is hit.
    pub fn black() -> (c: Color)
        ensures
            c.is_black(),
    {
        Color { r: 0, g: 0, b: 0, a: 0 }
    }
}

} // verus!
