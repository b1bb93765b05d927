//! A single cell of the monochrome framebuffer.

use vstd::prelude::*;

verus! {

/// One framebuffer cell: lit or dark.
#[derive(Clone, Copy, Debug, PartialEq, Eq, Structural)]
pub enum Pixel {
    ON,
    OFF,
}

impl Pixel {
    /// The bit value of the cell: 1 when lit, 0 when dark.
    pub open spec fn spec_bit(self) -> u8 {
        if self is ON {
            1
        } else {
            0
        }
    }

    /// The cell with the opposite state; sprite bits combine with the
    /// framebuffer by XOR, which flips exactly the covered cells.
    pub open spec fn spec_flip(self) -> Pixel {
        if self is ON {
            Pixel::OFF
        } else {
            Pixel::ON
        }
    }

    /// Returns the bit value of the cell.
    pub fn bit(&self) -> (r: u8)
        ensures
            r == self.spec_bit(),
    {
        match self {
            Pixel::ON => 1,
            Pixel::OFF => 0,
        }
    }
}

} // verus!
