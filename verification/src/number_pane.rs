//! A pane that shows one number on a coloured ground.

use vstd::prelude::*;

verus! {

/// A colour of four channels, each from 0 to 255.
#[derive(Clone, Copy, Debug, PartialEq, Eq, Structural)]
pub struct PaneColor {
    pub red: u8,
    pub green: u8,
    pub blue: u8,
    pub alpha: u8,
}

impl PaneColor {
    /// Opaque white.
    pub open spec fn white() -> PaneColor {
        PaneColor { red: 255, green: 255, blue: 255, alpha: 255 }
    }
}

/// A pane with the number it shows and the colour of its ground.
#[derive(Debug)]
pub struct NumberPane {
    value: u32,
    color: PaneColor,
}

/// What a pane stands for.
pub struct PaneView {
    pub value: nat,
    pub color: PaneColor,
}

impl View for NumberPane {
    type V = PaneView;

    closed spec fn view(&self) -> PaneView {
        PaneView { value: self.value as nat, color: self.color }
    }
}

impl NumberPane {
    /// A white pane that shows `size`.
    pub fn new(size: u32) -> (r: NumberPane)
        ensures
            r@ == (PaneView { value: size as nat, color: PaneColor::white() }),
    {
        NumberPane {
            value: size,
            color: PaneColor { red: 255, green: 255, blue: 255, alpha: 255 },
        }
    }

    /// The number the pane shows.
    pub fn value(&self) -> (r: u32)
        ensures
            r == self@.value,
    {
        self.value
    }

    /// The colour of the pane's ground.
    pub fn color(&self) -> (r: PaneColor)
        ensures
            r == self@.color,
    {
        self.color
    }
}

} // verus!
