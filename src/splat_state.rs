//! Per-splat state bits and the kinds of interactive selection.
use vstd::prelude::*;

verus! {

/// A splat with no flag set.
pub const NORMAL: u8 = 0;

/// Bit 0: the splat is selected.
pub const SELECTED: u8 = 1;

/// Bit 1: the splat is locked; selection operations leave it alone.
pub const LOCKED: u8 = 2;

/// Bit 2: the splat is deleted (hidden, zero opacity).
pub const DELETED: u8 = 4;

/// How a selection result combines with the current selection.
#[derive(Debug, Clone, Copy, PartialEq, Eq, Structural)]
pub enum SelectionOp {
    /// Replace the current selection.
    Replace,
    /// Add to the current selection.
    Add,
    /// Remove from the current selection.
    Remove,
}

/// The shape that a GPU selection pass tests each splat against.
#[derive(Debug, Clone, Copy, PartialEq, Eq, Structural)]
pub enum SelectionMode {
    /// A screen-space bitmap (lasso, brush).
    Mask,
    /// A screen-space rectangle.
    Rect,
    /// A world-space sphere.
    Sphere,
    /// A world-space axis-aligned box.
    Box,
}

impl SelectionMode {
    /// The mode number that the selection shader reads.
    pub fn shader_code(self) -> (r: u32)
        ensures
            r == match self {
                SelectionMode::Mask => 0u32,
                SelectionMode::Rect => 1u32,
                SelectionMode::Sphere => 2u32,
                SelectionMode::Box => 3u32,
            },
    {
        match self {
            SelectionMode::Mask => 0,
            SelectionMode::Rect => 1,
            SelectionMode::Sphere => 2,
            SelectionMode::Box => 3,
        }
    }
}

} // verus!
