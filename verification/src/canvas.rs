//! Geometry of the drawn power widget.

use vstd::prelude::*;

verus! {

/// The rectangle a widget is drawn in: its top-left corner and its size, in cells.
#[derive(Clone, Copy, Debug, PartialEq, Eq, Structural)]
pub struct DrawArea {
    pub x: u16,
    pub y: u16,
    pub width: u16,
    pub height: u16,
}

/// The corners a widget records for mouse hit-testing: the top-left cell and the cell
/// just past the bottom-right one.
pub fn widget_corners(area: DrawArea) -> (c: ((u16, u16), (u16, u16)))
    requires
        area.x + area.width <= u16::MAX,
        area.y + area.height <= u16::MAX,
    ensures
        c.0 == (area.x, area.y),
        c.1.0 == area.x + area.width,
        c.1.1 == area.y + area.height,
{
    ((area.x, area.y), (area.x + area.width, area.y + area.height))
}

} // verus!
