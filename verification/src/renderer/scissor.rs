//! Rectangles of pixels.

use vstd::prelude::*;

verus! {

/// A rectangle of pixels that drawing is confined to.
#[derive(Debug, Clone, Copy, PartialEq, Eq, Structural)]
pub struct ScissorRect {
    pub x: u32,
    pub y: u32,
    pub width: u32,
    pub height: u32,
}

/// The end of a span of pixels, no further than the largest pixel.
pub open spec fn span_end(start: u32, length: u32) -> int {
    if start + length > u32::MAX {
        u32::MAX as int
    } else {
        start + length
    }
}

/// The pixel nearest to a coordinate on a side of the surface.
pub open spec fn held_pixel(at: i64, side: u32) -> int {
    if at < 0 {
        0
    } else if at > side {
        side as int
    } else {
        at as int
    }
}

fn hold_pixel(at: i64, side: u32) -> (held: u32)
    ensures
        held == held_pixel(at, side),
        held <= side,
{
    if at < 0 {
        0
    } else if at > side as i64 {
        side
    } else {
        at as u32
    }
}

/// The part of the surface between these edges, where there is one.
pub fn scissor_from_edges(
    min_x: i64,
    min_y: i64,
    max_x: i64,
    max_y: i64,
    surface_width: u32,
    surface_height: u32,
) -> (rect: Option<ScissorRect>)
    ensures
        rect is Some <==> held_pixel(min_x, surface_width) < held_pixel(max_x, surface_width)
            && held_pixel(min_y, surface_height) < held_pixel(max_y, surface_height),
        rect matches Some(area) ==> area.x == held_pixel(min_x, surface_width) && area.y
            == held_pixel(min_y, surface_height) && area.x + area.width == held_pixel(
            max_x,
            surface_width,
        ) && area.y + area.height == held_pixel(max_y, surface_height),
{
    let x0: u32 = hold_pixel(min_x, surface_width);
    let y0: u32 = hold_pixel(min_y, surface_height);
    let x1: u32 = hold_pixel(max_x, surface_width);
    let y1: u32 = hold_pixel(max_y, surface_height);
    if x0 < x1 && y0 < y1 {
        Some(ScissorRect { x: x0, y: y0, width: x1 - x0, height: y1 - y0 })
    } else {
        None
    }
}

impl ScissorRect {
    /// Whether the pixel lies in the rectangle.
    pub open spec fn covers(self, px: int, py: int) -> bool {
        &&& self.x <= px < span_end(self.x, self.width)
        &&& self.y <= py < span_end(self.y, self.height)
    }

    /// The common part of two rectangles, where they have one.
    pub fn intersect(self, other: Self) -> (common: Option<Self>)
        ensures
            common matches Some(rect) ==> rect.width > 0 && rect.height > 0 && rect.x + rect.width
                <= u32::MAX && rect.y + rect.height <= u32::MAX,
            common matches Some(rect) ==> forall|px: int, py: int|
                rect.covers(px, py) <==> self.covers(px, py) && other.covers(px, py),
            common is None ==> forall|px: int, py: int|
                !(self.covers(px, py) && other.covers(px, py)),
    {
        let x0: u32 = if self.x > other.x { self.x } else { other.x };
        let y0: u32 = if self.y > other.y { self.y } else { other.y };
        let self_x1: u32 = self.x.saturating_add(self.width);
        let other_x1: u32 = other.x.saturating_add(other.width);
        let x1: u32 = if self_x1 < other_x1 { self_x1 } else { other_x1 };
        let self_y1: u32 = self.y.saturating_add(self.height);
        let other_y1: u32 = other.y.saturating_add(other.height);
        let y1: u32 = if self_y1 < other_y1 { self_y1 } else { other_y1 };
        if x1 > x0 && y1 > y0 {
            Some(ScissorRect { x: x0, y: y0, width: x1 - x0, height: y1 - y0 })
        } else {
            None
        }
    }
}

} // verus!
