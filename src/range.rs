//! Rectangles in normalized and in canvas-pixel coordinates.
use vstd::prelude::*;
use crate::fixed::UNIT;

verus! {

/// A rectangle in normalized fixed-point coordinates: fractions of the canvas
/// width and height, `UNIT` steps to one whole side. Values outside `[0, 1]`,
/// negative ones included, are allowed.
#[derive(Debug, Clone, Copy, PartialEq, Eq, Structural)]
pub struct Range {
    pub x: i32,
    pub y: i32,
    pub width: i32,
    pub height: i32,
}

/// A rectangle in canvas pixels, in fixed-point steps of `1 / UNIT` pixel.
/// Only [`Range::to_scaled`] makes one.
#[derive(Debug, Clone, Copy, PartialEq, Eq, Structural)]
pub struct Scaled {
    x: i64,
    y: i64,
    width: i64,
    height: i64,
}

/// The content of a [`Scaled`] rectangle.
pub struct ScaledView {
    pub x: int,
    pub y: int,
    pub width: int,
    pub height: int,
}

impl View for Scaled {
    type V = ScaledView;

    closed spec fn view(&self) -> ScaledView {
        ScaledView { x: self.x as int, y: self.y as int, width: self.width as int, height: self.height as int }
    }
}

/// A fixed-point pixel quantity truncated to a whole pixel count, as an
/// unsigned 32-bit cast does: negative values give `0`, values past the `u32`
/// range give `u32::MAX`.
pub open spec fn whole_pixels(v: int) -> int {
    if v < 0 {
        0
    } else if v / (UNIT as int) > u32::MAX {
        u32::MAX as int
    } else {
        v / (UNIT as int)
    }
}

impl Range {
    pub fn new(x: i32, y: i32, width: i32, height: i32) -> (r: Range)
        ensures
            r == (Range { x, y, width, height }),
    {
        Range { x, y, width, height }
    }

    /// The scaled form of this rectangle on a canvas of `width` by `height` pixels.
    pub open spec fn scaled_view(self, width: int, height: int) -> ScaledView {
        ScaledView {
            x: self.x * width,
            y: self.y * height,
            width: self.width * width,
            height: self.height * height,
        }
    }

    /// Scales each side by the canvas size: `x` and `width` by `width`, `y`
    /// and `height` by `height`.
    pub fn to_scaled(&self, width: u32, height: u32) -> (r: Scaled)
        ensures
            r@ == self.scaled_view(width as int, height as int),
    {
        proof {
            assert(i32::MIN * u32::MAX <= self.x * width <= i32::MAX * u32::MAX) by (nonlinear_arith);
            assert(i32::MIN * u32::MAX <= self.y * height <= i32::MAX * u32::MAX) by (nonlinear_arith);
            assert(i32::MIN * u32::MAX <= self.width * width <= i32::MAX * u32::MAX) by (nonlinear_arith);
            assert(i32::MIN * u32::MAX <= self.height * height <= i32::MAX * u32::MAX) by (nonlinear_arith);
        }
        Scaled {
            x: self.x as i64 * width as i64,
            y: self.y as i64 * height as i64,
            width: self.width as i64 * width as i64,
            height: self.height as i64 * height as i64,
        }
    }
}

/// Truncates a fixed-point pixel quantity as [`whole_pixels`] says.
fn truncate_pixels(v: i64) -> (r: u32)
    ensures
        r as int == whole_pixels(v as int),
{
    if v < 0 {
        0
    } else {
        let q: u64 = v as u64 / 65536;
        if q > u32::MAX as u64 {
            u32::MAX
        } else {
            q as u32
        }
    }
}

impl Scaled {
    pub fn x(&self) -> (r: i64)
        ensures
            r == self@.x,
    {
        self.x
    }

    pub fn y(&self) -> (r: i64)
        ensures
            r == self@.y,
    {
        self.y
    }

    pub fn width(&self) -> (r: i64)
        ensures
            r == self@.width,
    {
        self.width
    }

    pub fn height(&self) -> (r: i64)
        ensures
            r == self@.height,
    {
        self.height
    }

    /// Left edge in whole pixels.
    pub fn pixel_x(&self) -> (r: u32)
        ensures
            r == whole_pixels(self@.x),
    {
        truncate_pixels(self.x)
    }

    /// Top edge in whole pixels.
    pub fn pixel_y(&self) -> (r: u32)
        ensures
            r == whole_pixels(self@.y),
    {
        truncate_pixels(self.y)
    }

    /// Width in whole pixels.
    pub fn pixel_width(&self) -> (r: u32)
        ensures
            r == whole_pixels(self@.width),
    {
        truncate_pixels(self.width)
    }

    /// Height in whole pixels.
    pub fn pixel_height(&self) -> (r: u32)
        ensures
            r == whole_pixels(self@.height),
    {
        truncate_pixels(self.height)
    }
}

} // verus!
