//! Lengths, points and rectangles in device pixels.
use vstd::prelude::*;

verus! {

/// A length in physical pixels of the output device.
#[derive(Clone, Copy, Debug, PartialEq, Eq, Structural, Hash)]
pub struct DevicePixels(pub i32);

/// A position in device pixels, measured from the top left corner.
#[derive(Clone, Copy, Debug, PartialEq, Eq, Structural, Hash)]
pub struct Point {
    pub x: DevicePixels,
    pub y: DevicePixels,
}

/// A width and a height in device pixels.
#[derive(Clone, Copy, Debug, PartialEq, Eq, Structural, Hash)]
pub struct Size {
    pub width: DevicePixels,
    pub height: DevicePixels,
}

/// A rectangle, given by its top left corner and its extent.
#[derive(Clone, Copy, Debug, PartialEq, Eq, Structural, Hash)]
pub struct Bounds {
    pub origin: Point,
    pub size: Size,
}

/// The smaller of two numbers.
pub open spec fn lesser(a: int, b: int) -> int {
    if a <= b {
        a
    } else {
        b
    }
}

/// The greater of two numbers.
pub open spec fn greater(a: int, b: int) -> int {
    if a >= b {
        a
    } else {
        b
    }
}

impl DevicePixels {
    /// The number of bytes that a row of this many pixels takes.
    pub fn to_bytes(self, bytes_per_pixel: u8) -> (bytes: u32)
        requires
            0 <= self.0,
            self.0 * bytes_per_pixel <= u32::MAX,
        ensures
            bytes == self.0 * bytes_per_pixel,
    {
        self.0 as u32 * bytes_per_pixel as u32
    }
}

impl Size {
    /// True of a size that covers at least one pixel.
    pub open spec fn covers_pixels(self) -> bool {
        self.width.0 >= 1 && self.height.0 >= 1
    }

    /// True of a size that is no wider and no taller than `other`.
    pub open spec fn fits_in(self, other: Size) -> bool {
        self.width.0 <= other.width.0 && self.height.0 <= other.height.0
    }

    /// The lesser width and the lesser height of the two sizes.
    pub fn min(&self, other: &Size) -> (result: Size)
        ensures
            result.width.0 == lesser(self.width.0 as int, other.width.0 as int),
            result.height.0 == lesser(self.height.0 as int, other.height.0 as int),
    {
        Size {
            width: if self.width.0 <= other.width.0 {
                self.width
            } else {
                other.width
            },
            height: if self.height.0 <= other.height.0 {
                self.height
            } else {
                other.height
            },
        }
    }

    /// The greater width and the greater height of the two sizes.
    pub fn max(&self, other: &Size) -> (result: Size)
        ensures
            result.width.0 == greater(self.width.0 as int, other.width.0 as int),
            result.height.0 == greater(self.height.0 as int, other.height.0 as int),
    {
        Size {
            width: if self.width.0 >= other.width.0 {
                self.width
            } else {
                other.width
            },
            height: if self.height.0 >= other.height.0 {
                self.height
            } else {
                other.height
            },
        }
    }
}

impl Bounds {
    /// True of two rectangles that share no pixel.
    pub open spec fn disjoint(self, other: Bounds) -> bool {
        ||| self.origin.x.0 + self.size.width.0 <= other.origin.x.0
        ||| other.origin.x.0 + other.size.width.0 <= self.origin.x.0
        ||| self.origin.y.0 + self.size.height.0 <= other.origin.y.0
        ||| other.origin.y.0 + other.size.height.0 <= self.origin.y.0
    }
}

} // verus!
