//! A small two-component vector used for grid coordinates and sizes.
//!
//! The simulation itself works on flat indices; this type serves the
//! callers that translate between world coordinates and grid cells.

use vstd::prelude::*;

verus! {

/// A pair of coordinates.
#[derive(Clone, Copy, Debug, PartialEq)]
pub struct Vec2<T> {
    pub x: T,
    pub y: T,
}

impl<T> Vec2<T> {
    /// Packs two components into a vector.
    pub fn new(x: T, y: T) -> (v: Vec2<T>)
        ensures
            v == (Vec2 { x, y }),
    {
        Vec2 { x, y }
    }
}

impl Vec2<i64> {
    /// The origin.
    pub fn zero() -> (v: Vec2<i64>)
        ensures
            v.x == 0 && v.y == 0,
    {
        Vec2 { x: 0, y: 0 }
    }

    /// Component-wise absolute value.
    pub fn abs(&self) -> (v: Vec2<i64>)
        requires
            self.x > i64::MIN,
            self.y > i64::MIN,
        ensures
            v.x == vstd::math::abs(self.x as int),
            v.y == vstd::math::abs(self.y as int),
    {
        Vec2 {
            x: if self.x < 0 {
                -self.x
            } else {
                self.x
            },
            y: if self.y < 0 {
                -self.y
            } else {
                self.y
            },
        }
    }

    /// The area of the rectangle this vector spans.
    pub fn area(&self) -> (a: i64)
        requires
            i64::MIN <= self.x * self.y <= i64::MAX,
        ensures
            a == self.x * self.y,
    {
        self.x * self.y
    }

    /// The flat row-major index of this coordinate pair in a grid of the
    /// given width.
    pub fn index(&self, width: i64) -> (i: i64)
        requires
            0 <= self.x,
            0 <= self.y,
            0 < width,
            self.y * width + self.x <= i64::MAX,
        ensures
            i == self.y * width + self.x,
    {
        proof {
            assert(0 <= self.y * width) by (nonlinear_arith)
                requires
                    0 <= self.y && 0 < width,
            ;
        }
        self.y * width + self.x
    }

    /// Component-wise minimum.
    pub fn min(&self, other: Vec2<i64>) -> (v: Vec2<i64>)
        ensures
            v.x == (if self.x <= other.x {
                self.x
            } else {
                other.x
            }),
            v.y == (if self.y <= other.y {
                self.y
            } else {
                other.y
            }),
    {
        Vec2 {
            x: if self.x <= other.x {
                self.x
            } else {
                other.x
            },
            y: if self.y <= other.y {
                self.y
            } else {
                other.y
            },
        }
    }

    /// Component-wise maximum.
    pub fn max(&self, other: Vec2<i64>) -> (v: Vec2<i64>)
        ensures
            v.x == (if self.x >= other.x {
                self.x
            } else {
                other.x
            }),
            v.y == (if self.y >= other.y {
                self.y
            } else {
                other.y
            }),
    {
        Vec2 {
            x: if self.x >= other.x {
                self.x
            } else {
                other.x
            },
            y: if self.y >= other.y {
                self.y
            } else {
                other.y
            },
        }
    }

    /// Clamps both components into `[0, max]`, component-wise, yielding an
    /// unsigned coordinate pair.
    pub fn clamp_usize(&self, max: Vec2<usize>) -> (v: Vec2<usize>)
        requires
            max.x <= i64::MAX,
            max.y <= i64::MAX,
        ensures
            v.x == (if self.x < 0 {
                0int
            } else if self.x > max.x {
                max.x as int
            } else {
                self.x as int
            }),
            v.y == (if self.y < 0 {
                0int
            } else if self.y > max.y {
                max.y as int
            } else {
                self.y as int
            }),
    {
        let cx: usize = if self.x < 0 {
            0
        } else if self.x > max.x as i64 {
            max.x
        } else {
            self.x as usize
        };
        let cy: usize = if self.y < 0 {
            0
        } else if self.y > max.y as i64 {
            max.y
        } else {
            self.y as usize
        };
        Vec2 { x: cx, y: cy }
    }

    /// Interprets this pair as a cell coordinate in a grid of the given
    /// size: in-range pairs convert, everything else is rejected.
    pub fn to_grid(&self, size: Vec2<usize>) -> (r: Option<Vec2<usize>>)
        requires
            1 <= size.x <= i64::MAX,
            1 <= size.y <= i64::MAX,
        ensures
            r == (if 0 <= self.x < size.x && 0 <= self.y < size.y {
                Some(Vec2 { x: self.x as usize, y: self.y as usize })
            } else {
                None::<Vec2<usize>>
            }),
    {
        if self.x < 0 || self.y < 0 {
            return None;
        }
        if self.x > size.x as i64 - 1 || self.y > size.y as i64 - 1 {
            return None;
        }
        Some(Vec2 { x: self.x as usize, y: self.y as usize })
    }
}

} // verus!
