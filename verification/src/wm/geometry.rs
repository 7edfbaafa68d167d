//! Rectangles on the screen.
//!
//! Lengths are whole thousandths of a point and split ratios are whole
//! thousandths, so every computation here is exact integer arithmetic.
//! A result that leaves the range of `i64` is brought back to its nearest end.
use vstd::prelude::*;

verus! {

/// Thousandths of a point in one point.
pub const POINT: i64 = 1000;

/// Ratio that gives both children of a split the same share.
pub const HALF: i64 = 500;

/// Ratio of a whole.
pub const WHOLE: i64 = 1000;

/// Smallest ratio that resizing reaches.
pub const RATIO_MIN: i64 = 100;

/// Largest ratio that resizing reaches.
pub const RATIO_MAX: i64 = 900;

/// Horizontal distance by which each background window of a stack shows.
pub const STACK_REVEAL_OFFSET_X: i64 = 4000;

/// Vertical distance by which each background window of a stack shows.
pub const STACK_REVEAL_OFFSET_Y: i64 = 4000;

/// The integer of the `i64` range that is nearest to `v`.
pub open spec fn fit(v: int) -> i64 {
    if v < i64::MIN {
        i64::MIN
    } else if v > i64::MAX {
        i64::MAX
    } else {
        v as i64
    }
}

/// Brings a wide value back into the `i64` range.
pub fn fit_i64(v: i128) -> (r: i64)
    ensures
        r == fit(v as int),
{
    if v < i64::MIN as i128 {
        i64::MIN
    } else if v > i64::MAX as i128 {
        i64::MAX
    } else {
        v as i64
    }
}

/// Quotient of `a` by a positive `b`, rounded down.
pub fn floor_div(a: i128, b: i128) -> (r: i128)
    requires
        0 < b <= 1000,
        a > i128::MIN + 1000,
    ensures
        r == a as int / b as int,
{
    if a >= 0 {
        a / b
    } else {
        let n: i128 = (b - 1) - a;
        let q: i128 = n / b;
        assert(-(n as int / b as int) == a as int / b as int) by (nonlinear_arith)
            requires
                n == b - 1 - a,
                b > 0,
        ;
        assert(0 <= n as int / b as int <= n) by (nonlinear_arith)
            requires
                n >= 0,
                b > 0,
        ;
        -q
    }
}

/// How a node divides its rectangle.
#[derive(Clone, Copy, Debug, PartialEq, Eq, Structural)]
pub enum SplitDirection {
    /// One above the other.
    Horizontal,
    /// Side by side.
    Vertical,
}

/// A direction on the screen.
#[derive(Clone, Copy, Debug, PartialEq, Eq, Structural, Hash)]
pub enum Direction {
    Left,
    Right,
    Up,
    Down,
}

/// An axis-parallel rectangle with its origin at the top left.
#[derive(Clone, Copy, Debug, PartialEq, Eq, Structural)]
pub struct Rect {
    pub x: i64,
    pub y: i64,
    pub width: i64,
    pub height: i64,
}

impl Default for Rect {
    fn default() -> (r: Self)
        ensures
            r == (Rect { x: 0, y: 0, width: 0, height: 0 }),
    {
        Rect { x: 0, y: 0, width: 0, height: 0 }
    }
}

impl Rect {
    /// Twice the horizontal centre, which is always a whole number.
    pub open spec fn twice_center_x(self) -> int {
        2 * self.x + self.width
    }

    /// Twice the vertical centre, which is always a whole number.
    pub open spec fn twice_center_y(self) -> int {
        2 * self.y + self.height
    }

    /// The two parts that a split at `ratio` gives: the first takes its share
    /// of the length rounded down, the second what is left.
    pub open spec fn parts(self, direction: SplitDirection, ratio: i64) -> (Rect, Rect) {
        match direction {
            SplitDirection::Vertical => {
                let s = fit(self.width * ratio / 1000);
                (
                    Rect { x: self.x, y: self.y, width: s, height: self.height },
                    Rect {
                        x: fit(self.x + s),
                        y: self.y,
                        width: fit(self.width - s),
                        height: self.height,
                    },
                )
            },
            SplitDirection::Horizontal => {
                let s = fit(self.height * ratio / 1000);
                (
                    Rect { x: self.x, y: self.y, width: self.width, height: s },
                    Rect {
                        x: self.x,
                        y: fit(self.y + s),
                        width: self.width,
                        height: fit(self.height - s),
                    },
                )
            },
        }
    }

    /// Whether the point lies inside; the right and bottom edges are outside.
    pub open spec fn has_point(self, px: int, py: int) -> bool {
        self.x <= px < self.x + self.width && self.y <= py < self.y + self.height
    }

    pub fn new(x: i64, y: i64, width: i64, height: i64) -> (r: Self)
        ensures
            r == (Rect { x, y, width, height }),
    {
        Rect { x, y, width, height }
    }

    /// Splits the rectangle, giving the first part `ratio` thousandths.
    pub fn split(&self, direction: SplitDirection, ratio: i64) -> (r: (Rect, Rect))
        ensures
            r == self.parts(direction, ratio),
    {
        match direction {
            SplitDirection::Vertical => {
                let s: i64 = share(self.width, ratio);
                (
                    Rect { x: self.x, y: self.y, width: s, height: self.height },
                    Rect {
                        x: fit_i64(self.x as i128 + s as i128),
                        y: self.y,
                        width: fit_i64(self.width as i128 - s as i128),
                        height: self.height,
                    },
                )
            },
            SplitDirection::Horizontal => {
                let s: i64 = share(self.height, ratio);
                (
                    Rect { x: self.x, y: self.y, width: self.width, height: s },
                    Rect {
                        x: self.x,
                        y: fit_i64(self.y as i128 + s as i128),
                        width: self.width,
                        height: fit_i64(self.height as i128 - s as i128),
                    },
                )
            },
        }
    }

    /// The centre, each coordinate rounded down.
    pub fn center(&self) -> (r: (i64, i64))
        ensures
            r.0 == fit(self.twice_center_x() / 2),
            r.1 == fit(self.twice_center_y() / 2),
    {
        let cx: i128 = 2 * (self.x as i128) + self.width as i128;
        let cy: i128 = 2 * (self.y as i128) + self.height as i128;
        (fit_i64(floor_div(cx, 2)), fit_i64(floor_div(cy, 2)))
    }

    pub fn contains_point(&self, px: i64, py: i64) -> (r: bool)
        ensures
            r == self.has_point(px as int, py as int),
    {
        px >= self.x && (px as i128) < self.x as i128 + self.width as i128 && py >= self.y
            && (py as i128) < self.y as i128 + self.height as i128
    }
}

/// `ratio` thousandths of a length, rounded down.
pub fn share(length: i64, ratio: i64) -> (r: i64)
    ensures
        r == fit(length * ratio / 1000),
{
    assert(-0x4000_0000_0000_0000_0000_0000_0000_0000 <= length * ratio
        <= 0x4000_0000_0000_0000_0000_0000_0000_0000) by (nonlinear_arith);
    let product: i128 = length as i128 * ratio as i128;
    fit_i64(floor_div(product, 1000))
}

} // verus!
