use vstd::prelude::*;

verus! {

/// An axis-aligned rectangle given by two opposite corners, both inclusive.
#[derive(Clone, Copy, Debug, PartialEq, Eq, Structural)]
pub struct Rect {
    pub x0: i32,
    pub y0: i32,
    pub xf: i32,
    pub yf: i32,
}

impl Rect {
    pub fn new(x0: i32, y0: i32, xf: i32, yf: i32) -> (r: Rect)
        ensures
            r == (Rect { x0, y0, xf, yf }),
    {
        Rect { x0, y0, xf, yf }
    }

    /// The rectangle with corner `(x, y)` that spans `w` by `h` past it.
    pub fn with_size(x: i32, y: i32, w: i32, h: i32) -> (r: Rect)
        requires
            i32::MIN <= x + w <= i32::MAX,
            i32::MIN <= y + h <= i32::MAX,
        ensures
            r == (Rect { x0: x, y0: y, xf: (x + w) as i32, yf: (y + h) as i32 }),
    {
        Rect { x0: x, y0: y, xf: x + w, yf: y + h }
    }

    /// Whether the two rectangles, corners included, have a cell in common.
    pub fn intersects_with(&self, other: &Rect) -> (r: bool)
        ensures
            r == (self.x0 <= other.xf && self.xf >= other.x0 && self.y0 <= other.yf && self.yf >= other.y0),
    {
        (self.x0 <= other.xf) && (self.xf >= other.x0) && (self.y0 <= other.yf) && (self.yf >= other.y0)
    }

    /// The midpoint of the two corners, rounded down.
    pub open spec fn center_spec(self) -> (int, int) {
        ((self.x0 + self.xf) / 2, (self.y0 + self.yf) / 2)
    }

    pub fn center(&self) -> (r: (i32, i32))
        ensures
            (r.0 as int, r.1 as int) == self.center_spec(),
    {
        (half_down(self.x0 as i64 + self.xf as i64), half_down(self.y0 as i64 + self.yf as i64))
    }
}

fn half_down(s: i64) -> (r: i32)
    requires
        i32::MIN + i32::MIN <= s <= i32::MAX + i32::MAX,
    ensures
        r as int == s as int / 2,
{
    if s >= 0 {
        (s / 2) as i32
    } else {
        let t: i64 = -s;
        let h: i64 = (t + 1) / 2;
        (-h) as i32
    }
}

} // verus!
