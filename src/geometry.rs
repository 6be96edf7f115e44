//! Points, sizes and inclusive rectangles on a signed integer grid.

use vstd::prelude::*;

verus! {

/// The value of `v` clamped into the range of `i32`.
pub open spec fn sat_i32(v: int) -> i32 {
    if v > i32::MAX {
        i32::MAX
    } else if v < i32::MIN {
        i32::MIN
    } else {
        v as i32
    }
}

/// `v - 1`, or zero for zero.
pub open spec fn pred_or_zero(v: usize) -> usize {
    if v == 0 {
        0
    } else {
        (v - 1) as usize
    }
}

pub open spec fn abs_int(v: int) -> int {
    if v < 0 {
        -v
    } else {
        v
    }
}

pub open spec fn max_i32(a: i32, b: i32) -> i32 {
    if a >= b {
        a
    } else {
        b
    }
}

pub open spec fn min_i32(a: i32, b: i32) -> i32 {
    if a <= b {
        a
    } else {
        b
    }
}

/// Adds two `i32`s, clamping the result into the range of `i32`.
fn saturating_add_i32(a: i32, b: i32) -> (r: i32)
    ensures
        r == sat_i32(a + b),
{
    let s: i64 = a as i64 + b as i64;
    if s > i32::MAX as i64 {
        i32::MAX
    } else if s < i32::MIN as i64 {
        i32::MIN
    } else {
        s as i32
    }
}

/// Subtracts `b` from `a`, clamping the result into the range of `i32`.
fn saturating_sub_i32(a: i32, b: i32) -> (r: i32)
    ensures
        r == sat_i32(a - b),
{
    let s: i64 = a as i64 - b as i64;
    if s > i32::MAX as i64 {
        i32::MAX
    } else if s < i32::MIN as i64 {
        i32::MIN
    } else {
        s as i32
    }
}

/// Moves `a` by `d` (`d` positive or negative), clamping into the range of `i32`.
fn shift_i32(a: i32, d: i64) -> (r: i32)
    requires
        -0x1_0000_0000 <= d <= 0x1_0000_0000,
    ensures
        r == sat_i32(a + d),
{
    let s: i64 = a as i64 + d;
    if s > i32::MAX as i64 {
        i32::MAX
    } else if s < i32::MIN as i64 {
        i32::MIN
    } else {
        s as i32
    }
}

/// A point in a 2D space.
#[derive(Clone, Copy, Debug, PartialEq, Eq, Structural)]
pub struct Point {
    pub x: i32,
    pub y: i32,
}

impl Point {
    /// The origin `(0, 0)`.
    pub fn origin() -> (r: Point)
        ensures
            r.x == 0 && r.y == 0,
    {
        Point { x: 0, y: 0 }
    }

    /// Component-wise addition that clamps instead of overflowing.
    pub fn add(self, p: Point) -> (r: Point)
        ensures
            r.x == sat_i32(self.x + p.x),
            r.y == sat_i32(self.y + p.y),
    {
        Point { x: saturating_add_i32(self.x, p.x), y: saturating_add_i32(self.y, p.y) }
    }
}

/// Dimensions of a board, in cells.
#[derive(Clone, Copy, Debug, PartialEq, Eq, Structural)]
pub struct Size {
    pub x: usize,
    pub y: usize,
}

/// The number of cells that an area spans along one axis, inclusive of both
/// ends, computed with clamping arithmetic.
pub open spec fn span(lo: i32, hi: i32) -> usize {
    abs_int(sat_i32(sat_i32(hi - lo) + 1) as int) as usize
}

impl Size {
    /// The total number of cells: `x * y`.
    pub fn count(&self) -> (r: usize)
        requires
            self.x * self.y <= usize::MAX,
        ensures
            r == self.x * self.y,
    {
        self.x * self.y
    }
}

/// An inclusive rectangle from its top-left point `.0` to its bottom-right
/// point `.1`.
#[derive(Clone, Copy, Debug, PartialEq, Eq, Structural)]
pub struct Area(pub Point, pub Point);

impl Area {
    /// The box around `p` that reaches `radius` cells in every direction (a
    /// radius of 1 gives a 3x3 area), not clamped to any board.
    pub fn around_point(p: Point, radius: usize) -> (r: Area)
        ensures
            r.0.x == sat_i32(p.x - radius),
            r.0.y == sat_i32(p.y - radius),
            r.1.x == sat_i32(p.x + radius),
            r.1.y == sat_i32(p.y + radius),
    {
        let d: i64 = if radius as u64 > 0x1_0000_0000u64 { 0x1_0000_0000 } else { radius as i64 };
        Area(
            Point { x: shift_i32(p.x, -d), y: shift_i32(p.y, -d) },
            Point { x: shift_i32(p.x, d), y: shift_i32(p.y, d) },
        )
    }

    /// Whether `p` lies inside the area, boundaries included.
    pub fn contains(&self, p: Point) -> (r: bool)
        ensures
            r == (self.0.x <= p.x <= self.1.x && self.0.y <= p.y <= self.1.y),
    {
        let Area(min, max) = *self;
        p.x >= min.x && p.x <= max.x && p.y >= min.y && p.y <= max.y
    }

    /// The same area moved so that its top-left point is the origin.
    pub fn normalize(&self) -> (r: Area)
        ensures
            r.0.x == 0 && r.0.y == 0,
            r.1.x == sat_i32(self.1.x - self.0.x),
            r.1.y == sat_i32(self.1.y - self.0.y),
    {
        let Area(min, max) = *self;
        Area(
            Point::origin(),
            Point { x: saturating_sub_i32(max.x, min.x), y: saturating_sub_i32(max.y, min.y) },
        )
    }

    /// The point at row-major position `pos` of the area's own grid, counted
    /// from its top-left corner.
    pub fn point_from_pos(self, pos: usize) -> (r: Point)
        requires
            span(self.0.x, self.1.x) > 0,
            pos as int / (span(self.0.x, self.1.x) as int) <= i32::MAX,
        ensures
            r.x == pos as int % (span(self.0.x, self.1.x) as int),
            r.y == pos as int / (span(self.0.x, self.1.x) as int),
    {
        let n = Size::from(self);
        let x = pos % n.x;
        let y = pos / n.x;
        assert(x < n.x);
        assert(n.x <= i32::MAX + 1) by {
            assert(span(self.0.x, self.1.x) <= i32::MAX + 1);
        }
        Point { x: x as i32, y: y as i32 }
    }

    /// The overlap of two areas. Where they are disjoint the result is
    /// inverted (`max < min` on some axis) and holds no point.
    pub fn intersecting_area(&self, a: Area) -> (r: Area)
        ensures
            r.0.x == max_i32(self.0.x, a.0.x),
            r.0.y == max_i32(self.0.y, a.0.y),
            r.1.x == min_i32(self.1.x, a.1.x),
            r.1.y == min_i32(self.1.y, a.1.y),
    {
        Area(
            Point {
                x: if self.0.x >= a.0.x { self.0.x } else { a.0.x },
                y: if self.0.y >= a.0.y { self.0.y } else { a.0.y },
            },
            Point {
                x: if self.1.x <= a.1.x { self.1.x } else { a.1.x },
                y: if self.1.y <= a.1.y { self.1.y } else { a.1.y },
            },
        )
    }

    /// The point of the area nearest to `p`, moving each axis independently.
    pub fn clamp_point(&self, p: Point) -> (r: Point)
        ensures
            r.x == min_i32(max_i32(p.x, self.0.x), self.1.x),
            r.y == min_i32(max_i32(p.y, self.0.y), self.1.y),
    {
        let lx = if p.x < self.0.x { self.0.x } else { p.x };
        let ly = if p.y < self.0.y { self.0.y } else { p.y };
        Point {
            x: if lx > self.1.x { self.1.x } else { lx },
            y: if ly > self.1.y { self.1.y } else { ly },
        }
    }
}

/// The largest point of a board of size `value`: `(x - 1, y - 1)`, each
/// taken as zero for an empty dimension.
impl From<Size> for Point {
    fn from(value: Size) -> Point {
        let x: usize = if value.x == 0 { 0 } else { value.x - 1 };
        let y: usize = if value.y == 0 { 0 } else { value.y - 1 };
        Point { x: x as i32, y: y as i32 }
    }
}

impl vstd::std_specs::convert::FromSpecImpl<Size> for Point {
    open spec fn obeys_from_spec() -> bool {
        true
    }

    open spec fn from_spec(value: Size) -> Point {
        Point { x: pred_or_zero(value.x) as i32, y: pred_or_zero(value.y) as i32 }
    }
}

/// The size of an area, counting both of its boundaries. An inverted area
/// (`max < min` on an axis) has no meaningful size; the result there is
/// whatever the clamping arithmetic gives.
impl From<Area> for Size {
    fn from(a: Area) -> Size {
        let n = a.normalize();
        let sx = saturating_add_i32(n.1.x, 1);
        let sy = saturating_add_i32(n.1.y, 1);
        let ax: u32 = if sx < 0 { (-(sx as i64)) as u32 } else { sx as u32 };
        let ay: u32 = if sy < 0 { (-(sy as i64)) as u32 } else { sy as u32 };
        Size { x: ax as usize, y: ay as usize }
    }
}

impl vstd::std_specs::convert::FromSpecImpl<Area> for Size {
    open spec fn obeys_from_spec() -> bool {
        true
    }

    open spec fn from_spec(a: Area) -> Size {
        Size { x: span(a.0.x, a.1.x), y: span(a.0.y, a.1.y) }
    }
}

/// The area covered by a board of size `value`, from the origin to
/// `Point::from(value)`.
impl From<Size> for Area {
    fn from(value: Size) -> Area {
        Area::from(Point::from(value))
    }
}

impl vstd::std_specs::convert::FromSpecImpl<Size> for Area {
    open spec fn obeys_from_spec() -> bool {
        true
    }

    open spec fn from_spec(value: Size) -> Area {
        Area(Point { x: 0, y: 0 }, Point { x: pred_or_zero(value.x) as i32, y: pred_or_zero(value.y) as i32 })
    }
}

/// The area from the origin to `value`.
impl From<Point> for Area {
    fn from(value: Point) -> Area {
        Area(Point::origin(), value)
    }
}

impl vstd::std_specs::convert::FromSpecImpl<Point> for Area {
    open spec fn obeys_from_spec() -> bool {
        true
    }

    open spec fn from_spec(value: Point) -> Area {
        Area(Point { x: 0, y: 0 }, value)
    }
}

} // verus!
