use vstd::prelude::*;

verus! {

/// A signed integer 2D vector (world and chunk coordinates).
#[derive(Clone, Copy, Debug, PartialEq, Eq, Structural, Hash)]
pub struct IVec2 {
    pub x: i32,
    pub y: i32,
}

/// An unsigned integer 2D vector (positions of atoms inside a chunk).
#[derive(Clone, Copy, Debug, PartialEq, Eq, Structural, Hash)]
pub struct UVec2 {
    pub x: u32,
    pub y: u32,
}

/// An unsigned integer rectangle, both corners inclusive.
#[derive(Clone, Copy, Debug, PartialEq, Eq, Structural, Hash)]
pub struct URect {
    pub min: UVec2,
    pub max: UVec2,
}

/// A signed integer rectangle, both corners inclusive.
#[derive(Clone, Copy, Debug, PartialEq, Eq, Structural, Hash)]
pub struct IRect {
    pub min: IVec2,
    pub max: IVec2,
}

/// The smaller of two integers.
pub open spec fn min_int(a: int, b: int) -> int {
    if a <= b { a } else { b }
}

/// The larger of two integers.
pub open spec fn max_int(a: int, b: int) -> int {
    if a >= b { a } else { b }
}

/// The key under which a position is stored in the maps of chunks and rects.
pub open spec fn key_of(v: IVec2) -> (i32, i32) {
    (v.x, v.y)
}

/// The key under which a position is stored in the maps of chunks and rects.
pub fn key(v: IVec2) -> (k: (i32, i32))
    ensures
        k == key_of(v),
{
    (v.x, v.y)
}

/// The position stored under a key.
pub fn from_key(k: (i32, i32)) -> (v: IVec2)
    ensures
        key_of(v) == k,
{
    IVec2 { x: k.0, y: k.1 }
}

impl IVec2 {
    pub fn new(x: i32, y: i32) -> (v: IVec2)
        ensures
            v.x == x,
            v.y == y,
    {
        IVec2 { x, y }
    }
}

impl UVec2 {
    pub fn new(x: u32, y: u32) -> (v: UVec2)
        ensures
            v.x == x,
            v.y == y,
    {
        UVec2 { x, y }
    }
}

/// `ivec2(x, y)` builds an `IVec2`.
pub fn ivec2(x: i32, y: i32) -> (v: IVec2)
    ensures
        v.x == x,
        v.y == y,
{
    IVec2 { x, y }
}

/// `uvec2(x, y)` builds a `UVec2`.
pub fn uvec2(x: u32, y: u32) -> (v: UVec2)
    ensures
        v.x == x,
        v.y == y,
{
    UVec2 { x, y }
}

impl URect {
    /// Whether the point lies in the rectangle (corners included).
    pub open spec fn spec_contains(self, p: UVec2) -> bool {
        self.min.x <= p.x <= self.max.x && self.min.y <= p.y <= self.max.y
    }

    /// The rectangle spanned by two corners, in any order.
    pub fn new(x0: u32, y0: u32, x1: u32, y1: u32) -> (r: URect)
        ensures
            r.min.x == min_int(x0 as int, x1 as int),
            r.min.y == min_int(y0 as int, y1 as int),
            r.max.x == max_int(x0 as int, x1 as int),
            r.max.y == max_int(y0 as int, y1 as int),
    {
        let (min_x, max_x) = if x0 <= x1 { (x0, x1) } else { (x1, x0) };
        let (min_y, max_y) = if y0 <= y1 { (y0, y1) } else { (y1, y0) };
        URect { min: UVec2 { x: min_x, y: min_y }, max: UVec2 { x: max_x, y: max_y } }
    }

    /// Whether the point lies in the rectangle (corners included).
    pub fn contains(&self, p: UVec2) -> (b: bool)
        ensures
            b == self.spec_contains(p),
    {
        self.min.x <= p.x && p.x <= self.max.x && self.min.y <= p.y && p.y <= self.max.y
    }
}

impl IRect {
    /// Whether the point lies in the rectangle (corners included).
    pub open spec fn spec_contains(self, p: IVec2) -> bool {
        self.min.x <= p.x <= self.max.x && self.min.y <= p.y <= self.max.y
    }

    /// The rectangle spanned by two corners, in any order.
    pub fn new(x0: i32, y0: i32, x1: i32, y1: i32) -> (r: IRect)
        ensures
            r.min.x == min_int(x0 as int, x1 as int),
            r.min.y == min_int(y0 as int, y1 as int),
            r.max.x == max_int(x0 as int, x1 as int),
            r.max.y == max_int(y0 as int, y1 as int),
    {
        let (min_x, max_x) = if x0 <= x1 { (x0, x1) } else { (x1, x0) };
        let (min_y, max_y) = if y0 <= y1 { (y0, y1) } else { (y1, y0) };
        IRect { min: IVec2 { x: min_x, y: min_y }, max: IVec2 { x: max_x, y: max_y } }
    }

    /// Whether the point lies in the rectangle (corners included).
    pub fn contains(&self, p: IVec2) -> (b: bool)
        ensures
            b == self.spec_contains(p),
    {
        self.min.x <= p.x && p.x <= self.max.x && self.min.y <= p.y && p.y <= self.max.y
    }
}

} // verus!

verus! {

/// The absolute value of `x`.
pub fn abs_i32(x: i32) -> (r: i32)
    requires
        x > i32::MIN,
    ensures
        r == if x < 0 { -x } else { x as int },
{
    if x < 0 { -x } else { x }
}

/// The sign of `x`: `-1`, `0` or `1`.
pub fn signum_i32(x: i32) -> (r: i32)
    ensures
        r == if x < 0 { -1 } else if x == 0 { 0 } else { 1int },
{
    if x < 0 {
        -1
    } else if x == 0 {
        0
    } else {
        1
    }
}

} // verus!
