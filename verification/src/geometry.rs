//! Points, vectors and axis-aligned boxes of the plane.

use vstd::prelude::*;
use crate::fixed::{
    fx_add, fx_sub, lemma_product_bound, magnitude, saturate, trunc_div, Fixed, LIMIT,
};

verus! {

/// A point or a displacement of the plane, in raw units: the view of a
/// [`Vec2`].
pub struct Point {
    pub x: int,
    pub y: int,
}

/// Whether `r` is the square root of `n`, rounded down.
pub open spec fn is_floor_sqrt(n: int, r: int) -> bool {
    0 <= r && r * r <= n < (r + 1) * (r + 1)
}

/// The square root of `n`, rounded down (`n` is not negative).
pub open spec fn floor_sqrt(n: int) -> int {
    choose|r: int| is_floor_sqrt(n, r)
}

/// The square of the distance between two points, which is a whole number of
/// squared raw units.
pub open spec fn square_distance(a: Point, b: Point) -> int {
    (a.x - b.x) * (a.x - b.x) + (a.y - b.y) * (a.y - b.y)
}

/// The distance between two points, rounded down to a whole number of raw
/// units and stopped at the border of the range of a scalar.
pub open spec fn point_distance(a: Point, b: Point) -> int {
    saturate(floor_sqrt(square_distance(a, b)))
}

/// Only one number is the rounded-down square root of `n`.
pub proof fn lemma_floor_sqrt_unique(n: int, r: int)
    requires
        is_floor_sqrt(n, r),
    ensures
        floor_sqrt(n) == r,
{
    let s = floor_sqrt(n);
    assert(is_floor_sqrt(n, s));
    assert(s == r) by (nonlinear_arith)
        requires
            0 <= r,
            0 <= s,
            r * r <= n < (r + 1) * (r + 1),
            s * s <= n < (s + 1) * (s + 1),
    ;
}

/// Every number that is not negative has a rounded-down square root.
pub proof fn lemma_floor_sqrt_exists(n: int)
    requires
        n >= 0,
    ensures
        is_floor_sqrt(n, floor_sqrt(n)),
    decreases n,
{
    if n == 0 {
        assert(is_floor_sqrt(0, 0));
    } else {
        lemma_floor_sqrt_exists(n - 1);
        let r = floor_sqrt(n - 1);
        if n < (r + 1) * (r + 1) {
            assert(is_floor_sqrt(n, r));
        } else {
            assert(is_floor_sqrt(n, r + 1)) by (nonlinear_arith)
                requires
                    0 <= r,
                    r * r <= n - 1 < (r + 1) * (r + 1),
                    n >= (r + 1) * (r + 1),
            ;
        }
    }
}

/// Two points that are not the same lie a raw unit or more apart.
pub proof fn lemma_distance_of_distinct_points(a: Point, b: Point)
    requires
        a != b,
    ensures
        1 <= point_distance(a, b) <= LIMIT,
{
    let dx = a.x - b.x;
    let dy = a.y - b.y;
    let n = dx * dx + dy * dy;
    assert(n >= 1) by (nonlinear_arith)
        requires
            n == dx * dx + dy * dy,
            dx != 0 || dy != 0,
    ;
    lemma_floor_sqrt_exists(n);
    let r = floor_sqrt(n);
    assert(r >= 1) by (nonlinear_arith)
        requires
            0 <= r,
            n < (r + 1) * (r + 1),
            n >= 1,
    ;
}

/// No square of a distance is negative, and only a point itself lies at no
/// distance from it.
pub proof fn lemma_square_distance(a: Point, b: Point)
    ensures
        square_distance(a, b) >= 0,
        square_distance(a, b) == 0 <==> a == b,
{
    let dx = a.x - b.x;
    let dy = a.y - b.y;
    assert(dx * dx + dy * dy >= 0 && (dx * dx + dy * dy == 0 <==> dx == 0 && dy == 0))
        by (nonlinear_arith);
}

/// Of two pairs of points, the pair with the smaller square of its distance
/// has no larger distance.
pub proof fn lemma_distance_follows_square(a: Point, b: Point, c: Point, d: Point)
    requires
        square_distance(a, b) <= square_distance(c, d),
    ensures
        point_distance(a, b) <= point_distance(c, d),
{
    let m = square_distance(a, b);
    let n = square_distance(c, d);
    lemma_square_distance(a, b);
    lemma_floor_sqrt_exists(m);
    lemma_floor_sqrt_exists(n);
    let r = floor_sqrt(m);
    let s = floor_sqrt(n);
    assert(r <= s) by (nonlinear_arith)
        requires
            0 <= r,
            0 <= s,
            r * r <= m,
            m <= n,
            n < (s + 1) * (s + 1),
    ;
}

/// The rounded-down square root of a square is the magnitude of its root.
pub proof fn lemma_floor_sqrt_of_square(d: int)
    ensures
        floor_sqrt(d * d) == magnitude(d),
{
    let m = magnitude(d);
    assert(is_floor_sqrt(d * d, m)) by (nonlinear_arith)
        requires
            m == magnitude(d),
    ;
    lemma_floor_sqrt_unique(d * d, m);
}

/// Largest number whose square root [`isqrt`] takes: twice the square of the
/// longest difference between two coordinates.
pub const SQRT_DOMAIN: u128 = 8_000_000_000_000_000_000_000_000;

/// The square root of `n`, rounded down.
pub fn isqrt(n: u128) -> (r: u128)
    requires
        n <= SQRT_DOMAIN,
    ensures
        r == floor_sqrt(n as int),
        is_floor_sqrt(n as int, r as int),
        r < 3_000_000_000_000,
{
    let mut lo: u128 = 0;
    let mut hi: u128 = 3_000_000_000_000;
    assert(3_000_000_000_000 * 3_000_000_000_000 > 8_000_000_000_000_000_000_000_000int)
        by (nonlinear_arith);
    while hi - lo > 1
        invariant
            lo < hi <= 3_000_000_000_000,
            lo * lo <= n < hi * hi,
        decreases hi - lo,
    {
        let mid: u128 = lo + (hi - lo) / 2;
        proof {
            lemma_product_bound(mid as int, mid as int, 3_000_000_000_000, 3_000_000_000_000);
        }
        if mid * mid <= n {
            lo = mid;
        } else {
            hi = mid;
        }
    }
    proof {
        assert(hi == lo + 1);
        lemma_floor_sqrt_unique(n as int, lo as int);
    }
    lo
}

/// A point or a displacement of the plane.
#[derive(Clone, Copy, Debug, PartialEq, Eq, Structural, Hash)]
pub struct Vec2 {
    pub x: Fixed,
    pub y: Fixed,
}

impl View for Vec2 {
    type V = Point;

    open spec fn view(&self) -> Point {
        Point { x: self.x@, y: self.y@ }
    }
}

impl Default for Vec2 {
    fn default() -> (r: Vec2)
        ensures
            r@ == (Point { x: 0, y: 0 }),
    {
        Vec2 { x: Fixed::zero(), y: Fixed::zero() }
    }
}

/// The sum of two displacements, each coordinate stopped at the border of the
/// range.
pub open spec fn point_add(a: Point, b: Point) -> Point {
    Point { x: fx_add(a.x, b.x), y: fx_add(a.y, b.y) }
}

impl Vec2 {
    /// The vector of the given coordinates.
    pub fn new(x: Fixed, y: Fixed) -> (r: Vec2)
        ensures
            r.x == x,
            r.y == y,
    {
        Vec2 { x, y }
    }

    /// The vector of no length.
    pub fn zero() -> (r: Vec2)
        ensures
            r@ == (Point { x: 0, y: 0 }),
    {
        Vec2 { x: Fixed::zero(), y: Fixed::zero() }
    }

    /// The sum, each coordinate stopped at the border of the range.
    pub fn add(self, rhs: Vec2) -> (r: Vec2)
        ensures
            r@ == point_add(self@, rhs@),
    {
        Vec2 { x: self.x.add(rhs.x), y: self.y.add(rhs.y) }
    }

    /// The square of the distance from `self` to `other`, in squared raw
    /// units: it is exact.
    pub fn distance_squared(self, other: Vec2) -> (r: u128)
        ensures
            r == square_distance(self@, other@),
            r <= SQRT_DOMAIN,
    {
        let dx: i128 = self.x.raw() as i128 - other.x.raw() as i128;
        let dy: i128 = self.y.raw() as i128 - other.y.raw() as i128;
        proof {
            lemma_product_bound(dx as int, dx as int, 2 * LIMIT, 2 * LIMIT);
            lemma_product_bound(dy as int, dy as int, 2 * LIMIT, 2 * LIMIT);
            assert(dx * dx >= 0 && dy * dy >= 0) by (nonlinear_arith);
            assert((2 * LIMIT) * (2 * LIMIT) == 4_000_000_000_000_000_000_000_000int)
                by (nonlinear_arith);
        }
        let sum: i128 = dx * dx + dy * dy;
        sum as u128
    }

    /// The distance from `self` to `other`.
    pub fn distance(self, other: Vec2) -> (r: Fixed)
        ensures
            r@ == point_distance(self@, other@),
    {
        let root: u128 = isqrt(self.distance_squared(other));
        if root > LIMIT as u128 {
            Fixed::from_raw(LIMIT)
        } else {
            Fixed::from_raw(root as i64)
        }
    }
}

/// An axis-aligned box, given by its corner of least and its corner of
/// greatest coordinates.
#[derive(Clone, Copy, Debug, PartialEq, Eq, Structural, Hash)]
pub struct Aabb {
    pub min: Vec2,
    pub max: Vec2,
}

/// The view of an [`Aabb`].
pub struct Rect {
    pub min: Point,
    pub max: Point,
}

impl View for Aabb {
    type V = Rect;

    open spec fn view(&self) -> Rect {
        Rect { min: self.min@, max: self.max@ }
    }
}

/// `b` with each side moved outward by `amount` (inward where `amount` is
/// negative).
pub open spec fn rect_expand(b: Rect, amount: Point) -> Rect {
    Rect {
        min: Point { x: fx_sub(b.min.x, amount.x), y: fx_sub(b.min.y, amount.y) },
        max: Point { x: fx_add(b.max.x, amount.x), y: fx_add(b.max.y, amount.y) },
    }
}

/// `b` moved by `offset`.
pub open spec fn rect_translate(b: Rect, offset: Point) -> Rect {
    Rect { min: point_add(b.min, offset), max: point_add(b.max, offset) }
}

/// The width and height of `b`.
pub open spec fn rect_size(b: Rect) -> Point {
    Point { x: fx_sub(b.max.x, b.min.x), y: fx_sub(b.max.y, b.min.y) }
}

impl Aabb {
    /// The box between the two corners.
    pub fn new(min: Vec2, max: Vec2) -> (r: Aabb)
        ensures
            r.min == min,
            r.max == max,
    {
        Aabb { min, max }
    }

    /// The box of the given width and height around the point of zero
    /// coordinates. A half that falls between two raw units is rounded toward
    /// zero.
    pub fn from_size(width: Fixed, height: Fixed) -> (r: Aabb)
        ensures
            r@.max == (Point { x: trunc_div(width@, 2), y: trunc_div(height@, 2) }),
            r@.min == (Point { x: -trunc_div(width@, 2), y: -trunc_div(height@, 2) }),
    {
        let hx = width.div_int(2);
        let hy = height.div_int(2);
        Aabb { min: Vec2 { x: hx.neg(), y: hy.neg() }, max: Vec2 { x: hx, y: hy } }
    }

    /// The corner of least coordinates.
    pub fn min(&self) -> (r: Vec2)
        ensures
            r == self.min,
    {
        self.min
    }

    /// The corner of greatest coordinates.
    pub fn max(&self) -> (r: Vec2)
        ensures
            r == self.max,
    {
        self.max
    }

    /// The box with each side moved outward by `amount`.
    pub fn expand(&self, amount: Vec2) -> (r: Aabb)
        ensures
            r@ == rect_expand(self@, amount@),
    {
        Aabb {
            min: Vec2 { x: self.min.x.sub(amount.x), y: self.min.y.sub(amount.y) },
            max: Vec2 { x: self.max.x.add(amount.x), y: self.max.y.add(amount.y) },
        }
    }

    /// The box moved by `offset`.
    pub fn translate(&self, offset: Vec2) -> (r: Aabb)
        ensures
            r@ == rect_translate(self@, offset@),
    {
        Aabb { min: self.min.add(offset), max: self.max.add(offset) }
    }

    /// The width and height of the box.
    pub fn size(&self) -> (r: Vec2)
        ensures
            r@ == rect_size(self@),
    {
        Vec2 { x: self.max.x.sub(self.min.x), y: self.max.y.sub(self.min.y) }
    }
}

} // verus!
