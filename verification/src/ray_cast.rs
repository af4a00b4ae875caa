//! Rays against line segments, rectangles and sets of rectangles.
//!
//! A ray starts at its origin and runs along its direction, without end or up
//! to a maximum length. It meets a segment where the two lines cross strictly
//! inside the segment and strictly ahead of the origin. The origin itself is
//! never a hit: a crossing so near that it rounds to the origin does not
//! count. The crossing is rounded toward the origin of the ray. Of several
//! crossings the nearest counts, whatever the order in which they were found:
//! the one whose rounded place has the least exact square of its distance, and
//! of two at one distance the one of lesser coordinates.

use vstd::prelude::*;
use crate::fixed::{lemma_product_bound, magnitude, option_view, trunc_div, Fixed, LIMIT};
use crate::geometry::{
    lemma_distance_of_distinct_points, point_distance, rect_translate, square_distance, Aabb,
    Point, Rect, Vec2,
};
use crate::ray_lemmas::{lemma_crossing_is_on_segment, lemma_nearest_push};

verus! {

/// The view of a [`Ray`].
pub struct RayModel {
    pub origin: Point,
    pub direction: Point,
    pub length: Option<int>,
}

/// The view of a [`RayHit`].
pub struct Hit {
    pub position: Point,
    pub distance: int,
}

/// The view of an [`Edge`].
pub struct Segment {
    pub start: Point,
    pub end: Point,
}

/// A half-line, or a segment of one, along which obstacles are looked for.
#[derive(Clone, Copy, Debug)]
pub struct Ray {
    origin: Vec2,
    direction: Vec2,
    length: Option<Fixed>,
}

impl View for Ray {
    type V = RayModel;

    closed spec fn view(&self) -> RayModel {
        RayModel {
            origin: self.origin@,
            direction: self.direction@,
            length: option_view(self.length),
        }
    }
}

/// Whether a displacement has a direction: it is not zero.
pub open spec fn has_direction(d: Point) -> bool {
    d.x != 0 || d.y != 0
}

impl Ray {
    #[verifier::type_invariant]
    spec fn inv(self) -> bool {
        has_direction(self.direction@)
    }

    /// A ray without end from `origin` along `direction`.
    pub fn new(origin: Vec2, direction: Vec2) -> (r: Ray)
        requires
            has_direction(direction@),
        ensures
            r@ == (RayModel { origin: origin@, direction: direction@, length: None }),
    {
        Ray { origin, direction, length: None }
    }

    /// The same ray, ending at `length` from its origin.
    pub fn with_length(self, length: Fixed) -> (r: Ray)
        ensures
            r@ == (RayModel { length: Some(length@), ..self@ }),
    {
        proof {
            use_type_invariant(&self);
        }
        Ray { origin: self.origin, direction: self.direction, length: Some(length) }
    }

    /// Where the ray starts.
    pub fn origin(&self) -> (r: Vec2)
        ensures
            r@ == self@.origin,
    {
        self.origin
    }

    /// The direction of the ray, which is not zero.
    pub fn direction(&self) -> (r: Vec2)
        ensures
            r@ == self@.direction,
            has_direction(r@),
    {
        proof {
            use_type_invariant(self);
        }
        self.direction
    }

    /// How far the ray runs, if it ends.
    pub fn length(&self) -> (r: Option<Fixed>)
        ensures
            option_view(r) == self@.length,
    {
        self.length
    }
}

/// Where a ray met an obstacle, and how far from its origin.
#[derive(Clone, Copy, Debug)]
pub struct RayHit {
    pub position: Vec2,
    pub distance: Fixed,
}

impl View for RayHit {
    type V = Hit;

    open spec fn view(&self) -> Hit {
        Hit { position: self.position@, distance: self.distance@ }
    }
}

/// The view of what a ray cast returns.
pub open spec fn hit_view(hit: Option<RayHit>) -> Option<Hit> {
    match hit {
        Some(h) => Some(h@),
        None => None,
    }
}

/// A line segment between two points.
pub struct Edge(pub Vec2, pub Vec2);

impl View for Edge {
    type V = Segment;

    open spec fn view(&self) -> Segment {
        Segment { start: self.0@, end: self.1@ }
    }
}

/// The determinant of the directions of segment and ray: zero where they are
/// parallel.
pub open spec fn cross_den(e: Segment, r: RayModel) -> int {
    (e.start.y - e.end.y) * r.direction.x - (e.start.x - e.end.x) * r.direction.y
}

/// `cross_den` times the place of the crossing along the segment, counted
/// from zero at its start to one at its end.
pub open spec fn cross_along_edge(e: Segment, r: RayModel) -> int {
    (e.start.y - r.origin.y) * r.direction.x - (e.start.x - r.origin.x) * r.direction.y
}

/// `cross_den` times the place of the crossing along the ray, counted in
/// lengths of its direction from its origin.
pub open spec fn cross_along_ray(e: Segment, r: RayModel) -> int {
    (e.start.y - e.end.y) * (e.start.x - r.origin.x) - (e.start.x - e.end.x) * (e.start.y
        - r.origin.y)
}

/// Whether the line of the ray crosses the segment strictly between its ends
/// and strictly ahead of the origin of the ray.
pub open spec fn crosses(e: Segment, r: RayModel) -> bool {
    let den = cross_den(e, r);
    let t = cross_along_edge(e, r);
    let u = cross_along_ray(e, r);
    ||| den > 0 && 0 < t < den && u > 0
    ||| den < 0 && den < t < 0 && u < 0
}

/// How far the crossing lies from the origin of the ray, each coordinate
/// rounded toward zero: the direction of the ray, as many times as the
/// crossing lies along the ray.
pub open spec fn cross_offset(e: Segment, r: RayModel) -> Point {
    let den = cross_den(e, r);
    let u = cross_along_ray(e, r);
    Point { x: trunc_div(u * r.direction.x, den), y: trunc_div(u * r.direction.y, den) }
}

/// The crossing point, each coordinate rounded toward the origin of the ray.
/// It does not depend on which end of the segment comes first.
pub open spec fn cross_point(e: Segment, r: RayModel) -> Point {
    let offset = cross_offset(e, r);
    Point { x: r.origin.x + offset.x, y: r.origin.y + offset.y }
}

/// Whether a hit at `distance` lies within the length of the ray.
pub open spec fn within_length(r: RayModel, distance: int) -> bool {
    match r.length {
        Some(l) => l >= distance,
        None => true,
    }
}

/// The hit of a ray on a segment, if there is one: the crossing point and its
/// distance from the origin, where the ray crosses the segment at a point
/// other than its origin and within its length.
pub open spec fn edge_hit(e: Segment, r: RayModel) -> Option<Hit> {
    let p = cross_point(e, r);
    let d = point_distance(p, r.origin);
    if crosses(e, r) && p != r.origin && within_length(r, d) {
        Some(Hit { position: p, distance: d })
    } else {
        None
    }
}

/// Whether hit `a` comes before hit `b` for a ray from `origin`: it lies
/// nearer by the exact square of the distance of its place, or as near and at
/// a lesser x, or as near, at the same x and at a lesser y. Of two hits at
/// different places one comes before the other.
pub open spec fn comes_before(origin: Point, a: Hit, b: Hit) -> bool {
    let near = square_distance(a.position, origin);
    let far = square_distance(b.position, origin);
    ||| near < far
    ||| near == far && a.position.x < b.position.x
    ||| near == far && a.position.x == b.position.x && a.position.y < b.position.y
}

/// The nearer of the hit kept so far and a new one: the new one where it
/// comes before the one kept.
pub open spec fn nearer(origin: Point, kept: Option<Hit>, hit: Option<Hit>) -> Option<Hit> {
    match hit {
        Some(h) => match kept {
            Some(k) => if comes_before(origin, h, k) {
                hit
            } else {
                kept
            },
            None => hit,
        },
        None => kept,
    }
}

/// The nearest of a sequence of hits of a ray from `origin`: the one that
/// comes before all others, wherever it stands in the sequence.
pub open spec fn nearest(origin: Point, hits: Seq<Option<Hit>>) -> Option<Hit>
    decreases hits.len(),
{
    if hits.len() == 0 {
        None
    } else {
        nearer(origin, nearest(origin, hits.drop_last()), hits.last())
    }
}

/// The four sides of a rectangle: top, right, bottom, left, each running
/// clockwise.
pub open spec fn rect_edges(b: Rect) -> Seq<Segment> {
    let top_left = Point { x: b.min.x, y: b.max.y };
    let top_right = Point { x: b.max.x, y: b.max.y };
    let bottom_left = Point { x: b.min.x, y: b.min.y };
    let bottom_right = Point { x: b.max.x, y: b.min.y };
    seq![
        Segment { start: top_left, end: top_right },
        Segment { start: top_right, end: bottom_right },
        Segment { start: bottom_right, end: bottom_left },
        Segment { start: bottom_left, end: top_left },
    ]
}

/// The hits of a ray on each side of a rectangle.
pub open spec fn rect_hits(b: Rect, r: RayModel) -> Seq<Option<Hit>> {
    Seq::new(4, |i: int| edge_hit(rect_edges(b)[i], r))
}

/// The nearest hit of a ray on the sides of a rectangle.
pub open spec fn rect_hit(b: Rect, r: RayModel) -> Option<Hit> {
    nearest(r.origin, rect_hits(b, r))
}

/// The hits of a ray on each rectangle of a sequence.
pub open spec fn scene_hits(scene: Seq<Rect>, r: RayModel) -> Seq<Option<Hit>> {
    Seq::new(scene.len(), |i: int| rect_hit(scene[i], r))
}

/// The nearest hit of a ray on the rectangles of a sequence.
pub open spec fn scene_hit(scene: Seq<Rect>, r: RayModel) -> Option<Hit> {
    nearest(r.origin, scene_hits(scene, r))
}

/// What a ray can be cast against.
pub trait RayCast {
    /// The hit that a cast of `ray` returns.
    spec fn cast(&self, ray: RayModel) -> Option<Hit>;

    /// The nearest hit of `ray`, if it meets anything within its length. A
    /// hit lies ahead of the origin of the ray: not at the origin, and at a
    /// distance above zero.
    fn ray_cast(&self, ray: Ray) -> (hit: Option<RayHit>)
        ensures
            hit_view(hit) == self.cast(ray@),
            hit matches Some(h) ==> h.distance@ > 0 && h.position@ != ray@.origin,
    ;
}

/// `along * step / den` rounded toward zero, computed on magnitudes.
fn rounded_offset(along: i128, step: i128, den: i128) -> (r: i128)
    requires
        -8 * LIMIT * LIMIT <= along <= 8 * LIMIT * LIMIT,
        -LIMIT <= step <= LIMIT,
        den != 0,
        -4 * LIMIT * LIMIT <= den <= 4 * LIMIT * LIMIT,
    ensures
        r == trunc_div(along * step, den as int),
{
    let a: u128 = if along < 0 {
        (-along) as u128
    } else {
        along as u128
    };
    let m: u128 = if step < 0 {
        (-step) as u128
    } else {
        step as u128
    };
    let d: u128 = if den < 0 {
        (-den) as u128
    } else {
        den as u128
    };
    proof {
        assert(8 * LIMIT * LIMIT == 8_000_000_000_000_000_000_000_000int) by (nonlinear_arith);
        lemma_product_bound(a as int, m as int, 8_000_000_000_000_000_000_000_000, LIMIT as int);
        assert(magnitude(along * step) == a * m) by (nonlinear_arith)
            requires
                a == magnitude(along as int),
                m == magnitude(step as int),
        ;
        assert((along * step >= 0) == ((along >= 0) == (step >= 0) || along == 0 || step == 0))
            by (nonlinear_arith);
        let product: int = a * m;
        let divisor: int = d as int;
        vstd::arithmetic::div_mod::lemma_div_pos_is_pos(product, divisor);
        assert(product / divisor <= product) by (nonlinear_arith)
            requires
                divisor >= 1,
                product >= 0,
        ;
    }
    let q: u128 = (a * m) / d;
    let up = (along >= 0) == (step >= 0) || along == 0 || step == 0;
    if up == (den > 0) {
        q as i128
    } else {
        -(q as i128)
    }
}

impl RayCast for Edge {
    open spec fn cast(&self, ray: RayModel) -> Option<Hit> {
        edge_hit(self@, ray)
    }

    fn ray_cast(&self, ray: Ray) -> (hit: Option<RayHit>) {
        let x1: i128 = self.0.x.raw() as i128;
        let y1: i128 = self.0.y.raw() as i128;
        let x2: i128 = self.1.x.raw() as i128;
        let y2: i128 = self.1.y.raw() as i128;
        let x3: i128 = ray.origin.x.raw() as i128;
        let y3: i128 = ray.origin.y.raw() as i128;
        let dx: i128 = ray.direction.x.raw() as i128;
        let dy: i128 = ray.direction.y.raw() as i128;
        proof {
            assert(LIMIT * LIMIT == 1_000_000_000_000_000_000_000_000int) by (nonlinear_arith);
            lemma_product_bound((y1 - y2) as int, dx as int, 2 * LIMIT, LIMIT as int);
            lemma_product_bound((x1 - x2) as int, dy as int, 2 * LIMIT, LIMIT as int);
            lemma_product_bound((y1 - y3) as int, dx as int, 2 * LIMIT, LIMIT as int);
            lemma_product_bound((x1 - x3) as int, dy as int, 2 * LIMIT, LIMIT as int);
            lemma_product_bound((y1 - y2) as int, (x1 - x3) as int, 2 * LIMIT, 2 * LIMIT);
            lemma_product_bound((x1 - x2) as int, (y1 - y3) as int, 2 * LIMIT, 2 * LIMIT);
            assert((2 * LIMIT) * LIMIT == 2 * (LIMIT * LIMIT)) by (nonlinear_arith);
            assert((2 * LIMIT) * (2 * LIMIT) == 4 * (LIMIT * LIMIT)) by (nonlinear_arith);
        }
        let den: i128 = (y1 - y2) * dx - (x1 - x2) * dy;
        let t: i128 = (y1 - y3) * dx - (x1 - x3) * dy;
        let u: i128 = (y1 - y2) * (x1 - x3) - (x1 - x2) * (y1 - y3);
        let crossed = if den > 0 {
            0 < t && t < den && u > 0
        } else {
            den < 0 && den < t && t < 0 && u < 0
        };
        if !crossed {
            return None;
        }
        proof {
            assert(4 * LIMIT * LIMIT == 4 * (LIMIT * LIMIT)) by (nonlinear_arith);
            assert(8 * LIMIT * LIMIT == 8 * (LIMIT * LIMIT)) by (nonlinear_arith);
            lemma_crossing_is_on_segment(self@, ray@);
        }
        let px: i128 = x3 + rounded_offset(u, dx, den);
        let py: i128 = y3 + rounded_offset(u, dy, den);
        if px == x3 && py == y3 {
            return None;
        }
        let point = Vec2::new(Fixed::from_raw(px as i64), Fixed::from_raw(py as i64));
        let distance = point.distance(ray.origin);
        proof {
            lemma_distance_of_distinct_points(point@, ray@.origin);
        }
        let reached = match ray.length {
            Some(l) => l.ge(distance),
            None => true,
        };
        if reached {
            Some(RayHit { position: point, distance })
        } else {
            None
        }
    }
}

/// The nearer of two hits of a ray from `origin`.
fn keep_nearer(origin: Vec2, kept: Option<RayHit>, hit: Option<RayHit>) -> (r: Option<RayHit>)
    ensures
        hit_view(r) == nearer(origin@, hit_view(kept), hit_view(hit)),
        r == kept || r == hit,
{
    match hit {
        Some(h) => match kept {
            Some(k) => {
                let near = h.position.distance_squared(origin);
                let far = k.position.distance_squared(origin);
                let hx = h.position.x.raw();
                let kx = k.position.x.raw();
                let before = near < far || (near == far && (hx < kx || (hx == kx
                    && h.position.y.raw() < k.position.y.raw())));
                if before {
                    hit
                } else {
                    kept
                }
            },
            None => hit,
        },
        None => kept,
    }
}

/// A rectangular obstacle: a box, moved to where the obstacle stands.
#[derive(Clone, Copy, Debug)]
pub struct Collider {
    pub bounds: Aabb,
    pub translation: Vec2,
}

impl View for Collider {
    type V = Rect;

    /// The rectangle that the obstacle covers in the world.
    open spec fn view(&self) -> Rect {
        rect_translate(self.bounds@, self.translation@)
    }
}

impl Collider {
    /// The obstacle that covers `bounds` moved by `translation`.
    pub fn new(bounds: Aabb, translation: Vec2) -> (r: Collider)
        ensures
            r.bounds == bounds,
            r.translation == translation,
    {
        Collider { bounds, translation }
    }
}

impl RayCast for Collider {
    open spec fn cast(&self, ray: RayModel) -> Option<Hit> {
        rect_hit(self@, ray)
    }

    fn ray_cast(&self, ray: Ray) -> (hit: Option<RayHit>) {
        let world = self.bounds.translate(self.translation);
        let top_left = Vec2::new(world.min.x, world.max.y);
        let top_right = Vec2::new(world.max.x, world.max.y);
        let bottom_left = Vec2::new(world.min.x, world.min.y);
        let bottom_right = Vec2::new(world.max.x, world.min.y);
        let top = Edge(top_left, top_right).ray_cast(ray);
        let right = Edge(top_right, bottom_right).ray_cast(ray);
        let bottom = Edge(bottom_right, bottom_left).ray_cast(ray);
        let left = Edge(bottom_left, top_left).ray_cast(ray);
        let hit = keep_nearer(ray.origin, None, top);
        let hit = keep_nearer(ray.origin, hit, right);
        let hit = keep_nearer(ray.origin, hit, bottom);
        let hit = keep_nearer(ray.origin, hit, left);
        proof {
            let none = Seq::<Option<Hit>>::empty();
            let one = none.push(hit_view(top));
            let two = one.push(hit_view(right));
            let three = two.push(hit_view(bottom));
            let four = three.push(hit_view(left));
            lemma_nearest_push(ray@.origin, none, hit_view(top));
            lemma_nearest_push(ray@.origin, one, hit_view(right));
            lemma_nearest_push(ray@.origin, two, hit_view(bottom));
            lemma_nearest_push(ray@.origin, three, hit_view(left));
            assert(four =~= rect_hits(self@, ray@));
        }
        hit
    }
}

/// The rectangles that a sequence of obstacles covers.
pub open spec fn scene_of(colliders: Seq<Collider>) -> Seq<Rect> {
    Seq::new(colliders.len(), |i: int| colliders[i]@)
}

impl RayCast for Vec<Collider> {
    open spec fn cast(&self, ray: RayModel) -> Option<Hit> {
        scene_hit(scene_of(self@), ray)
    }

    fn ray_cast(&self, ray: Ray) -> (hit: Option<RayHit>) {
        let mut best: Option<RayHit> = None;
        let mut i: usize = 0;
        while i < self.len()
            invariant
                i <= self.len(),
                hit_view(best) == nearest(
                    ray@.origin,
                    scene_hits(scene_of(self@), ray@).take(i as int),
                ),
                best matches Some(h) ==> h.distance@ > 0 && h.position@ != ray@.origin,
            decreases self.len() - i,
        {
            let hit = self[i].ray_cast(ray);
            proof {
                let all = scene_hits(scene_of(self@), ray@);
                lemma_nearest_push(ray@.origin, all.take(i as int), all[i as int]);
                assert(all.take(i as int).push(all[i as int]) =~= all.take(i + 1));
            }
            best = keep_nearer(ray.origin, best, hit);
            i += 1;
        }
        proof {
            let all = scene_hits(scene_of(self@), ray@);
            assert(all.take(i as int) =~= all);
        }
        best
    }
}

/// The ray `r` without an end.
pub open spec fn unbounded(r: RayModel) -> RayModel {
    RayModel { length: None, ..r }
}

/// The ray `r`, ending at `length` from its origin.
pub open spec fn bounded(r: RayModel, length: int) -> RayModel {
    RayModel { length: Some(length), ..r }
}

/// `hit`, unless it lies beyond `length`.
pub open spec fn within(hit: Option<Hit>, length: int) -> Option<Hit> {
    match hit {
        Some(h) => if length >= h.distance {
            hit
        } else {
            None
        },
        None => None,
    }
}

/// Each hit of `hits`, unless it lies beyond `length`.
pub open spec fn all_within(hits: Seq<Option<Hit>>, length: int) -> Seq<Option<Hit>> {
    Seq::new(hits.len(), |i: int| within(hits[i], length))
}

} // verus!
