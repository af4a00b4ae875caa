//! What holds of ray casts: the nearest hit is the least of all and does not
//! depend on the order of testing, an edge gives the same hit whichever of
//! its ends comes first, a maximum length only cuts hits off, and a ray along
//! an axis meets a rectangle exactly.

use vstd::prelude::*;
use crate::fixed::{magnitude, saturate, trunc_div, LIMIT};
use crate::geometry::{
    lemma_distance_follows_square, lemma_distance_of_distinct_points, lemma_floor_sqrt_of_square,
    point_distance, square_distance, Point, Rect,
};
use crate::ray_cast::{
    all_within, bounded, comes_before, cross_along_edge, cross_along_ray, cross_den, cross_offset,
    cross_point, crosses, edge_hit, nearer, nearest, rect_edges, rect_hit, rect_hits, scene_hit,
    scene_hits, unbounded, within, Hit, RayModel, Segment,
};

verus! {

/// Appending a hit to a sequence keeps the nearest so far unless the new hit
/// comes before it.
pub proof fn lemma_nearest_push(origin: Point, hits: Seq<Option<Hit>>, hit: Option<Hit>)
    ensures
        nearest(origin, hits.push(hit)) == nearer(origin, nearest(origin, hits), hit),
{
    assert(hits.push(hit).drop_last() =~= hits);
}

/// Whether the distance of a hit is that of its place from `origin`.
pub open spec fn measured(origin: Point, hit: Option<Hit>) -> bool {
    hit matches Some(h) ==> h.distance == point_distance(h.position, origin)
}

/// Whether the distance of every hit is that of its place from `origin`.
pub open spec fn all_measured(origin: Point, hits: Seq<Option<Hit>>) -> bool {
    forall|i: int| 0 <= i < hits.len() ==> measured(origin, #[trigger] hits[i])
}

/// Whether the hit at place `i` is one before which no hit of `hits` comes.
pub open spec fn least_at(origin: Point, hits: Seq<Option<Hit>>, i: int) -> bool {
    &&& 0 <= i < hits.len()
    &&& hits[i] is Some
    &&& forall|j: int|
        0 <= j < hits.len() && (#[trigger] hits[j]) is Some ==> !comes_before(
            origin,
            hits[j]->0,
            hits[i]->0,
        )
}

/// Of two hits neither of which comes before the other, both lie at one
/// place; and a hit that does not come after another is no farther than it.
pub proof fn lemma_order_of_hits(origin: Point, a: Hit, b: Hit)
    requires
        measured(origin, Some(a)),
        measured(origin, Some(b)),
    ensures
        !comes_before(origin, a, b) && !comes_before(origin, b, a) ==> a == b,
        !comes_before(origin, b, a) ==> a.distance <= b.distance,
{
    if !comes_before(origin, b, a) {
        lemma_distance_follows_square(a.position, origin, b.position, origin);
    }
    if !comes_before(origin, a, b) && !comes_before(origin, b, a) {
        assert(a.position == b.position);
    }
}

/// The nearest of some hits is none only where there is no hit. Otherwise it
/// is one of them, and none of them comes before it.
pub proof fn lemma_nearest_is_least(origin: Point, hits: Seq<Option<Hit>>)
    ensures
        nearest(origin, hits) is None <==> (forall|i: int|
            0 <= i < hits.len() ==> hits[i] is None),
        nearest(origin, hits) matches Some(h) ==> exists|i: int|
            0 <= i < hits.len() && hits[i] == Some(h) && least_at(origin, hits, i),
    decreases hits.len(),
{
    if hits.len() > 0 {
        let front = hits.drop_last();
        lemma_nearest_is_least(origin, front);
        assert(forall|i: int| 0 <= i < front.len() ==> front[i] == hits[i]);
        match nearest(origin, hits) {
            Some(h) => {
                if nearest(origin, front) == Some(h) {
                    let i = choose|i: int|
                        0 <= i < front.len() && front[i] == Some(h) && least_at(origin, front, i);
                    assert(least_at(origin, hits, i));
                } else {
                    let i = hits.len() - 1;
                    match nearest(origin, front) {
                        Some(k) => {
                            let j = choose|j: int|
                                0 <= j < front.len() && front[j] == Some(k) && least_at(
                                    origin,
                                    front,
                                    j,
                                );
                            assert(comes_before(origin, h, k));
                            assert(least_at(origin, hits, i));
                        },
                        None => {
                            assert(least_at(origin, hits, i));
                        },
                    }
                }
            },
            None => {},
        }
    }
}

/// A hit before which none of the others comes is the nearest, wherever it
/// stands among them.
pub proof fn lemma_least_is_nearest(origin: Point, hits: Seq<Option<Hit>>, i: int)
    requires
        all_measured(origin, hits),
        least_at(origin, hits, i),
    ensures
        nearest(origin, hits) == hits[i],
{
    lemma_nearest_is_least(origin, hits);
    let h = nearest(origin, hits)->0;
    let at = choose|at: int|
        0 <= at < hits.len() && hits[at] == Some(h) && least_at(origin, hits, at);
    assert(measured(origin, hits[i]));
    assert(measured(origin, hits[at]));
    lemma_order_of_hits(origin, h, hits[i]->0);
}

/// Cutting off what lies beyond a length before or after choosing the nearer
/// of two hits gives the same.
pub proof fn lemma_nearer_within(
    origin: Point,
    kept: Option<Hit>,
    hit: Option<Hit>,
    length: int,
)
    requires
        measured(origin, kept),
        measured(origin, hit),
    ensures
        within(nearer(origin, kept, hit), length) == nearer(
            origin,
            within(kept, length),
            within(hit, length),
        ),
{
    if kept is Some && hit is Some {
        lemma_order_of_hits(origin, kept->0, hit->0);
        lemma_order_of_hits(origin, hit->0, kept->0);
    }
}

/// The nearest of hits whose distances are those of their places is such a
/// hit.
pub proof fn lemma_nearest_is_measured(origin: Point, hits: Seq<Option<Hit>>)
    requires
        all_measured(origin, hits),
    ensures
        measured(origin, nearest(origin, hits)),
{
    lemma_nearest_is_least(origin, hits);
}

/// Cutting off what lies beyond a length before or after choosing the nearest
/// of some hits gives the same.
pub proof fn lemma_nearest_within(origin: Point, hits: Seq<Option<Hit>>, length: int)
    requires
        all_measured(origin, hits),
    ensures
        nearest(origin, all_within(hits, length)) == within(nearest(origin, hits), length),
    decreases hits.len(),
{
    if hits.len() > 0 {
        let front = hits.drop_last();
        assert(all_measured(origin, front)) by {
            assert forall|i: int| 0 <= i < front.len() implies measured(
                origin,
                #[trigger] front[i],
            ) by {
                assert(front[i] == hits[i]);
            }
        }
        lemma_nearest_within(origin, front, length);
        assert(all_within(hits, length).drop_last() =~= all_within(front, length));
        lemma_nearest_is_measured(origin, front);
        assert(measured(origin, hits[hits.len() - 1]));
        lemma_nearer_within(origin, nearest(origin, front), hits.last(), length);
    }
}

/// The distance of every hit of a ray is that of its place from the origin of
/// the ray: on a segment, on the sides of a rectangle, on a rectangle and on
/// the rectangles of a sequence.
pub proof fn lemma_hits_are_measured(e: Segment, b: Rect, scene: Seq<Rect>, r: RayModel)
    ensures
        measured(r.origin, edge_hit(e, r)),
        all_measured(r.origin, rect_hits(b, r)),
        measured(r.origin, rect_hit(b, r)),
        all_measured(r.origin, scene_hits(scene, r)),
        measured(r.origin, scene_hit(scene, r)),
{
    assert(all_measured(r.origin, rect_hits(b, r)));
    lemma_nearest_is_measured(r.origin, rect_hits(b, r));
    assert(all_measured(r.origin, scene_hits(scene, r))) by {
        assert forall|i: int| 0 <= i < scene.len() implies measured(
            r.origin,
            #[trigger] scene_hits(scene, r)[i],
        ) by {
            assert(all_measured(r.origin, rect_hits(scene[i], r)));
            lemma_nearest_is_measured(r.origin, rect_hits(scene[i], r));
        }
    }
    lemma_nearest_is_measured(r.origin, scene_hits(scene, r));
}

/// On a segment, a ray that ends at `length` hits what the endless ray hits,
/// unless that lies beyond `length`.
pub proof fn lemma_bounded_ray_on_edge(e: Segment, r: RayModel, length: int)
    ensures
        edge_hit(e, bounded(r, length)) == within(edge_hit(e, unbounded(r)), length),
{
}

/// On a rectangle, a ray that ends at `length` hits what the endless ray hits,
/// unless that lies beyond `length`.
pub proof fn lemma_bounded_ray_on_rect(b: Rect, r: RayModel, length: int)
    ensures
        rect_hit(b, bounded(r, length)) == within(rect_hit(b, unbounded(r)), length),
{
    assert(rect_hits(b, bounded(r, length)) =~= all_within(rect_hits(b, unbounded(r)), length));
    lemma_hits_are_measured(rect_edges(b)[0], b, Seq::empty(), unbounded(r));
    lemma_nearest_within(r.origin, rect_hits(b, unbounded(r)), length);
}

/// On a sequence of rectangles, a ray that ends at `length` hits what the
/// endless ray hits, unless that lies beyond `length`.
pub proof fn lemma_bounded_ray_on_scene(scene: Seq<Rect>, r: RayModel, length: int)
    ensures
        scene_hit(scene, bounded(r, length)) == within(scene_hit(scene, unbounded(r)), length),
{
    assert(scene_hits(scene, bounded(r, length)) =~= all_within(
        scene_hits(scene, unbounded(r)),
        length,
    )) by {
        assert forall|i: int| 0 <= i < scene.len() implies rect_hit(scene[i], bounded(r, length))
            == within(rect_hit(scene[i], unbounded(r)), length) by {
            lemma_bounded_ray_on_rect(scene[i], r, length);
        }
    }
    lemma_hits_are_measured(Segment { start: r.origin, end: r.origin }, Rect {
        min: r.origin,
        max: r.origin,
    }, scene, unbounded(r));
    lemma_nearest_within(r.origin, scene_hits(scene, unbounded(r)), length);
}

/// A ray whose length is less than the distance to the nearest obstacle hits
/// nothing: neither a segment, nor a rectangle, nor any of a sequence of
/// rectangles.
pub proof fn lemma_short_ray_misses(
    e: Segment,
    b: Rect,
    scene: Seq<Rect>,
    r: RayModel,
    length: int,
)
    ensures
        edge_hit(e, unbounded(r)) matches Some(h) && length < h.distance ==> edge_hit(
            e,
            bounded(r, length),
        ) is None,
        rect_hit(b, unbounded(r)) matches Some(h) && length < h.distance ==> rect_hit(
            b,
            bounded(r, length),
        ) is None,
        scene_hit(scene, unbounded(r)) matches Some(h) && length < h.distance ==> scene_hit(
            scene,
            bounded(r, length),
        ) is None,
{
    lemma_bounded_ray_on_edge(e, r, length);
    lemma_bounded_ray_on_rect(b, r, length);
    lemma_bounded_ray_on_scene(scene, r, length);
}

/// The nearest hit on two rectangles is the same whichever of them is tested
/// first.
pub proof fn lemma_order_of_two(a: Rect, b: Rect, r: RayModel)
    ensures
        scene_hit(seq![a, b], r) == scene_hit(seq![b, a], r),
{
    let one = seq![a, b];
    let other = seq![b, a];
    assert(all_among(one, other)) by {
        assert(other[1] == one[0] && other[0] == one[1]);
    }
    assert(all_among(other, one)) by {
        assert(one[1] == other[0] && one[0] == other[1]);
    }
    lemma_order_of_scene(one, other, r);
}

/// Whether every rectangle of `one` is a rectangle of `other`.
pub open spec fn all_among(one: Seq<Rect>, other: Seq<Rect>) -> bool {
    forall|i: int|
        0 <= i < one.len() ==> exists|j: int| 0 <= j < other.len() && other[j] == #[trigger] one[i]
}

/// The nearest hit on the rectangles of a scene does not depend on the order
/// in which they stand, nor on how often each stands there: two sequences of
/// the same rectangles give the same hit.
pub proof fn lemma_order_of_scene(one: Seq<Rect>, other: Seq<Rect>, r: RayModel)
    requires
        all_among(one, other),
        all_among(other, one),
    ensures
        scene_hit(one, r) == scene_hit(other, r),
{
    let hits = scene_hits(one, r);
    let others = scene_hits(other, r);
    lemma_nearest_is_least(r.origin, hits);
    lemma_nearest_is_least(r.origin, others);
    match scene_hit(one, r) {
        Some(h) => {
            let i = choose|i: int|
                0 <= i < hits.len() && hits[i] == Some(h) && least_at(r.origin, hits, i);
            let j = choose|j: int| 0 <= j < other.len() && other[j] == one[i];
            assert(others[j] == Some(h));
            assert(least_at(r.origin, others, j)) by {
                assert forall|k: int| 0 <= k < others.len() && (#[trigger] others[k]) is Some
                    implies !comes_before(r.origin, others[k]->0, others[j]->0) by {
                    let m = choose|m: int| 0 <= m < one.len() && one[m] == other[k];
                    assert(hits[m] == others[k]);
                }
            }
            lemma_hits_are_measured(Segment { start: r.origin, end: r.origin }, Rect {
                min: r.origin,
                max: r.origin,
            }, other, r);
            lemma_least_is_nearest(r.origin, others, j);
        },
        None => {
            assert forall|k: int| 0 <= k < others.len() implies others[k] is None by {
                let m = choose|m: int| 0 <= m < one.len() && one[m] == other[k];
                assert(hits[m] == others[k]);
            }
        },
    }
}

/// The nearest hit on a sequence of rectangles is no farther than the hit on
/// any one of them.
pub proof fn lemma_scene_hit_no_farther(scene: Seq<Rect>, r: RayModel, i: int)
    requires
        0 <= i < scene.len(),
        rect_hit(scene[i], r) is Some,
    ensures
        scene_hit(scene, r) matches Some(h) && h.distance <= rect_hit(scene[i], r)->0.distance,
{
    let hits = scene_hits(scene, r);
    lemma_nearest_is_least(r.origin, hits);
    assert(hits[i] is Some);
    let h = nearest(r.origin, hits)->0;
    let at = choose|at: int|
        0 <= at < hits.len() && hits[at] == Some(h) && least_at(r.origin, hits, at);
    lemma_hits_are_measured(Segment { start: r.origin, end: r.origin }, scene[i], scene, r);
    assert(measured(r.origin, hits[at]));
    assert(measured(r.origin, hits[i]));
    lemma_order_of_hits(r.origin, h, hits[i]->0);
}

/// The segment with its ends in the other order.
pub open spec fn reversed(e: Segment) -> Segment {
    Segment { start: e.end, end: e.start }
}

/// A ray hits a segment in the same place and at the same distance whichever
/// end of the segment comes first.
pub proof fn lemma_edge_hit_of_reversed(e: Segment, r: RayModel)
    ensures
        edge_hit(reversed(e), r) == edge_hit(e, r),
{
    let back = reversed(e);
    let den = cross_den(e, r);
    let t = cross_along_edge(e, r);
    let u = cross_along_ray(e, r);
    let dx = r.direction.x;
    let dy = r.direction.y;
    assert(cross_den(back, r) == -den && cross_along_edge(back, r) == t - den) by (nonlinear_arith)
        requires
            den == (e.start.y - e.end.y) * dx - (e.start.x - e.end.x) * dy,
            t == (e.start.y - r.origin.y) * dx - (e.start.x - r.origin.x) * dy,
            cross_den(back, r) == (e.end.y - e.start.y) * dx - (e.end.x - e.start.x) * dy,
            cross_along_edge(back, r) == (e.end.y - r.origin.y) * dx - (e.end.x - r.origin.x)
                * dy,
    ;
    assert(cross_along_ray(back, r) == -u) by (nonlinear_arith)
        requires
            u == (e.start.y - e.end.y) * (e.start.x - r.origin.x) - (e.start.x - e.end.x) * (
            e.start.y - r.origin.y),
            cross_along_ray(back, r) == (e.end.y - e.start.y) * (e.end.x - r.origin.x) - (e.end.x
                - e.start.x) * (e.end.y - r.origin.y),
    ;
    assert((-u) * dx == -(u * dx) && (-u) * dy == -(u * dy)) by (nonlinear_arith);
    assert(crosses(back, r) == crosses(e, r));
    if crosses(e, r) {
        assert(cross_offset(back, r) == cross_offset(e, r));
    }
}

/// A quotient rounded toward zero lies between two whole numbers between whose
/// multiples by the divisor the dividend lies.
proof fn lemma_trunc_div_between(n: int, d: int, lo: int, hi: int)
    requires
        d > 0,
        d * lo <= n <= d * hi,
    ensures
        lo <= trunc_div(n, d) <= hi,
{
    if n >= 0 {
        vstd::arithmetic::div_mod::lemma_div_is_ordered(d * lo, n, d);
        vstd::arithmetic::div_mod::lemma_div_is_ordered(n, d * hi, d);
        vstd::arithmetic::div_mod::lemma_div_multiples_vanish(lo, d);
        vstd::arithmetic::div_mod::lemma_div_multiples_vanish(hi, d);
    } else {
        assert(d * (-hi) == -(d * hi) && d * (-lo) == -(d * lo)) by (nonlinear_arith);
        vstd::arithmetic::div_mod::lemma_div_is_ordered(d * (-hi), -n, d);
        vstd::arithmetic::div_mod::lemma_div_is_ordered(-n, d * (-lo), d);
        vstd::arithmetic::div_mod::lemma_div_multiples_vanish(-lo, d);
        vstd::arithmetic::div_mod::lemma_div_multiples_vanish(-hi, d);
    }
}

/// The quotient of a multiple by what it is a multiple of, rounded toward
/// zero, is the other factor.
proof fn lemma_trunc_div_of_multiple(m: int, k: int)
    requires
        k != 0,
    ensures
        trunc_div(m * k, k) == m,
{
    if k > 0 {
        assert(k * m == m * k) by (nonlinear_arith);
        lemma_trunc_div_between(m * k, k, m, m);
    } else {
        assert((-k) * m == -(m * k)) by (nonlinear_arith);
        assert(trunc_div(m * k, k) == trunc_div(-(m * k), -k));
        lemma_trunc_div_between(-(m * k), -k, m, m);
    }
}

/// One coordinate of a crossing lies between the ends of the segment. With
/// `den`, `t` and `u` the three determinants, `c` the way from the origin of
/// the ray to the start of the segment and `w` the run of the segment, the
/// way from the origin to the crossing lies between `c` and `c + w`.
proof fn lemma_offset_between(den: int, t: int, n: int, c: int, w: int)
    requires
        (den > 0 && 0 < t < den) || (den < 0 && den < t < 0),
        n == den * c + t * w,
    ensures
        w >= 0 ==> c <= trunc_div(n, den) <= c + w,
        w <= 0 ==> c + w <= trunc_div(n, den) <= c,
{
    let d = magnitude(den);
    let share = magnitude(t);
    let m = if den > 0 {
        n
    } else {
        -n
    };
    assert(m == d * c + share * w) by (nonlinear_arith)
        requires
            n == den * c + t * w,
            (den > 0 && d == den && share == t && m == n) || (den < 0 && d == -den && share == -t
                && m == -n),
    ;
    assert(trunc_div(n, den) == trunc_div(m, d));
    if w >= 0 {
        assert(d * c <= m <= d * (c + w)) by (nonlinear_arith)
            requires
                m == d * c + share * w,
                0 < share < d,
                w >= 0,
        ;
        lemma_trunc_div_between(m, d, c, c + w);
    } else {
        assert(d * (c + w) <= m <= d * c) by (nonlinear_arith)
            requires
                m == d * c + share * w,
                0 < share < d,
                w < 0,
        ;
        lemma_trunc_div_between(m, d, c + w, c);
    }
}

/// The rounded crossing of a ray with a segment lies between the ends of the
/// segment, in each coordinate.
pub proof fn lemma_crossing_is_on_segment(e: Segment, r: RayModel)
    requires
        crosses(e, r),
    ensures
        e.start.x <= e.end.x ==> e.start.x <= cross_point(e, r).x <= e.end.x,
        e.start.x >= e.end.x ==> e.end.x <= cross_point(e, r).x <= e.start.x,
        e.start.y <= e.end.y ==> e.start.y <= cross_point(e, r).y <= e.end.y,
        e.start.y >= e.end.y ==> e.end.y <= cross_point(e, r).y <= e.start.y,
{
    let den = cross_den(e, r);
    let t = cross_along_edge(e, r);
    let u = cross_along_ray(e, r);
    lemma_crossing_is_on_both_lines(e, r);
    assert(u * r.direction.x == den * (e.start.x - r.origin.x) + t * (e.end.x - e.start.x))
        by (nonlinear_arith)
        requires
            den * e.start.x + t * (e.end.x - e.start.x) == den * r.origin.x + u * r.direction.x,
    ;
    assert(u * r.direction.y == den * (e.start.y - r.origin.y) + t * (e.end.y - e.start.y))
        by (nonlinear_arith)
        requires
            den * e.start.y + t * (e.end.y - e.start.y) == den * r.origin.y + u * r.direction.y,
    ;
    lemma_offset_between(
        den,
        t,
        u * r.direction.x,
        e.start.x - r.origin.x,
        e.end.x - e.start.x,
    );
    lemma_offset_between(
        den,
        t,
        u * r.direction.y,
        e.start.y - r.origin.y,
        e.end.y - e.start.y,
    );
}

/// Whether a ray runs along the x axis or along the y axis.
pub open spec fn along_axis(r: RayModel) -> bool {
    r.direction.x == 0 || r.direction.y == 0
}

/// Whether `h` lies on the line of a ray along an axis, ahead of its origin,
/// and as far from it as their coordinates on that axis differ.
pub open spec fn exact_on(r: RayModel, h: Hit) -> bool {
    if r.direction.y == 0 {
        &&& h.position.y == r.origin.y
        &&& r.direction.x != 0
        &&& r.direction.x > 0 ==> h.position.x > r.origin.x
        &&& r.direction.x < 0 ==> h.position.x < r.origin.x
        &&& h.distance == saturate(magnitude(h.position.x - r.origin.x))
    } else {
        &&& h.position.x == r.origin.x
        &&& r.direction.y > 0 ==> h.position.y > r.origin.y
        &&& r.direction.y < 0 ==> h.position.y < r.origin.y
        &&& h.distance == saturate(magnitude(h.position.y - r.origin.y))
    }
}

/// How a way along a ray is rounded: not at all across the ray, and toward
/// the origin along it. With `u` and `den` of one sign and `d` the direction
/// along one axis, the rounded way has the sign of `d` or is zero.
proof fn lemma_offset_along_axis(u: int, den: int, d: int)
    requires
        (den > 0 && u > 0) || (den < 0 && u < 0),
    ensures
        trunc_div(u * 0, den) == 0,
        d > 0 ==> trunc_div(u * d, den) >= 0,
        d < 0 ==> trunc_div(u * d, den) <= 0,
        d == 0 ==> trunc_div(u * d, den) == 0,
{
    assert(u * 0 == 0) by (nonlinear_arith);
    assert(0int / magnitude(den) == 0);
    assert((d > 0 ==> ((u * d >= 0) == (den > 0))) && (d < 0 ==> ((u * d > 0) != (den > 0) || u
        * d == 0)) && (d == 0 ==> u * d == 0)) by (nonlinear_arith)
        requires
            (den > 0 && u > 0) || (den < 0 && u < 0),
    ;
    vstd::arithmetic::div_mod::lemma_div_pos_is_pos(magnitude(u * d), magnitude(den));
}

/// A ray along an axis meets a segment on its own line, ahead of its origin,
/// and exactly as far away as the rounded crossing.
pub proof fn lemma_axis_ray_on_edge(e: Segment, r: RayModel)
    requires
        along_axis(r),
        edge_hit(e, r) is Some,
    ensures
        exact_on(r, edge_hit(e, r)->0),
{
    let den = cross_den(e, r);
    let u = cross_along_ray(e, r);
    lemma_offset_along_axis(u, den, r.direction.x);
    lemma_offset_along_axis(u, den, r.direction.y);
    let p = cross_point(e, r);
    let off = cross_offset(e, r);
    assert(p != r.origin);
    if r.direction.y == 0 {
        assert(off.y == 0);
        assert(square_distance(p, r.origin) == off.x * off.x) by (nonlinear_arith)
            requires
                p.x - r.origin.x == off.x,
                p.y == r.origin.y,
                square_distance(p, r.origin) == (p.x - r.origin.x) * (p.x - r.origin.x) + (p.y
                    - r.origin.y) * (p.y - r.origin.y),
        ;
        lemma_floor_sqrt_of_square(off.x);
    } else {
        assert(off.x == 0);
        assert(square_distance(p, r.origin) == off.y * off.y) by (nonlinear_arith)
            requires
                p.y - r.origin.y == off.y,
                p.x == r.origin.x,
                square_distance(p, r.origin) == (p.x - r.origin.x) * (p.x - r.origin.x) + (p.y
                    - r.origin.y) * (p.y - r.origin.y),
        ;
        lemma_floor_sqrt_of_square(off.y);
    }
}

/// A ray never meets a segment that runs along the same axis.
proof fn lemma_parallel_edge_is_missed(e: Segment, r: RayModel)
    requires
        (e.start.y == e.end.y && r.direction.y == 0) || (e.start.x == e.end.x && r.direction.x
            == 0),
    ensures
        edge_hit(e, r) is None,
{
    assert(cross_den(e, r) == 0) by (nonlinear_arith)
        requires
            cross_den(e, r) == (e.start.y - e.end.y) * r.direction.x - (e.start.x - e.end.x)
                * r.direction.y,
            (e.start.y == e.end.y && r.direction.y == 0) || (e.start.x == e.end.x
                && r.direction.x == 0),
    ;
}

/// A segment at a right angle to a ray is crossed where its ends lie on both
/// sides of the line of the ray and it lies on the side of the origin that the
/// ray runs to. With `a` the run of the segment, `b` and `c` the way from the
/// origin of the ray to the start of the segment across and along the ray,
/// and `d` the direction of the ray.
proof fn lemma_right_angle_crossing_exists(a: int, b: int, c: int, d: int)
    requires
        (0 < b < a) || (a < b < 0),
        (d > 0 && c > 0) || (d < 0 && c < 0),
    ensures
        (a * d > 0 && 0 < b * d < a * d && a * c > 0) || (a * d < 0 && a * d < b * d < 0 && a * c
            < 0),
        (a * c) * d == c * (a * d),
        a * d != 0,
{
    assert((a * d > 0 && 0 < b * d < a * d && a * c > 0) || (a * d < 0 && a * d < b * d < 0 && a
        * c < 0)) by (nonlinear_arith)
        requires
            (0 < b < a) || (a < b < 0),
            (d > 0 && c > 0) || (d < 0 && c < 0),
    ;
    assert((a * c) * d == c * (a * d)) by (nonlinear_arith);
}

/// A ray along the x axis meets an upright segment that lies ahead of it and
/// has its ends on both sides of the line of the ray, at the distance of the
/// segment.
proof fn lemma_level_ray_meets_upright_edge(e: Segment, r: RayModel)
    requires
        e.start.x == e.end.x,
        r.direction.y == 0,
        r.length is None,
        (e.start.y < r.origin.y < e.end.y) || (e.end.y < r.origin.y < e.start.y),
        (r.direction.x > 0 && r.origin.x < e.start.x) || (r.direction.x < 0 && e.start.x
            < r.origin.x),
    ensures
        edge_hit(e, r) == Some(
            Hit {
                position: Point { x: e.start.x, y: r.origin.y },
                distance: saturate(magnitude(e.start.x - r.origin.x)),
            },
        ),
{
    let a = e.start.y - e.end.y;
    let b = e.start.y - r.origin.y;
    let c = e.start.x - r.origin.x;
    let d = r.direction.x;
    lemma_right_angle_crossing_exists(a, b, c, d);
    assert(cross_den(e, r) == a * d && cross_along_edge(e, r) == b * d && cross_along_ray(e, r)
        == a * c) by (nonlinear_arith)
        requires
            cross_den(e, r) == (e.start.y - e.end.y) * r.direction.x - (e.start.x - e.end.x)
                * r.direction.y,
            cross_along_edge(e, r) == (e.start.y - r.origin.y) * r.direction.x - (e.start.x
                - r.origin.x) * r.direction.y,
            cross_along_ray(e, r) == (e.start.y - e.end.y) * (e.start.x - r.origin.x) - (e.start.x
                - e.end.x) * (e.start.y - r.origin.y),
            e.start.x == e.end.x,
            r.direction.y == 0,
            a == e.start.y - e.end.y,
            b == e.start.y - r.origin.y,
            c == e.start.x - r.origin.x,
            d == r.direction.x,
    ;
    assert(crosses(e, r));
    lemma_trunc_div_of_multiple(c, a * d);
    assert(cross_offset(e, r).x == c);
    assert(edge_hit(e, r) is Some);
    lemma_axis_ray_on_edge(e, r);
}

/// A ray along the y axis meets a level segment that lies ahead of it and has
/// its ends on both sides of the line of the ray, at the distance of the
/// segment.
proof fn lemma_upright_ray_meets_level_edge(e: Segment, r: RayModel)
    requires
        e.start.y == e.end.y,
        r.direction.x == 0,
        r.length is None,
        (e.start.x < r.origin.x < e.end.x) || (e.end.x < r.origin.x < e.start.x),
        (r.direction.y > 0 && r.origin.y < e.start.y) || (r.direction.y < 0 && e.start.y
            < r.origin.y),
    ensures
        edge_hit(e, r) == Some(
            Hit {
                position: Point { x: r.origin.x, y: e.start.y },
                distance: saturate(magnitude(e.start.y - r.origin.y)),
            },
        ),
{
    let a = e.end.x - e.start.x;
    let b = r.origin.x - e.start.x;
    let c = e.start.y - r.origin.y;
    let d = r.direction.y;
    lemma_right_angle_crossing_exists(a, b, c, d);
    assert(cross_den(e, r) == a * d && cross_along_edge(e, r) == b * d && cross_along_ray(e, r)
        == a * c) by (nonlinear_arith)
        requires
            cross_den(e, r) == (e.start.y - e.end.y) * r.direction.x - (e.start.x - e.end.x)
                * r.direction.y,
            cross_along_edge(e, r) == (e.start.y - r.origin.y) * r.direction.x - (e.start.x
                - r.origin.x) * r.direction.y,
            cross_along_ray(e, r) == (e.start.y - e.end.y) * (e.start.x - r.origin.x) - (e.start.x
                - e.end.x) * (e.start.y - r.origin.y),
            e.start.y == e.end.y,
            r.direction.x == 0,
            a == e.end.x - e.start.x,
            b == r.origin.x - e.start.x,
            c == e.start.y - r.origin.y,
            d == r.direction.y,
    ;
    assert(crosses(e, r));
    lemma_trunc_div_of_multiple(c, a * d);
    assert(cross_offset(e, r).y == c);
    assert(edge_hit(e, r) is Some);
    lemma_axis_ray_on_edge(e, r);
}

/// How far ahead of the origin of a ray along an axis the side of a rectangle
/// lies that faces it, where the rectangle lies ahead of the origin and on
/// both sides of the line of the ray.
pub open spec fn gap_ahead(b: Rect, r: RayModel) -> Option<int> {
    if r.direction.y == 0 && b.min.y < r.origin.y < b.max.y {
        if r.direction.x > 0 && r.origin.x < b.min.x {
            Some(b.min.x - r.origin.x)
        } else if r.direction.x < 0 && b.max.x < r.origin.x {
            Some(r.origin.x - b.max.x)
        } else {
            None
        }
    } else if r.direction.x == 0 && b.min.x < r.origin.x < b.max.x {
        if r.direction.y > 0 && r.origin.y < b.min.y {
            Some(b.min.y - r.origin.y)
        } else if r.direction.y < 0 && b.max.y < r.origin.y {
            Some(r.origin.y - b.max.y)
        } else {
            None
        }
    } else {
        None
    }
}

/// An endless ray along an axis meets a rectangle that lies ahead of its
/// origin and on both sides of its line, and no farther away than the side
/// that faces it.
pub proof fn lemma_axis_ray_meets_rect(b: Rect, r: RayModel)
    requires
        r.length is None,
        gap_ahead(b, r) is Some,
    ensures
        rect_hit(b, r) matches Some(h) && h.distance <= saturate(gap_ahead(b, r)->0),
{
    let hits = rect_hits(b, r);
    let edges = rect_edges(b);
    let facing: int = if r.direction.y == 0 && b.min.y < r.origin.y < b.max.y {
        if r.direction.x > 0 {
            3
        } else {
            1
        }
    } else {
        if r.direction.y > 0 {
            2
        } else {
            0
        }
    };
    if facing == 1 || facing == 3 {
        lemma_level_ray_meets_upright_edge(edges[facing], r);
    } else {
        lemma_upright_ray_meets_level_edge(edges[facing], r);
    }
    assert(hits[facing] == edge_hit(edges[facing], r));
    lemma_nearest_is_least(r.origin, hits);
    let h = nearest(r.origin, hits)->0;
    let at = choose|at: int|
        0 <= at < hits.len() && hits[at] == Some(h) && least_at(r.origin, hits, at);
    lemma_hits_are_measured(edges[0], b, Seq::empty(), r);
    assert(measured(r.origin, hits[at]));
    assert(measured(r.origin, hits[facing]));
    lemma_order_of_hits(r.origin, h, hits[facing]->0);
}

/// A ray along an axis meets a rectangle on its own line, ahead of its origin,
/// and exactly as far away as the side that it meets.
pub proof fn lemma_axis_ray_on_rect(b: Rect, r: RayModel)
    requires
        along_axis(r),
        rect_hit(b, r) is Some,
    ensures
        exact_on(r, rect_hit(b, r)->0),
{
    let hits = rect_hits(b, r);
    let edges = rect_edges(b);
    lemma_nearest_is_least(r.origin, hits);
    let h = rect_hit(b, r)->0;
    let i = choose|i: int|
        0 <= i < hits.len() && hits[i] == Some(h) && least_at(r.origin, hits, i);
    assert(edge_hit(edges[i], r) == Some(h));
    lemma_axis_ray_on_edge(edges[i], r);
}

/// A ray along an axis meets a scene on its own line, ahead of its origin, and
/// exactly as far away as the side that it meets.
pub proof fn lemma_axis_ray_on_scene(scene: Seq<Rect>, r: RayModel)
    requires
        along_axis(r),
        scene_hit(scene, r) is Some,
    ensures
        exact_on(r, scene_hit(scene, r)->0),
{
    let hits = scene_hits(scene, r);
    lemma_nearest_is_least(r.origin, hits);
    let h = scene_hit(scene, r)->0;
    let i = choose|i: int|
        0 <= i < hits.len() && hits[i] == Some(h) && least_at(r.origin, hits, i);
    lemma_axis_ray_on_rect(scene[i], r);
}

/// The crossing that the determinants describe lies on both lines. The point
/// of the segment at the share `cross_along_edge / cross_den` of its run, and
/// the point of the ray at `cross_along_ray / cross_den` lengths of its
/// direction, are the same point; the equations are those of the two
/// coordinates, multiplied by `cross_den`.
pub proof fn lemma_crossing_is_on_both_lines(e: Segment, r: RayModel)
    ensures
        cross_den(e, r) * e.start.x + cross_along_edge(e, r) * (e.end.x - e.start.x) == cross_den(
            e,
            r,
        ) * r.origin.x + cross_along_ray(e, r) * r.direction.x,
        cross_den(e, r) * e.start.y + cross_along_edge(e, r) * (e.end.y - e.start.y) == cross_den(
            e,
            r,
        ) * r.origin.y + cross_along_ray(e, r) * r.direction.y,
{
    let a = e.start.x - e.end.x;
    let b = e.start.y - e.end.y;
    let p = e.start.x - r.origin.x;
    let q = e.start.y - r.origin.y;
    let dx = r.direction.x;
    let dy = r.direction.y;
    let den = cross_den(e, r);
    let t = cross_along_edge(e, r);
    let u = cross_along_ray(e, r);
    lemma_crossing_solves_both_equations(a, b, p, q, dx, dy);
    assert(den * e.start.x + t * (e.end.x - e.start.x) - (den * r.origin.x + u * dx) == den * p
        - t * a - u * dx) by (nonlinear_arith)
        requires
            a == e.start.x - e.end.x,
            p == e.start.x - r.origin.x,
    ;
    assert(den * e.start.y + t * (e.end.y - e.start.y) - (den * r.origin.y + u * dy) == den * q
        - t * b - u * dy) by (nonlinear_arith)
        requires
            b == e.start.y - e.end.y,
            q == e.start.y - r.origin.y,
    ;
}

/// The determinants solve the two equations of a crossing: with `a`, `b` the
/// run of the segment backward, `p`, `q` the way from the origin of the ray to
/// the start of the segment, and `dx`, `dy` the direction of the ray.
proof fn lemma_crossing_solves_both_equations(a: int, b: int, p: int, q: int, dx: int, dy: int)
    ensures
        (b * dx - a * dy) * p - (q * dx - p * dy) * a - (b * p - a * q) * dx == 0,
        (b * dx - a * dy) * q - (q * dx - p * dy) * b - (b * p - a * q) * dy == 0,
{
    assert((b * dx - a * dy) * p == (b * dx) * p - (a * dy) * p) by (nonlinear_arith);
    assert((q * dx - p * dy) * a == (q * dx) * a - (p * dy) * a) by (nonlinear_arith);
    assert((b * p - a * q) * dx == (b * p) * dx - (a * q) * dx) by (nonlinear_arith);
    assert((b * dx) * p == (b * p) * dx) by (nonlinear_arith);
    assert((a * dy) * p == (p * dy) * a) by (nonlinear_arith);
    assert((q * dx) * a == (a * q) * dx) by (nonlinear_arith);
    assert((b * dx - a * dy) * q == (b * dx) * q - (a * dy) * q) by (nonlinear_arith);
    assert((q * dx - p * dy) * b == (q * dx) * b - (p * dy) * b) by (nonlinear_arith);
    assert((b * p - a * q) * dy == (b * p) * dy - (a * q) * dy) by (nonlinear_arith);
    assert((b * dx) * q == (q * dx) * b) by (nonlinear_arith);
    assert((a * dy) * q == (a * q) * dy) by (nonlinear_arith);
    assert((p * dy) * b == (b * p) * dy) by (nonlinear_arith);
}

/// The origin of a ray is no hit. A hit on a segment, on a rectangle or on a
/// sequence of rectangles lies at another point than the origin, and at a
/// distance above zero and within the range of a scalar.
pub proof fn lemma_hit_is_ahead(e: Segment, b: Rect, scene: Seq<Rect>, r: RayModel)
    ensures
        edge_hit(e, r) matches Some(h) ==> 0 < h.distance <= LIMIT && h.position != r.origin,
        rect_hit(b, r) matches Some(h) ==> 0 < h.distance <= LIMIT && h.position != r.origin,
        scene_hit(scene, r) matches Some(h) ==> 0 < h.distance <= LIMIT && h.position
            != r.origin,
{
    if edge_hit(e, r) is Some {
        lemma_distance_of_distinct_points(cross_point(e, r), r.origin);
    }
    if rect_hit(b, r) is Some {
        let sides = rect_hits(b, r);
        lemma_nearest_is_least(r.origin, sides);
        let h = rect_hit(b, r)->0;
        let j = choose|j: int|
            0 <= j < sides.len() && sides[j] == Some(h) && least_at(r.origin, sides, j);
        let side = rect_edges(b)[j];
        assert(edge_hit(side, r) == Some(h));
        lemma_distance_of_distinct_points(cross_point(side, r), r.origin);
    }
    if scene_hit(scene, r) is Some {
        let hits = scene_hits(scene, r);
        lemma_nearest_is_least(r.origin, hits);
        let h = scene_hit(scene, r)->0;
        let i = choose|i: int|
            0 <= i < hits.len() && hits[i] == Some(h) && least_at(r.origin, hits, i);
        let sides = rect_hits(scene[i], r);
        lemma_nearest_is_least(r.origin, sides);
        let j = choose|j: int|
            0 <= j < sides.len() && sides[j] == Some(h) && least_at(r.origin, sides, j);
        let side = rect_edges(scene[i])[j];
        assert(edge_hit(side, r) == Some(h));
        lemma_distance_of_distinct_points(cross_point(side, r), r.origin);
    }
}

/// No hit lies at a negative distance, nor beyond the range of a scalar.
pub proof fn lemma_hit_distance_in_range(scene: Seq<Rect>, r: RayModel)
    ensures
        scene_hit(scene, r) matches Some(h) ==> 0 <= h.distance <= LIMIT,
{
    lemma_hit_is_ahead(
        Segment { start: r.origin, end: r.origin },
        Rect { min: r.origin, max: r.origin },
        scene,
        r,
    );
}

} // verus!
