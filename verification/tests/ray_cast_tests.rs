use controller_2d::fixed::{Fixed, LIMIT};
use controller_2d::geometry::{Aabb, Vec2};
use controller_2d::ray_cast::{Collider, Edge, Ray, RayCast, RayHit};

fn fx(v: f64) -> Fixed {
    Fixed::from_raw((v * 1_000_000.0).round() as i64)
}

fn v2(x: f64, y: f64) -> Vec2 {
    Vec2::new(fx(x), fx(y))
}

fn raw2(x: i64, y: i64) -> Vec2 {
    Vec2::new(Fixed::from_raw(x), Fixed::from_raw(y))
}

fn boxed(width: f64, height: f64, x: f64, y: f64) -> Collider {
    Collider::new(Aabb::from_size(fx(width), fx(height)), v2(x, y))
}

fn parts(hit: Option<RayHit>) -> Option<(i64, i64, i64)> {
    hit.map(|h| (h.position.x.raw(), h.position.y.raw(), h.distance.raw()))
}

#[test]
fn ray_meets_edge_ahead() {
    let edge = Edge(v2(5.0, -1.0), v2(5.0, 1.0));
    let hit = edge.ray_cast(Ray::new(v2(0.0, 0.0), v2(1.0, 0.0)));
    assert_eq!(parts(hit), Some((5_000_000, 0, 5_000_000)));
}

#[test]
fn ray_accessors_return_what_was_given() {
    let ray = Ray::new(v2(1.0, 2.0), v2(0.0, -1.0));
    assert_eq!(ray.origin(), v2(1.0, 2.0));
    assert_eq!(ray.direction(), v2(0.0, -1.0));
    assert_eq!(ray.length(), None);
    let cut = ray.with_length(fx(3.5));
    assert_eq!(cut.origin(), v2(1.0, 2.0));
    assert_eq!(cut.direction(), v2(0.0, -1.0));
    assert_eq!(cut.length(), Some(fx(3.5)));
}

#[test]
fn ray_misses_edge_behind() {
    let edge = Edge(v2(5.0, -1.0), v2(5.0, 1.0));
    assert!(edge.ray_cast(Ray::new(v2(0.0, 0.0), v2(-1.0, 0.0))).is_none());
}

#[test]
fn ray_misses_parallel_edge() {
    let above = Edge(v2(0.0, 1.0), v2(5.0, 1.0));
    assert!(above.ray_cast(Ray::new(v2(0.0, 0.0), v2(1.0, 0.0))).is_none());
    let on_the_line = Edge(v2(2.0, 0.0), v2(5.0, 0.0));
    assert!(on_the_line.ray_cast(Ray::new(v2(0.0, 0.0), v2(1.0, 0.0))).is_none());
}

#[test]
fn ends_of_an_edge_do_not_count() {
    let from_the_line = Edge(v2(5.0, 0.0), v2(5.0, 2.0));
    let to_the_line = Edge(v2(5.0, -2.0), v2(5.0, 0.0));
    let ray = Ray::new(v2(0.0, 0.0), v2(1.0, 0.0));
    assert!(from_the_line.ray_cast(ray).is_none());
    assert!(to_the_line.ray_cast(ray).is_none());
    let just_inside = Edge(raw2(5_000_000, -1), raw2(5_000_000, 2_000_000));
    assert_eq!(parts(just_inside.ray_cast(ray)), Some((5_000_000, 0, 5_000_000)));
}

#[test]
fn origin_of_a_ray_does_not_count() {
    let edge = Edge(v2(0.0, -1.0), v2(0.0, 1.0));
    assert!(edge.ray_cast(Ray::new(v2(0.0, 0.0), v2(1.0, 0.0))).is_none());
    assert!(edge.ray_cast(Ray::new(v2(0.0, 0.0), v2(-1.0, 0.0))).is_none());
    let near = Ray::new(raw2(-1, 0), v2(1.0, 0.0));
    assert_eq!(parts(edge.ray_cast(near)), Some((0, 0, 1)));
}

#[test]
fn crossing_that_rounds_to_the_origin_is_no_hit() {
    let edge = Edge(raw2(0, 1), raw2(2, -5));
    assert!(edge.ray_cast(Ray::new(raw2(0, 0), raw2(1, -1))).is_none());
    assert!(edge.ray_cast(Ray::new(raw2(0, 0), v2(1.0, -1.0))).is_none());
    let farther = Edge(raw2(1, 1), raw2(3, -5));
    assert_eq!(parts(farther.ray_cast(Ray::new(raw2(0, 0), raw2(1, -1)))), Some((2, -2, 2)));
}

#[test]
fn ray_meets_slanted_edge() {
    let edge = Edge(v2(0.0, 4.0), v2(4.0, 0.0));
    let hit = edge.ray_cast(Ray::new(v2(0.0, 0.0), v2(1.0, 1.0)));
    assert_eq!(parts(hit), Some((2_000_000, 2_000_000, 2_828_427)));
}

#[test]
fn length_of_direction_does_not_change_the_hit() {
    let edge = Edge(v2(5.0, -1.0), v2(5.0, 1.0));
    let short = edge.ray_cast(Ray::new(v2(0.0, 0.0), v2(0.25, 0.0)));
    let long = edge.ray_cast(Ray::new(v2(0.0, 0.0), v2(40.0, 0.0)));
    assert_eq!(parts(short), Some((5_000_000, 0, 5_000_000)));
    assert_eq!(parts(long), Some((5_000_000, 0, 5_000_000)));
}

#[test]
fn crossing_point_rounds_toward_origin_of_ray() {
    let up = Edge(raw2(0, -1), raw2(10, 2));
    let down = Edge(raw2(10, 2), raw2(0, -1));
    let from_below = Ray::new(raw2(5, -5), v2(0.0, 1.0));
    let from_above = Ray::new(raw2(5, 5), v2(0.0, -1.0));
    assert_eq!(parts(up.ray_cast(from_below)), Some((5, 0, 5)));
    assert_eq!(parts(down.ray_cast(from_below)), Some((5, 0, 5)));
    assert_eq!(parts(up.ray_cast(from_above)), Some((5, 1, 4)));
    assert_eq!(parts(down.ray_cast(from_above)), Some((5, 1, 4)));
}

#[test]
fn ends_of_an_edge_in_either_order_give_the_same_hit() {
    let one = Edge(raw2(0, 0), raw2(2, 1));
    let other = Edge(raw2(2, 1), raw2(0, 0));
    let ray = Ray::new(raw2(1, -5), raw2(0, 1));
    assert_eq!(parts(one.ray_cast(ray)), Some((1, 0, 5)));
    assert_eq!(parts(other.ray_cast(ray)), Some((1, 0, 5)));
    let mut seed: u64 = 31;
    let mut dice = move |span: i64| {
        seed = seed.wrapping_mul(6364136223846793005).wrapping_add(1442695040888963407);
        ((seed >> 11) % (2 * span as u64 + 1)) as i64 - span
    };
    let mut hits = 0;
    for round in 0..20_000 {
        let span = if round % 2 == 0 { 12 } else { 3_000_000 };
        let a = raw2(dice(span), dice(span));
        let b = raw2(dice(span), dice(span));
        let origin = raw2(dice(span), dice(span));
        let mut direction = raw2(dice(span), dice(span));
        if direction == raw2(0, 0) {
            direction = raw2(1, 0);
        }
        let ray = Ray::new(origin, direction);
        let forward = parts(Edge(a, b).ray_cast(ray));
        let backward = parts(Edge(b, a).ray_cast(ray));
        assert_eq!(forward, backward);
        if forward.is_some() {
            hits += 1;
        }
    }
    assert!(hits > 500);
}

#[test]
fn hit_within_length_is_reported() {
    let edge = Edge(v2(5.0, -1.0), v2(5.0, 1.0));
    let ray = Ray::new(v2(0.0, 0.0), v2(1.0, 0.0));
    assert_eq!(parts(edge.ray_cast(ray.with_length(fx(5.0)))), Some((5_000_000, 0, 5_000_000)));
    assert_eq!(parts(edge.ray_cast(ray.with_length(fx(7.5)))), Some((5_000_000, 0, 5_000_000)));
}

#[test]
fn ray_shorter_than_distance_reports_no_hit() {
    let edge = Edge(v2(5.0, -1.0), v2(5.0, 1.0));
    let ray = Ray::new(v2(0.0, 0.0), v2(1.0, 0.0));
    assert!(edge.ray_cast(ray.with_length(Fixed::from_raw(4_999_999))).is_none());
    assert!(edge.ray_cast(ray.with_length(fx(0.0))).is_none());
    assert!(edge.ray_cast(ray.with_length(fx(-1.0))).is_none());
    let wall = boxed(10.0, 10.0, 20.0, 0.0);
    assert!(wall.ray_cast(ray.with_length(Fixed::from_raw(14_999_999))).is_none());
    assert!(vec![wall].ray_cast(ray.with_length(Fixed::from_raw(14_999_999))).is_none());
    assert!(vec![wall].ray_cast(ray.with_length(fx(15.0))).is_some());
}

#[test]
fn rectangle_is_hit_on_its_nearest_side() {
    let wall = boxed(10.0, 10.0, 20.0, 0.0);
    let from_left = wall.ray_cast(Ray::new(v2(0.0, 0.0), v2(1.0, 0.0)));
    assert_eq!(parts(from_left), Some((15_000_000, 0, 15_000_000)));
    let from_right = wall.ray_cast(Ray::new(v2(40.0, 1.0), v2(-1.0, 0.0)));
    assert_eq!(parts(from_right), Some((25_000_000, 1_000_000, 15_000_000)));
    let from_below = wall.ray_cast(Ray::new(v2(20.0, -10.0), v2(0.0, 1.0)));
    assert_eq!(parts(from_below), Some((20_000_000, -5_000_000, 5_000_000)));
    let from_above = wall.ray_cast(Ray::new(v2(18.0, 12.0), v2(0.0, -1.0)));
    assert_eq!(parts(from_above), Some((18_000_000, 5_000_000, 7_000_000)));
}

#[test]
fn rectangle_is_hit_from_inside() {
    let wall = boxed(10.0, 10.0, 20.0, 0.0);
    let hit = wall.ray_cast(Ray::new(v2(20.0, 0.0), v2(1.0, 0.0)));
    assert_eq!(parts(hit), Some((25_000_000, 0, 5_000_000)));
}

#[test]
fn rectangle_beside_the_ray_is_missed() {
    let wall = boxed(10.0, 10.0, 20.0, 0.0);
    assert!(wall.ray_cast(Ray::new(v2(0.0, 6.0), v2(1.0, 0.0))).is_none());
    assert!(wall.ray_cast(Ray::new(v2(0.0, 5.0), v2(1.0, 0.0))).is_none());
    assert!(wall.ray_cast(Ray::new(v2(0.0, 0.0), v2(0.0, 1.0))).is_none());
}

#[test]
fn collider_moves_with_its_translation() {
    let here = boxed(10.0, 10.0, 0.0, 0.0);
    let there = Collider::new(here.bounds, v2(100.0, 50.0));
    let ray = Ray::new(v2(0.0, 50.0), v2(1.0, 0.0));
    assert!(here.ray_cast(ray).is_none());
    assert_eq!(parts(there.ray_cast(ray)), Some((95_000_000, 50_000_000, 95_000_000)));
}

#[test]
fn empty_scene_is_never_hit() {
    let scene: Vec<Collider> = Vec::new();
    assert!(scene.ray_cast(Ray::new(v2(0.0, 0.0), v2(1.0, 0.0))).is_none());
}

#[test]
fn nearest_of_several_rectangles_is_hit() {
    let near = boxed(10.0, 10.0, 20.0, 0.0);
    let far = boxed(10.0, 10.0, 60.0, 0.0);
    let aside = boxed(10.0, 10.0, 10.0, 30.0);
    let ray = Ray::new(v2(0.0, 0.0), v2(1.0, 0.0));
    let expected = Some((15_000_000, 0, 15_000_000));
    assert_eq!(parts(vec![near, far, aside].ray_cast(ray)), expected);
    assert_eq!(parts(vec![aside, far, near].ray_cast(ray)), expected);
    assert_eq!(parts(vec![far, aside].ray_cast(ray)), Some((55_000_000, 0, 55_000_000)));
    assert!(vec![aside].ray_cast(ray).is_none());
}

#[test]
fn order_of_two_rectangles_does_not_matter() {
    let left = boxed(10.0, 40.0, -25.0, 0.0);
    let right = boxed(10.0, 40.0, 25.0, 0.0);
    let between_rightward = Ray::new(v2(0.0, 3.0), v2(1.0, 0.0));
    let between_leftward = Ray::new(v2(0.0, 3.0), v2(-1.0, 0.0));
    let through_both = Ray::new(v2(-50.0, -7.0), v2(1.0, 0.0));
    let slanted = Ray::new(v2(0.0, 0.0), v2(3.0, 1.0));
    for ray in [between_rightward, between_leftward, through_both, slanted] {
        let one = parts(vec![left, right].ray_cast(ray));
        let other = parts(vec![right, left].ray_cast(ray));
        assert!(one.is_some());
        assert_eq!(one, other);
    }
    assert_eq!(
        parts(vec![left, right].ray_cast(between_rightward)),
        Some((20_000_000, 3_000_000, 20_000_000))
    );
    assert_eq!(
        parts(vec![left, right].ray_cast(between_leftward)),
        Some((-20_000_000, 3_000_000, 20_000_000))
    );
    assert_eq!(
        parts(vec![right, left].ray_cast(through_both)),
        Some((-30_000_000, -7_000_000, 20_000_000))
    );
}

#[test]
fn nearest_hit_beyond_the_range_of_a_distance_does_not_depend_on_order() {
    let start = Vec2::new(Fixed::from_raw(-LIMIT), fx(0.0));
    let ray = Ray::new(start, v2(1.0, 0.0));
    let nearer = boxed(10.0, 10.0, 500_000.0, 0.0);
    let farther = boxed(10.0, 10.0, 900_000.0, 0.0);
    // Every distance here stops at the border of the range; the near side of
    // the nearer rectangle is still the hit.
    let expected = Some((499_995_000_000, 0, LIMIT));
    assert_eq!(parts(vec![nearer, farther].ray_cast(ray)), expected);
    assert_eq!(parts(vec![farther, nearer].ray_cast(ray)), expected);
    assert_eq!(parts(vec![farther].ray_cast(ray)), Some((899_995_000_000, 0, LIMIT)));
}

#[test]
fn hits_that_round_to_one_distance_do_not_depend_on_order() {
    let cornered = |x0: i64, y0: i64, x1: i64, y1: i64| {
        Collider::new(Aabb::new(raw2(x0, y0), raw2(x1, y1)), Vec2::zero())
    };
    let one = cornered(0, 1, 3, 6);
    let other = cornered(4, 2, 5, 6);
    let ray = Ray::new(raw2(-4, -1), raw2(2, 1));
    assert_eq!(parts(one.ray_cast(ray)), Some((3, 2, 7)));
    assert_eq!(parts(other.ray_cast(ray)), Some((4, 3, 8)));
    assert_eq!(parts(vec![one, other].ray_cast(ray)), Some((3, 2, 7)));
    assert_eq!(parts(vec![other, one].ray_cast(ray)), Some((3, 2, 7)));
    let left = cornered(0, 0, 10, 10);
    let right = cornered(10, 0, 20, 10);
    let slanted = Ray::new(raw2(5, 5), raw2(3, 1));
    assert_eq!(
        parts(vec![left, right].ray_cast(slanted)),
        parts(vec![right, left].ray_cast(slanted))
    );
}

#[test]
fn nearest_hit_does_not_depend_on_the_order_of_the_scene() {
    let mut seed: u64 = 77;
    let mut dice = move |span: i64| {
        seed = seed.wrapping_mul(6364136223846793005).wrapping_add(1442695040888963407);
        ((seed >> 11) % (2 * span as u64 + 1)) as i64 - span
    };
    let mut hits = 0;
    for round in 0..5_000 {
        let span = if round % 2 == 0 { 20 } else { 2_000_000 };
        let mut scene = Vec::new();
        for _ in 0..4 {
            let (x, y) = (dice(span), dice(span));
            let (w, h) = (dice(span).abs() + 1, dice(span).abs() + 1);
            scene.push(Collider::new(Aabb::new(raw2(x, y), raw2(x + w, y + h)), Vec2::zero()));
        }
        let mut direction = raw2(dice(span), dice(span));
        if direction == raw2(0, 0) {
            direction = raw2(0, -1);
        }
        let ray = Ray::new(raw2(dice(span), dice(span)), direction);
        let expected = parts(scene.ray_cast(ray));
        let mut turned = scene.clone();
        for _ in 0..4 {
            turned.rotate_left(1);
            assert_eq!(parts(turned.ray_cast(ray)), expected);
        }
        turned.reverse();
        assert_eq!(parts(turned.ray_cast(ray)), expected);
        turned.swap(1, 2);
        assert_eq!(parts(turned.ray_cast(ray)), expected);
        if expected.is_some() {
            hits += 1;
        }
    }
    assert!(hits > 500);
}
