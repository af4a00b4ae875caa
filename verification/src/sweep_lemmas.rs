//! What holds of the sweep: the reach of a fan is the least distance of its
//! rays, an obstacle ahead of a ray is touched, and a pass only slows an
//! entity down and keeps the skin width between it and what lies ahead of its
//! rays.

use vstd::prelude::*;
use crate::collisions::{
    fan_ray, fan_reach, fan_size, fan_touches, first_reach, ray_touches, stopped, vertical_fan,
    vertical_touches, FanModel, RaySpacing, RaycastOrigins,
};
use crate::controller::CharacterController;
use crate::fixed::{in_range, LIMIT};
use crate::geometry::{Point, Rect};
use crate::ray_cast::scene_hit;
use crate::ray_lemmas::{
    gap_ahead, lemma_axis_ray_meets_rect, lemma_hit_distance_in_range, lemma_scene_hit_no_farther,
};

verus! {

/// Whether ray `i` of a fan meets an obstacle of the scene at `distance`.
pub open spec fn ray_meets_at(scene: Seq<Rect>, fan: FanModel, i: int, distance: int) -> bool {
    scene_hit(scene, fan_ray(fan, i)) matches Some(h) && h.distance == distance
}

/// The reach of a fan does not depend on the order of its rays: it is the
/// least of the first reach and the distances at which its rays meet an
/// obstacle. It is no more than any of these, and it is one of them.
pub proof fn lemma_fan_reach_is_least(scene: Seq<Rect>, fan: FanModel, reach: int, n: int)
    requires
        n >= 0,
    ensures
        fan_reach(scene, fan, reach, n) <= reach,
        forall|i: int, d: int|
            0 <= i < n && #[trigger] ray_meets_at(scene, fan, i, d) ==> fan_reach(
                scene,
                fan,
                reach,
                n,
            ) <= d,
        fan_reach(scene, fan, reach, n) == reach || exists|i: int|
            0 <= i < n && #[trigger] ray_meets_at(scene, fan, i, fan_reach(scene, fan, reach, n)),
        fan_touches(scene, fan, reach, n) ==> exists|i: int|
            0 <= i < n && #[trigger] ray_meets_at(scene, fan, i, fan_reach(scene, fan, reach, n)),
    decreases n,
{
    if n > 0 {
        lemma_fan_reach_is_least(scene, fan, reach, n - 1);
        let before = fan_reach(scene, fan, reach, n - 1);
        let now = fan_reach(scene, fan, reach, n);
        assert forall|i: int, d: int| 0 <= i < n && #[trigger] ray_meets_at(scene, fan, i, d)
            implies now <= d by {
            if i < n - 1 {
                assert(before <= d);
            }
        }
        if now != before {
            assert(ray_meets_at(scene, fan, n - 1, now));
        } else if before != reach {
            let i = choose|i: int| 0 <= i < n - 1 && #[trigger] ray_meets_at(scene, fan, i, before);
            assert(ray_meets_at(scene, fan, i, now));
        }
        if fan_touches(scene, fan, reach, n) {
            let j = choose|j: int| 0 <= j < n && ray_touches(scene, fan, reach, j);
            let d = scene_hit(scene, fan_ray(fan, j))->0.distance;
            assert(ray_meets_at(scene, fan, j, d));
            assert(now <= d);
            if now == reach {
                assert(ray_meets_at(scene, fan, j, now));
            }
        }
    }
}

/// A fan touches the obstacle that lies ahead of one of its rays. Where a
/// rectangle of the scene lies ahead of the origin of a ray of the fan, on
/// both sides of its line, and the side that faces the ray is no farther away
/// than the rays reach, a ray of the fan hits.
pub proof fn lemma_obstacle_ahead_is_touched(
    scene: Seq<Rect>,
    fan: FanModel,
    reach: int,
    n: int,
    obstacle: int,
    i: int,
)
    requires
        0 <= obstacle < scene.len(),
        0 <= i < n,
        reach <= LIMIT,
        gap_ahead(scene[obstacle], fan_ray(fan, i)) matches Some(gap) && gap <= reach,
    ensures
        fan_touches(scene, fan, reach, n),
{
    let ray = fan_ray(fan, i);
    lemma_axis_ray_meets_rect(scene[obstacle], ray);
    lemma_scene_hit_no_farther(scene, ray, obstacle);
    assert(ray_touches(scene, fan, reach, i));
}

/// An entity that does not rise touches the floor under it. Where one ray of
/// the vertical fan starts above an obstacle, between its left and its right
/// side, and the top of the obstacle is no farther below the origin of the ray
/// than the rays reach, the vertical pass finds that a ray hit: it then
/// reports that the entity touches below.
pub proof fn lemma_floor_is_touched(
    velocity: Point,
    controller: CharacterController,
    origins: RaycastOrigins,
    spacing: RaySpacing,
    scene: Seq<Rect>,
    floor: int,
    i: int,
)
    requires
        velocity.y <= 0,
        0 <= floor < scene.len(),
        0 <= i < fan_size(controller.vertical_ray_count),
        ({
            let ray = fan_ray(vertical_fan(velocity, controller, origins, spacing), i);
            &&& scene[floor].min.x < ray.origin.x < scene[floor].max.x
            &&& scene[floor].max.y < ray.origin.y
            &&& ray.origin.y - scene[floor].max.y <= first_reach(
                velocity.y,
                controller.skin_width@,
            )
        }),
    ensures
        vertical_touches(velocity, controller, origins, spacing, scene),
{
    lemma_obstacle_ahead_is_touched(
        scene,
        vertical_fan(velocity, controller, origins, spacing),
        first_reach(velocity.y, controller.skin_width@),
        fan_size(controller.vertical_ray_count),
        floor,
        i,
    );
}

/// A pass of the sweep only slows an entity down. Along the axis of the pass,
/// the velocity after it is no faster in the direction of travel than the
/// velocity before it, and against the direction of travel it is no faster
/// than the skin width: that far an obstacle that is nearer than the skin
/// width pushes the entity back.
pub proof fn lemma_sweep_only_slows(
    scene: Seq<Rect>,
    fan: FanModel,
    velocity: int,
    skin_width: int,
    n: int,
)
    requires
        n >= 0,
        in_range(velocity),
        0 <= skin_width <= LIMIT,
    ensures
        ({
            let reach = first_reach(velocity, skin_width);
            let after = stopped(
                velocity,
                fan_touches(scene, fan, reach, n),
                fan_reach(scene, fan, reach, n),
                skin_width,
                velocity > 0,
            );
            &&& velocity > 0 ==> -skin_width <= after <= velocity
            &&& velocity <= 0 ==> velocity <= after <= skin_width
        }),
{
    let reach = first_reach(velocity, skin_width);
    let least = fan_reach(scene, fan, reach, n);
    lemma_fan_reach_is_least(scene, fan, reach, n);
    if least != reach {
        let i = choose|i: int| 0 <= i < n && #[trigger] ray_meets_at(scene, fan, i, least);
        lemma_hit_distance_in_range(scene, fan_ray(fan, i));
    }
}

/// A pass of the sweep keeps the skin width between an entity and what lies
/// ahead of its rays. Where a rectangle of the scene lies ahead of the origin
/// of a ray of the fan and on both sides of its line, the velocity after the
/// pass carries the origin of the ray no nearer to the side that faces it than
/// the skin width.
pub proof fn lemma_sweep_keeps_the_skin(
    scene: Seq<Rect>,
    fan: FanModel,
    velocity: int,
    skin_width: int,
    n: int,
    obstacle: int,
    i: int,
)
    requires
        0 <= obstacle < scene.len(),
        0 <= i < n,
        in_range(velocity),
        0 <= skin_width <= LIMIT,
        gap_ahead(scene[obstacle], fan_ray(fan, i)) is Some,
    ensures
        ({
            let reach = first_reach(velocity, skin_width);
            let gap = gap_ahead(scene[obstacle], fan_ray(fan, i))->0;
            let after = stopped(
                velocity,
                fan_touches(scene, fan, reach, n),
                fan_reach(scene, fan, reach, n),
                skin_width,
                velocity > 0,
            );
            &&& velocity > 0 ==> after <= gap - skin_width
            &&& velocity <= 0 ==> -after <= gap - skin_width
        }),
{
    let reach = first_reach(velocity, skin_width);
    let ray = fan_ray(fan, i);
    lemma_axis_ray_meets_rect(scene[obstacle], ray);
    lemma_scene_hit_no_farther(scene, ray, obstacle);
    let d = scene_hit(scene, ray)->0.distance;
    assert(ray_meets_at(scene, fan, i, d));
    lemma_fan_reach_is_least(scene, fan, reach, n);
    if !fan_touches(scene, fan, reach, n) {
        assert(!ray_touches(scene, fan, reach, i));
    }
}

} // verus!
