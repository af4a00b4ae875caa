//! The collision sweep: fans of parallel rays that stop the velocity of an
//! entity at the nearest obstacle, and the state that follows from it.

use vstd::prelude::*;
use crate::controller::CharacterController;
use crate::fixed::{fx_add, fx_sub, magnitude, saturate, trunc_div, Fixed, SCALE};
use crate::geometry::{rect_expand, rect_size, rect_translate, Aabb, Point, Rect, Vec2};
use crate::stopwatch::{ticked, Stopwatch, StopwatchModel};
use crate::ray_cast::{
    bounded, has_direction, scene_hit, scene_of, unbounded, Collider, Ray, RayCast, RayModel,
};
use crate::ray_lemmas::lemma_bounded_ray_on_scene;

verus! {

/// The displacement of an entity per tick.
#[derive(Clone, Copy, Debug, PartialEq, Eq, Structural)]
pub struct PlayerVelocity(pub Vec2);

impl Default for PlayerVelocity {
    fn default() -> (r: PlayerVelocity)
        ensures
            r.0@ == (Point { x: 0, y: 0 }),
    {
        PlayerVelocity(Vec2::zero())
    }
}

/// The distance between neighbouring rays of the horizontal and of the
/// vertical fan.
#[derive(Clone, Copy, Debug, PartialEq, Eq, Structural)]
pub struct RaySpacing {
    pub horizontal: Fixed,
    pub vertical: Fixed,
}

impl Default for RaySpacing {
    fn default() -> (r: RaySpacing)
        ensures
            r.horizontal@ == 0,
            r.vertical@ == 0,
    {
        RaySpacing { horizontal: Fixed::zero(), vertical: Fixed::zero() }
    }
}

/// On which sides the last sweeps found an obstacle.
#[derive(Clone, Copy, Debug, PartialEq, Eq, Structural)]
pub struct CollisionInfo {
    pub above: bool,
    pub below: bool,
    pub left: bool,
    pub right: bool,
}

impl Default for CollisionInfo {
    fn default() -> (r: CollisionInfo)
        ensures
            r == (CollisionInfo { above: false, below: false, left: false, right: false }),
    {
        CollisionInfo { above: false, below: false, left: false, right: false }
    }
}

/// The corners, in the world, of the box of an entity after its inset.
#[derive(Clone, Copy, Debug, PartialEq, Eq, Structural)]
pub struct RaycastOrigins {
    pub top_left: Vec2,
    pub top_right: Vec2,
    pub bottom_left: Vec2,
    pub bottom_right: Vec2,
}

impl Default for RaycastOrigins {
    fn default() -> (r: RaycastOrigins)
        ensures
            r.top_left@ == (Point { x: 0, y: 0 }),
            r.top_right@ == (Point { x: 0, y: 0 }),
            r.bottom_left@ == (Point { x: 0, y: 0 }),
            r.bottom_right@ == (Point { x: 0, y: 0 }),
    {
        RaycastOrigins {
            top_left: Vec2::zero(),
            top_right: Vec2::zero(),
            bottom_left: Vec2::zero(),
            bottom_right: Vec2::zero(),
        }
    }
}

/// The number of jumps since the entity last landed.
#[derive(Clone, Copy, Debug, PartialEq, Eq, Structural)]
pub struct JumpCount(pub u32);

impl Default for JumpCount {
    fn default() -> (r: JumpCount)
        ensures
            r.0 == 0,
    {
        JumpCount(0)
    }
}

/// The time since the entity left the ground without a jump.
#[derive(Clone, Copy, Debug, PartialEq, Eq, Structural)]
pub struct CoyoteStopwatch(pub Stopwatch);

impl Default for CoyoteStopwatch {
    fn default() -> (r: CoyoteStopwatch)
        ensures
            r.0@ == (StopwatchModel { elapsed: 0, paused: false }),
    {
        CoyoteStopwatch(Stopwatch::new())
    }
}

/// A side of an entity, with whether it now touches an obstacle.
#[derive(Clone, Copy, Debug, PartialEq, Eq, Structural)]
pub enum CollisionSide {
    Below(bool),
    Above(bool),
    Left(bool),
    Right(bool),
}

/// The news that one side of an entity began or ceased to touch an obstacle.
#[derive(Clone, Copy, Debug, PartialEq, Eq, Structural)]
pub struct CollisionEvent {
    pub entity: u64,
    pub side: CollisionSide,
}

/// By how much the box of an entity is inset on every side before rays are
/// cast from it: twice the skin width.
pub open spec fn inset_of(skin_width: int) -> int {
    saturate(-2 * skin_width)
}

/// The box of an entity after its inset.
pub open spec fn inset_bounds(bounds: Rect, skin_width: int) -> Rect {
    rect_expand(bounds, Point { x: inset_of(skin_width), y: inset_of(skin_width) })
}

/// The distance between neighbouring rays where `count` of them share
/// `extent`: none for fewer than two rays.
pub open spec fn spacing_of(extent: int, count: u8) -> int {
    if count <= 1 {
        0
    } else {
        trunc_div(extent, count - 1)
    }
}

fn inset(bounds: &Aabb, skin_width: Fixed) -> (r: Aabb)
    ensures
        r@ == inset_bounds(bounds@, skin_width@),
{
    let amount = skin_width.mul_int(-2);
    bounds.expand(Vec2::new(amount, amount))
}

fn spacing(extent: Fixed, count: u8) -> (r: Fixed)
    ensures
        r@ == spacing_of(extent@, count),
{
    if count <= 1 {
        Fixed::zero()
    } else {
        extent.div_int((count - 1) as i32)
    }
}

/// Sets the spacing of both fans from the box of the entity and its tuning:
/// the rays of the horizontal fan share the height of the inset box, those of
/// the vertical fan its width.
pub fn calculate_ray_spacing(
    ray_spacing: &mut RaySpacing,
    controller: &CharacterController,
    bounds: &Aabb,
)
    ensures
        final(ray_spacing).horizontal@ == spacing_of(
            rect_size(inset_bounds(bounds@, controller.skin_width@)).y,
            controller.horizontal_ray_count,
        ),
        final(ray_spacing).vertical@ == spacing_of(
            rect_size(inset_bounds(bounds@, controller.skin_width@)).x,
            controller.vertical_ray_count,
        ),
{
    let size = inset(bounds, controller.skin_width).size();
    ray_spacing.horizontal = spacing(size.y, controller.horizontal_ray_count);
    ray_spacing.vertical = spacing(size.x, controller.vertical_ray_count);
}

/// Sets the four origins to the corners of the inset box of the entity, moved
/// to where the entity stands.
pub fn update_ray_origins(
    ray_origins: &mut RaycastOrigins,
    controller: &CharacterController,
    translation: Vec2,
    bounds: &Aabb,
)
    ensures
        ({
            let world = rect_translate(
                inset_bounds(bounds@, controller.skin_width@),
                translation@,
            );
            &&& final(ray_origins).top_left@ == (Point { x: world.min.x, y: world.max.y })
            &&& final(ray_origins).top_right@ == (Point { x: world.max.x, y: world.max.y })
            &&& final(ray_origins).bottom_left@ == (Point { x: world.min.x, y: world.min.y })
            &&& final(ray_origins).bottom_right@ == (Point { x: world.max.x, y: world.min.y })
        }),
{
    let world = inset(bounds, controller.skin_width).translate(translation);
    ray_origins.top_left = Vec2::new(world.min.x, world.max.y);
    ray_origins.top_right = Vec2::new(world.max.x, world.max.y);
    ray_origins.bottom_left = Vec2::new(world.min.x, world.min.y);
    ray_origins.bottom_right = Vec2::new(world.max.x, world.min.y);
}

/// A fan of parallel rays: the view of the rays that one pass of the sweep
/// casts.
pub struct FanModel {
    /// The corner from which the origins of the rays are counted.
    pub base: Point,
    /// Whether the origins are spread along the x axis, and not the y axis.
    pub along_x: bool,
    /// The number of rays that the tuning asks for.
    pub count: u8,
    /// The distance between neighbouring rays.
    pub spacing: int,
    /// The length of the side of the box that the rays start from.
    pub extent: int,
    /// By how much every origin is moved along the side.
    pub shift: int,
    /// The direction of every ray.
    pub direction: Point,
}

struct Fan {
    base: Vec2,
    along_x: bool,
    count: u8,
    spacing: Fixed,
    extent: Fixed,
    shift: Fixed,
    direction: Vec2,
}

impl View for Fan {
    type V = FanModel;

    closed spec fn view(&self) -> FanModel {
        FanModel {
            base: self.base@,
            along_x: self.along_x,
            count: self.count,
            spacing: self.spacing@,
            extent: self.extent@,
            shift: self.shift@,
            direction: self.direction@,
        }
    }
}

/// The number of rays of a fan: one where the tuning asks for fewer than two.
pub open spec fn fan_size(count: u8) -> int {
    if count <= 1 {
        1
    } else {
        count as int
    }
}

/// How far along the side ray `i` of a fan starts: a single ray in the middle
/// of the side, several rays one spacing from the next.
pub open spec fn fan_offset(fan: FanModel, i: int) -> int {
    if fan.count <= 1 {
        fx_add(trunc_div(fan.extent, 2), fan.shift)
    } else {
        fx_add(saturate(fan.spacing * i), fan.shift)
    }
}

/// Ray `i` of a fan, without end.
pub open spec fn fan_ray(fan: FanModel, i: int) -> RayModel {
    RayModel {
        origin: if fan.along_x {
            Point { x: fx_add(fan.base.x, fan_offset(fan, i)), y: fan.base.y }
        } else {
            Point { x: fan.base.x, y: fx_add(fan.base.y, fan_offset(fan, i)) }
        },
        direction: fan.direction,
        length: None,
    }
}

/// Whether ray `i` of a fan meets an obstacle of the scene within `reach`.
pub open spec fn ray_touches(scene: Seq<Rect>, fan: FanModel, reach: int, i: int) -> bool {
    scene_hit(scene, fan_ray(fan, i)) matches Some(h) && h.distance <= reach
}

/// Whether one of the first `n` rays of a fan meets an obstacle within `reach`.
pub open spec fn fan_touches(scene: Seq<Rect>, fan: FanModel, reach: int, n: int) -> bool {
    exists|i: int| 0 <= i < n && ray_touches(scene, fan, reach, i)
}

/// The least of `reach` and the distances at which the first `n` rays of a fan
/// meet an obstacle.
pub open spec fn fan_reach(scene: Seq<Rect>, fan: FanModel, reach: int, n: int) -> int
    decreases n,
{
    if n <= 0 {
        reach
    } else {
        let before = fan_reach(scene, fan, reach, n - 1);
        match scene_hit(scene, fan_ray(fan, n - 1)) {
            Some(h) => vstd::math::min(before, h.distance),
            None => before,
        }
    }
}

/// Casts the rays of a fan, each no farther than the nearest hit so far, and
/// returns whether any of them hit, and the distance of the nearest hit.
fn cast_fan(colliders: &Vec<Collider>, fan: &Fan, reach: Fixed) -> (r: (bool, Fixed))
    requires
        has_direction(fan.direction@),
    ensures
        r.0 == fan_touches(scene_of(colliders@), fan@, reach@, fan_size(fan.count)),
        r.1@ == fan_reach(scene_of(colliders@), fan@, reach@, fan_size(fan.count)),
{
    let n: u8 = if fan.count <= 1 {
        1
    } else {
        fan.count
    };
    let ghost scene = scene_of(colliders@);
    let mut touched = false;
    let mut nearest = reach;
    let mut i: u8 = 0;
    while i < n
        invariant
            i <= n,
            n == fan_size(fan.count),
            has_direction(fan.direction@),
            scene == scene_of(colliders@),
            touched == fan_touches(scene, fan@, reach@, i as int),
            nearest@ == fan_reach(scene, fan@, reach@, i as int),
            nearest@ <= reach@,
            !touched ==> nearest@ == reach@,
        decreases n - i,
    {
        let offset = if fan.count <= 1 {
            fan.extent.div_int(2).add(fan.shift)
        } else {
            fan.spacing.mul_int(i as i32).add(fan.shift)
        };
        let origin = if fan.along_x {
            Vec2::new(fan.base.x.add(offset), fan.base.y)
        } else {
            Vec2::new(fan.base.x, fan.base.y.add(offset))
        };
        let ray = Ray::new(origin, fan.direction).with_length(nearest);
        let hit = colliders.ray_cast(ray);
        proof {
            let endless = fan_ray(fan@, i as int);
            assert(unbounded(endless) == endless);
            lemma_bounded_ray_on_scene(scene, endless, nearest@);
            assert(ray@ == bounded(endless, nearest@));
            assert(fan_touches(scene, fan@, reach@, i + 1) == (fan_touches(
                scene,
                fan@,
                reach@,
                i as int,
            ) || ray_touches(scene, fan@, reach@, i as int))) by {
                if fan_touches(scene, fan@, reach@, i + 1) {
                    let j = choose|j: int| 0 <= j < i + 1 && ray_touches(scene, fan@, reach@, j);
                    if j < i {
                        assert(ray_touches(scene, fan@, reach@, j));
                    }
                }
                if fan_touches(scene, fan@, reach@, i as int) {
                    let j = choose|j: int| 0 <= j < i && ray_touches(scene, fan@, reach@, j);
                    assert(ray_touches(scene, fan@, reach@, j));
                }
            }
        }
        match hit {
            Some(h) => {
                touched = true;
                nearest = h.distance;
            },
            None => {},
        }
        i += 1;
    }
    (touched, nearest)
}

/// The events of one pass: for each of its two sides, in the order given, the
/// new state of the side where it differs from the old one.
pub open spec fn transitions(
    entity: u64,
    first: (bool, CollisionSide),
    second: (bool, CollisionSide),
) -> Seq<CollisionEvent> {
    let one = if first.0 {
        seq![CollisionEvent { entity, side: first.1 }]
    } else {
        Seq::<CollisionEvent>::empty()
    };
    let two = if second.0 {
        seq![CollisionEvent { entity, side: second.1 }]
    } else {
        Seq::<CollisionEvent>::empty()
    };
    one + two
}

/// The velocity along the axis of a pass after the pass: where a ray hit, the
/// distance to the nearest hit less the skin width, in the direction of
/// travel.
pub open spec fn stopped(
    velocity: int,
    touched: bool,
    reach: int,
    skin_width: int,
    forward: bool,
) -> int {
    if touched {
        if forward {
            fx_sub(reach, skin_width)
        } else {
            -fx_sub(reach, skin_width)
        }
    } else {
        velocity
    }
}

/// The fan of the horizontal pass: rays along the direction of travel, from
/// the side of the inset box that faces it, spread upward from its lower
/// corner.
pub open spec fn horizontal_fan(
    velocity: Point,
    controller: CharacterController,
    origins: RaycastOrigins,
    spacing: RaySpacing,
) -> FanModel {
    let base = if velocity.x < 0 {
        origins.bottom_left@
    } else {
        origins.bottom_right@
    };
    let top = if velocity.x < 0 {
        origins.top_left@
    } else {
        origins.top_right@
    };
    FanModel {
        base,
        along_x: false,
        count: controller.horizontal_ray_count,
        spacing: spacing.horizontal@,
        extent: fx_sub(top.y, base.y),
        shift: 0,
        direction: Point {
            x: if velocity.x < 0 {
                -(SCALE as int)
            } else {
                SCALE as int
            },
            y: 0,
        },
    }
}

/// The fan of the vertical pass: rays downward unless the entity rises, from
/// the lower or the upper side of the inset box, spread rightward from its
/// left corner and moved by the horizontal velocity.
pub open spec fn vertical_fan(
    velocity: Point,
    controller: CharacterController,
    origins: RaycastOrigins,
    spacing: RaySpacing,
) -> FanModel {
    let base = if velocity.y > 0 {
        origins.top_left@
    } else {
        origins.bottom_left@
    };
    let right = if velocity.y > 0 {
        origins.top_right@
    } else {
        origins.bottom_right@
    };
    FanModel {
        base,
        along_x: true,
        count: controller.vertical_ray_count,
        spacing: spacing.vertical@,
        extent: fx_sub(right.x, base.x),
        shift: velocity.x,
        direction: Point {
            x: 0,
            y: if velocity.y > 0 {
                SCALE as int
            } else {
                -(SCALE as int)
            },
        },
    }
}

/// How far the rays of a pass reach at first: the speed along its axis and the
/// skin width.
pub open spec fn first_reach(speed: int, skin_width: int) -> int {
    fx_add(magnitude(speed), skin_width)
}

/// Whether a ray of the horizontal pass meets an obstacle within its reach.
pub open spec fn horizontal_touches(
    velocity: Point,
    controller: CharacterController,
    origins: RaycastOrigins,
    spacing: RaySpacing,
    scene: Seq<Rect>,
) -> bool {
    fan_touches(
        scene,
        horizontal_fan(velocity, controller, origins, spacing),
        first_reach(velocity.x, controller.skin_width@),
        fan_size(controller.horizontal_ray_count),
    )
}

/// The distance to the nearest obstacle that a ray of the horizontal pass
/// meets within its reach.
pub open spec fn horizontal_reach(
    velocity: Point,
    controller: CharacterController,
    origins: RaycastOrigins,
    spacing: RaySpacing,
    scene: Seq<Rect>,
) -> int {
    fan_reach(
        scene,
        horizontal_fan(velocity, controller, origins, spacing),
        first_reach(velocity.x, controller.skin_width@),
        fan_size(controller.horizontal_ray_count),
    )
}

/// Whether a ray of the vertical pass meets an obstacle within its reach.
pub open spec fn vertical_touches(
    velocity: Point,
    controller: CharacterController,
    origins: RaycastOrigins,
    spacing: RaySpacing,
    scene: Seq<Rect>,
) -> bool {
    fan_touches(
        scene,
        vertical_fan(velocity, controller, origins, spacing),
        first_reach(velocity.y, controller.skin_width@),
        fan_size(controller.vertical_ray_count),
    )
}

/// The distance to the nearest obstacle that a ray of the vertical pass meets
/// within its reach.
pub open spec fn vertical_reach(
    velocity: Point,
    controller: CharacterController,
    origins: RaycastOrigins,
    spacing: RaySpacing,
    scene: Seq<Rect>,
) -> int {
    fan_reach(
        scene,
        vertical_fan(velocity, controller, origins, spacing),
        first_reach(velocity.y, controller.skin_width@),
        fan_size(controller.vertical_ray_count),
    )
}

/// The horizontal pass of the sweep. An entity that does not move horizontally
/// is left as it is: its velocity, what it touches, and the events. For one
/// that moves, the rays of the horizontal fan are cast; where one hits, the
/// horizontal velocity becomes the distance to the nearest hit less the skin
/// width, in the direction of travel. The side that faces the travel touches
/// if a ray hit, the other side does not, and each of the two that changed
/// adds an event, left before right.
pub fn horizontal_collisions(
    entity: u64,
    velocity: &mut PlayerVelocity,
    collisions: &mut CollisionInfo,
    controller: &CharacterController,
    raycast_origins: &RaycastOrigins,
    ray_spacing: &RaySpacing,
    colliders: &Vec<Collider>,
    collision_events: &mut Vec<CollisionEvent>,
)
    ensures
        old(velocity).0.x@ == 0 ==> {
            &&& *final(velocity) == *old(velocity)
            &&& *final(collisions) == *old(collisions)
            &&& final(collision_events)@ == old(collision_events)@
        },
        old(velocity).0.x@ != 0 ==> ({
            let before = old(velocity).0@;
            let scene = scene_of(colliders@);
            let touched = horizontal_touches(
                before,
                *controller,
                *raycast_origins,
                *ray_spacing,
                scene,
            );
            let left = touched && before.x < 0;
            let right = touched && before.x > 0;
            &&& final(velocity).0.y == old(velocity).0.y
            &&& final(velocity).0.x@ == stopped(
                before.x,
                touched,
                horizontal_reach(before, *controller, *raycast_origins, *ray_spacing, scene),
                controller.skin_width@,
                before.x > 0,
            )
            &&& *final(collisions) == (CollisionInfo { left, right, ..*old(collisions) })
            &&& final(collision_events)@ == old(collision_events)@ + transitions(
                entity,
                (old(collisions).left != left, CollisionSide::Left(left)),
                (old(collisions).right != right, CollisionSide::Right(right)),
            )
        }),
{
    if velocity.0.x.is_zero() {
        return ;
    }
    let leftward = velocity.0.x.is_negative();
    let base = if leftward {
        raycast_origins.bottom_left
    } else {
        raycast_origins.bottom_right
    };
    let top = if leftward {
        raycast_origins.top_left
    } else {
        raycast_origins.top_right
    };
    let fan = Fan {
        base,
        along_x: false,
        count: controller.horizontal_ray_count,
        spacing: ray_spacing.horizontal,
        extent: top.y.sub(base.y),
        shift: Fixed::zero(),
        direction: Vec2::new(velocity.0.x.signum(), Fixed::zero()),
    };
    let reach = velocity.0.x.abs().add(controller.skin_width);
    let (touched, nearest) = cast_fan(colliders, &fan, reach);
    if touched {
        let gap = nearest.sub(controller.skin_width);
        velocity.0.x = if leftward {
            gap.neg()
        } else {
            gap
        };
    }
    let left = touched && leftward;
    let right = touched && !leftward;
    let ghost events = collision_events@;
    if collisions.left != left {
        collisions.left = left;
        collision_events.push(CollisionEvent { entity, side: CollisionSide::Left(left) });
    }
    if collisions.right != right {
        collisions.right = right;
        collision_events.push(CollisionEvent { entity, side: CollisionSide::Right(right) });
    }
    proof {
        let first = (old(collisions).left != left, CollisionSide::Left(left));
        let second = (old(collisions).right != right, CollisionSide::Right(right));
        assert(collision_events@ =~= events + transitions(entity, first, second));
    }
}

/// The vertical pass of the sweep, which runs whatever the velocity. The rays
/// of the vertical fan are cast, upward for an entity that rises and downward
/// for any other; where one hits, the vertical velocity becomes the distance
/// to the nearest hit less the skin width, in the direction of the rays. The
/// side that the rays leave from touches if a ray hit, the opposite side does
/// not, and each of the two that changed adds an event, below before above.
/// The horizontal velocity stays as it is.
pub fn vertical_collisions(
    entity: u64,
    velocity: &mut PlayerVelocity,
    collisions: &mut CollisionInfo,
    controller: &CharacterController,
    raycast_origins: &RaycastOrigins,
    ray_spacing: &RaySpacing,
    colliders: &Vec<Collider>,
    collision_events: &mut Vec<CollisionEvent>,
)
    ensures
        ({
            let before = old(velocity).0@;
            let scene = scene_of(colliders@);
            let touched = vertical_touches(
                before,
                *controller,
                *raycast_origins,
                *ray_spacing,
                scene,
            );
            let below = touched && before.y <= 0;
            let above = touched && before.y > 0;
            &&& final(velocity).0.x == old(velocity).0.x
            &&& final(velocity).0.y@ == stopped(
                before.y,
                touched,
                vertical_reach(before, *controller, *raycast_origins, *ray_spacing, scene),
                controller.skin_width@,
                before.y > 0,
            )
            &&& *final(collisions) == (CollisionInfo { below, above, ..*old(collisions) })
            &&& final(collision_events)@ == old(collision_events)@ + transitions(
                entity,
                (old(collisions).below != below, CollisionSide::Below(below)),
                (old(collisions).above != above, CollisionSide::Above(above)),
            )
        }),
{
    let upward = velocity.0.y.is_positive();
    let base = if upward {
        raycast_origins.top_left
    } else {
        raycast_origins.bottom_left
    };
    let right = if upward {
        raycast_origins.top_right
    } else {
        raycast_origins.bottom_right
    };
    let direction = if upward {
        Fixed::one()
    } else {
        Fixed::one().neg()
    };
    let fan = Fan {
        base,
        along_x: true,
        count: controller.vertical_ray_count,
        spacing: ray_spacing.vertical,
        extent: right.x.sub(base.x),
        shift: velocity.0.x,
        direction: Vec2::new(Fixed::zero(), direction),
    };
    let reach = velocity.0.y.abs().add(controller.skin_width);
    let (touched, nearest) = cast_fan(colliders, &fan, reach);
    if touched {
        let gap = nearest.sub(controller.skin_width);
        velocity.0.y = if upward {
            gap
        } else {
            gap.neg()
        };
    }
    let below = touched && !upward;
    let above = touched && upward;
    let ghost events = collision_events@;
    if collisions.below != below {
        collisions.below = below;
        collision_events.push(CollisionEvent { entity, side: CollisionSide::Below(below) });
    }
    if collisions.above != above {
        collisions.above = above;
        collision_events.push(CollisionEvent { entity, side: CollisionSide::Above(above) });
    }
    proof {
        let first = (old(collisions).below != below, CollisionSide::Below(below));
        let second = (old(collisions).above != above, CollisionSide::Above(above));
        assert(collision_events@ =~= events + transitions(entity, first, second));
    }
}

/// Whether an event says that `entity` landed.
pub open spec fn is_landing(event: CollisionEvent, entity: u64) -> bool {
    event.entity == entity && event.side == CollisionSide::Below(true)
}

/// Sets the count of jumps of `entity` back to zero if one of the events says
/// that it landed, and leaves it as it is otherwise.
pub fn reset_jumps(collision_events: &Vec<CollisionEvent>, entity: u64, jump_count: &mut JumpCount)
    ensures
        final(jump_count).0 == if exists|i: int|
            0 <= i < collision_events.len() && is_landing(collision_events[i], entity) {
            0
        } else {
            old(jump_count).0
        },
{
    let mut i: usize = 0;
    let mut landed = false;
    while i < collision_events.len()
        invariant
            i <= collision_events.len(),
            landed == exists|j: int| 0 <= j < i && is_landing(collision_events[j], entity),
        decreases collision_events.len() - i,
    {
        let event = collision_events[i];
        let lands = event.entity == entity && match event.side {
            CollisionSide::Below(below) => below,
            _ => false,
        };
        proof {
            assert(lands == is_landing(collision_events[i as int], entity));
            if lands {
                assert(is_landing(collision_events[i as int], entity));
            }
            if exists|j: int| 0 <= j < i + 1 && is_landing(collision_events[j], entity) {
                let j = choose|j: int| 0 <= j < i + 1 && is_landing(collision_events[j], entity);
                if j < i {
                    assert(is_landing(collision_events[j], entity));
                }
            }
        }
        if lands {
            landed = true;
        }
        i += 1;
    }
    if landed {
        jump_count.0 = 0;
    }
}

/// The coyote stopwatch of `entity` after one event. Landing pauses it and
/// sets it back to zero; leaving the ground starts it again, but only for an
/// entity that has not jumped. An event of another entity or another side
/// leaves it as it is.
pub open spec fn coyote_after_event(
    watch: StopwatchModel,
    jumps: u32,
    event: CollisionEvent,
    entity: u64,
) -> StopwatchModel {
    match event.side {
        CollisionSide::Below(below) => if event.entity != entity {
            watch
        } else if below {
            StopwatchModel { elapsed: 0, paused: true }
        } else if jumps == 0 {
            StopwatchModel { paused: false, ..watch }
        } else {
            watch
        },
        _ => watch,
    }
}

/// The coyote stopwatch of `entity` after a sequence of events, taken in
/// order.
pub open spec fn coyote_after_events(
    watch: StopwatchModel,
    jumps: u32,
    events: Seq<CollisionEvent>,
    entity: u64,
) -> StopwatchModel
    decreases events.len(),
{
    if events.len() == 0 {
        watch
    } else {
        coyote_after_event(
            coyote_after_events(watch, jumps, events.drop_last(), entity),
            jumps,
            events.last(),
            entity,
        )
    }
}

/// The coyote stopwatch of `entity` after one tick: after the events of the
/// tick, and then after its time.
pub open spec fn coyote_step(
    watch: StopwatchModel,
    jumps: u32,
    events: Seq<CollisionEvent>,
    entity: u64,
    delta: int,
) -> StopwatchModel {
    ticked(coyote_after_events(watch, jumps, events, entity), delta)
}

/// Keeps the coyote stopwatch of `entity`: takes the events of this tick in
/// order, then lets `delta` pass.
pub fn coyote_time(
    delta: Fixed,
    collision_events: &Vec<CollisionEvent>,
    entity: u64,
    coyote_stopwatch: &mut CoyoteStopwatch,
    jump_count: &JumpCount,
)
    ensures
        final(coyote_stopwatch).0@ == coyote_step(
            old(coyote_stopwatch).0@,
            jump_count.0,
            collision_events@,
            entity,
            delta@,
        ),
{
    let mut i: usize = 0;
    while i < collision_events.len()
        invariant
            i <= collision_events.len(),
            coyote_stopwatch.0@ == coyote_after_events(
                old(coyote_stopwatch).0@,
                jump_count.0,
                collision_events@.take(i as int),
                entity,
            ),
        decreases collision_events.len() - i,
    {
        let event = collision_events[i];
        proof {
            assert(collision_events@.take(i + 1).drop_last() =~= collision_events@.take(i as int));
        }
        if event.entity == entity {
            match event.side {
                CollisionSide::Below(below) => {
                    if below {
                        coyote_stopwatch.0.pause();
                        coyote_stopwatch.0.reset();
                    } else if jump_count.0 == 0 {
                        coyote_stopwatch.0.unpause();
                    }
                },
                _ => {},
            }
        }
        i += 1;
    }
    proof {
        assert(collision_events@.take(i as int) =~= collision_events@);
    }
    coyote_stopwatch.0.tick(delta);
}

} // verus!
