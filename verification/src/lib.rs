//! Kinematic 2D platformer character controller over fixed-point numbers.
//!
//! The collision sweep stops the velocity of an entity at the nearest
//! obstacle and records which of its sides touch one. The locomotion step
//! turns those records and the input of the player into a new velocity:
//! jumps, a grace time for jumping after leaving the ground, smoothed
//! horizontal movement and gravity. Obstacles are rectangles along the axes.
//!
//! Lengths are in world units and times in seconds. Both are scalars of
//! [`fixed::Fixed`]: whole numbers of millionths that stop at the border of
//! their range and round toward zero. A velocity is the displacement of one
//! tick. The contracts speak of the views of the values, which are whole
//! numbers of millionths.
//!
//! The caller decides when each step runs. A velocity that the locomotion
//! step has set is meant to pass through both passes of the sweep, the
//! horizontal one first, before the entity is moved by it: the passes are what
//! keeps the entity out of the obstacles.
//!
//! - [`fixed`] and [`geometry`]: scalars, vectors and boxes.
//! - [`ray_cast`]: rays against segments, rectangles and scenes, and
//!   [`ray_lemmas`]: what holds of them.
//! - [`collisions`]: ray spacing and origins, the two passes of the sweep, and
//!   the count of jumps and the coyote stopwatch that follow its events;
//!   [`sweep_lemmas`]: what holds of the passes.
//! - [`input`]: the locomotion step, and [`smooth_damp`], which it smooths the
//!   horizontal velocity with; [`coyote_lemmas`], [`jump_lemmas`] and
//!   [`smooth_lemmas`]: what holds of the coyote time, of jumps and of
//!   smoothing.
//! - [`controller`]: the tuning of an entity, and the step that moves it.
//! - [`stopwatch`]: the stopwatch behind the coyote time.

use vstd::prelude::*;
use crate::collisions::{
    CollisionInfo, CoyoteStopwatch, JumpCount, PlayerVelocity, RaySpacing, RaycastOrigins,
};
pub use crate::controller::CharacterController;
use crate::fixed::{
    clamp_between, fx_add, fx_div, fx_mul, fx_sub, magnitude, option_view, Fixed, SCALE,
};
use crate::input::VelocityXSmoothing;
use crate::smooth_lemmas::{lemma_fx_mul_of_positives, lemma_smoothing_never_recedes};

pub mod collisions;
pub mod controller;
pub mod coyote_lemmas;
pub mod fixed;
pub mod geometry;
pub mod input;
pub mod jump_lemmas;
pub mod ray_cast;
pub mod ray_lemmas;
pub mod smooth_lemmas;
pub mod stopwatch;
pub mod sweep_lemmas;

verus! {

/// All the state of one controlled entity.
#[derive(Clone, Copy, Debug, PartialEq, Eq, Structural)]
pub struct CharacterControllerBundle {
    pub controller: CharacterController,
    pub jump_count: JumpCount,
    pub coyote_stopwatch: CoyoteStopwatch,
    pub velocity_x_smoothing: VelocityXSmoothing,
    pub velocity: PlayerVelocity,
    pub ray_spacing: RaySpacing,
    pub collisions: CollisionInfo,
    pub raycast_origins: RaycastOrigins,
}

impl CharacterControllerBundle {
    /// Whether everything but the tuning is in its first state: no jump taken,
    /// a running stopwatch at zero, no velocity, nothing touched, and spacing
    /// and origins not yet computed.
    pub open spec fn is_fresh(self) -> bool {
        &&& self.jump_count.0 == 0
        &&& self.coyote_stopwatch.0@ == (crate::stopwatch::StopwatchModel {
            elapsed: 0,
            paused: false,
        })
        &&& self.velocity_x_smoothing.0@ == 0
        &&& self.velocity.0@ == (crate::geometry::Point { x: 0, y: 0 })
        &&& self.ray_spacing.horizontal@ == 0
        &&& self.ray_spacing.vertical@ == 0
        &&& self.collisions == (CollisionInfo {
            above: false,
            below: false,
            left: false,
            right: false,
        })
        &&& self.raycast_origins.top_left@ == (crate::geometry::Point { x: 0, y: 0 })
        &&& self.raycast_origins.top_right@ == (crate::geometry::Point { x: 0, y: 0 })
        &&& self.raycast_origins.bottom_left@ == (crate::geometry::Point { x: 0, y: 0 })
        &&& self.raycast_origins.bottom_right@ == (crate::geometry::Point { x: 0, y: 0 })
    }

    /// The state of an entity with the given tuning before its first tick.
    pub fn new(controller: CharacterController) -> (r: CharacterControllerBundle)
        ensures
            r.controller == controller,
            r.is_fresh(),
    {
        CharacterControllerBundle {
            controller,
            jump_count: JumpCount::default(),
            coyote_stopwatch: CoyoteStopwatch::default(),
            velocity_x_smoothing: VelocityXSmoothing::default(),
            velocity: PlayerVelocity::default(),
            ray_spacing: RaySpacing::default(),
            collisions: CollisionInfo::default(),
            raycast_origins: RaycastOrigins::default(),
        }
    }
}

impl Default for CharacterControllerBundle {
    fn default() -> (r: CharacterControllerBundle)
        ensures
            r.controller.is_default(),
            r.is_fresh(),
    {
        CharacterControllerBundle::new(CharacterController::default())
    }
}

/// The least smoothing time, in raw units: a shorter one counts as this.
pub const MIN_SMOOTH_TIME: i64 = 100;

/// What a step of smoothing gives: the new value, and the new velocity of the
/// spring that is carried to the next step.
pub struct Smoothed {
    pub value: int,
    pub velocity: int,
}

/// The stiffness of the spring: two over the smoothing time, which is at least
/// [`MIN_SMOOTH_TIME`].
pub open spec fn stiffness(smooth_time: int) -> int {
    fx_div(2 * SCALE, vstd::math::max(smooth_time, MIN_SMOOTH_TIME as int))
}

/// What the decay of a step of `x` time constants is one over:
/// `1 + x + 0.48 x^2 + 0.235 x^3`.
pub open spec fn decay_divisor(x: int) -> int {
    fx_add(
        fx_add(fx_add(SCALE as int, x), fx_mul(fx_mul(480_000, x), x)),
        fx_mul(fx_mul(fx_mul(235_000, x), x), x),
    )
}

/// The share of the distance that is left after a step of `x` time constants.
pub open spec fn decay(x: int) -> int {
    fx_div(SCALE as int, decay_divisor(x))
}

/// The distance from the target that a step starts from: from `current` to
/// `target`, no longer than the maximum speed allows in one smoothing time.
pub open spec fn limited_change(
    current: int,
    target: int,
    smooth_time: int,
    max_speed: Option<int>,
) -> int {
    let change = fx_sub(current, target);
    match max_speed {
        Some(speed) => {
            let most = fx_mul(speed, vstd::math::max(smooth_time, MIN_SMOOTH_TIME as int));
            clamp_between(change, -most, most)
        },
        None => change,
    }
}

/// One step of a critically damped spring from `current` toward `target`,
/// before the guard against overshooting.
pub open spec fn spring_step(
    current: int,
    target: int,
    velocity: int,
    smooth_time: int,
    max_speed: Option<int>,
    delta_time: int,
) -> Smoothed {
    let omega = stiffness(smooth_time);
    let exp = decay(fx_mul(omega, delta_time));
    let change = limited_change(current, target, smooth_time, max_speed);
    let temp = fx_mul(fx_add(velocity, fx_mul(omega, change)), delta_time);
    Smoothed {
        value: fx_add(fx_sub(current, change), fx_mul(fx_add(change, temp), exp)),
        velocity: fx_mul(fx_sub(velocity, fx_mul(omega, temp)), exp),
    }
}

/// Whether the spring is at rest or moves toward the target: it does not move
/// down below the target nor up above it, and it is at rest at the target.
pub open spec fn settles(current: int, target: int, velocity: int) -> bool {
    if current < target {
        velocity >= 0
    } else if current > target {
        velocity <= 0
    } else {
        velocity == 0
    }
}

/// Whether a step from `current` that would end at `value` reaches the target
/// or passes it: from below the target to the target or above it, or from the
/// target or above it to the target or below it.
pub open spec fn overshoots(current: int, target: int, value: int) -> bool {
    if current < target {
        value >= target
    } else {
        value <= target
    }
}

/// What a step of the spring is held to where the spring did not move away
/// from the target: rounding neither carries the value back behind where it
/// was nor turns the spring around. Where the spring moved away from the
/// target, the step is left as it is.
pub open spec fn held(current: int, target: int, velocity: int, step: Smoothed) -> Smoothed {
    if current < target && velocity >= 0 {
        Smoothed {
            value: vstd::math::max(step.value, current),
            velocity: vstd::math::max(step.velocity, 0),
        }
    } else if current > target && velocity <= 0 {
        Smoothed {
            value: vstd::math::min(step.value, current),
            velocity: vstd::math::min(step.velocity, 0),
        }
    } else {
        step
    }
}

/// One step of smoothing: where the step of the spring would reach the target
/// or pass it, the target itself with the spring at rest; else the step of
/// the spring, held so that a spring that did not move away from the target
/// brings the value no farther from it.
pub open spec fn smooth_damp_spec(
    current: int,
    target: int,
    velocity: int,
    smooth_time: int,
    max_speed: Option<int>,
    delta_time: int,
) -> Smoothed {
    let step = spring_step(current, target, velocity, smooth_time, max_speed, delta_time);
    if overshoots(current, target, step.value) {
        Smoothed { value: target, velocity: 0 }
    } else {
        held(current, target, velocity, step)
    }
}

/// Moves `current` toward `target` as a critically damped spring does in
/// `delta_time`, without passing the target, and returns the new value.
/// `current_velocity` is the velocity of the spring, carried from one step to
/// the next. `max_speed` limits the speed of the approach; none means no
/// limit.
///
/// A value whose spring is at rest or moves toward the target never ends
/// farther from the target than it began, however short the step and however
/// long the smoothing time, and its spring keeps moving toward the target or
/// rests.
pub fn smooth_damp(
    current: Fixed,
    target: Fixed,
    current_velocity: &mut Fixed,
    smooth_time: Fixed,
    max_speed: Option<Fixed>,
    delta_time: Fixed,
) -> (output: Fixed)
    requires
        max_speed matches Some(speed) ==> speed@ >= 0,
    ensures
        (Smoothed { value: output@, velocity: final(current_velocity)@ }) == smooth_damp_spec(
            current@,
            target@,
            old(current_velocity)@,
            smooth_time@,
            option_view(max_speed),
            delta_time@,
        ),
        current@ < target@ ==> output@ <= target@,
        current@ >= target@ ==> output@ >= target@,
        settles(current@, target@, old(current_velocity)@) ==> magnitude(output@ - target@)
            <= magnitude(current@ - target@),
        settles(current@, target@, old(current_velocity)@) ==> settles(
            output@,
            target@,
            final(current_velocity)@,
        ),
{
    let before = *current_velocity;
    let below = current.raw() < target.raw();
    let above = current.raw() > target.raw();
    proof {
        lemma_smoothing_never_recedes(
            current@,
            target@,
            before@,
            smooth_time@,
            option_view(max_speed),
            delta_time@,
        );
    }
    let smooth_time = smooth_time.max(Fixed::from_raw(MIN_SMOOTH_TIME));
    let omega = Fixed::from_int(2).div(smooth_time);
    let x = omega.mul(delta_time);
    let exp = Fixed::one().div(
        Fixed::one().add(x).add(Fixed::from_raw(480_000).mul(x).mul(x)).add(
            Fixed::from_raw(235_000).mul(x).mul(x).mul(x),
        ),
    );
    let mut change = current.sub(target);
    let goal = target;
    match max_speed {
        Some(speed) => {
            let max_change = speed.mul(smooth_time);
            proof {
                lemma_fx_mul_of_positives(speed@, smooth_time@);
            }
            change = change.clamp(max_change.neg(), max_change);
        },
        None => {},
    }
    let target = current.sub(change);
    let temp = current_velocity.add(omega.mul(change)).mul(delta_time);
    *current_velocity = current_velocity.sub(omega.mul(temp)).mul(exp);
    let mut output = target.add(change.add(temp).mul(exp));
    let reached = if below {
        output.ge(goal)
    } else {
        output.le(goal)
    };
    if reached {
        output = goal;
        *current_velocity = output.sub(goal).div(delta_time);
    } else if below && !before.is_negative() {
        output = output.max(current);
        *current_velocity = current_velocity.max(Fixed::zero());
    } else if above && !before.is_positive() {
        output = output.min(current);
        *current_velocity = current_velocity.min(Fixed::zero());
    }
    output
}

} // verus!
