//! The locomotion step: from what the entity touches and what the player
//! asks for to the velocity of the next tick.

use vstd::prelude::*;
use crate::collisions::{CollisionInfo, CoyoteStopwatch, JumpCount, PlayerVelocity};
use crate::controller::CharacterController;
use crate::fixed::{fx_add, fx_div, fx_mul, magnitude, saturate, Fixed, SCALE};
use crate::{smooth_damp, smooth_damp_spec, Smoothed};

verus! {

/// The velocity of the spring that smooths the horizontal velocity.
#[derive(Clone, Copy, Debug, PartialEq, Eq, Structural)]
pub struct VelocityXSmoothing(pub Fixed);

impl Default for VelocityXSmoothing {
    fn default() -> (r: VelocityXSmoothing)
        ensures
            r.0@ == 0,
    {
        VelocityXSmoothing(Fixed::zero())
    }
}

/// What the player asks for in one tick.
#[derive(Clone, Copy, Debug, PartialEq, Eq, Structural)]
pub struct PlayerInput {
    /// Whether the action that moves left is held.
    pub left: bool,
    /// Whether the action that moves right is held.
    pub right: bool,
    /// Whether the action that jumps was pressed in this tick.
    pub jump: bool,
}

/// The acceleration of gravity: minus twice the jump height, over the square
/// of the time that a jump takes to its apex.
pub open spec fn gravity_of(controller: CharacterController) -> int {
    fx_div(
        -saturate(2 * controller.jump_height@),
        fx_mul(controller.time_to_jump_apex@, controller.time_to_jump_apex@),
    )
}

/// The vertical velocity that a jump starts with: what gravity takes away in
/// the time to the apex.
pub open spec fn jump_velocity_of(controller: CharacterController) -> int {
    fx_mul(magnitude(gravity_of(controller)), controller.time_to_jump_apex@)
}

/// The acceleration of gravity for the given tuning.
pub fn gravity(controller: &CharacterController) -> (r: Fixed)
    ensures
        r@ == gravity_of(*controller),
{
    controller.jump_height.mul_int(2).neg().div(
        controller.time_to_jump_apex.mul(controller.time_to_jump_apex),
    )
}

/// The vertical velocity that a jump starts with for the given tuning.
pub fn jump_velocity(controller: &CharacterController) -> (r: Fixed)
    ensures
        r@ == jump_velocity_of(*controller),
{
    gravity(controller).abs().mul(controller.time_to_jump_apex)
}

/// The direction that the player asks for: minus one for left, one for right,
/// zero for neither or both.
pub open spec fn input_axis(input: PlayerInput) -> int {
    if input.left && !input.right {
        -1
    } else if input.right && !input.left {
        1
    } else {
        0
    }
}

/// Whether a jump that is asked for is granted: the entity stands on the
/// ground or left it no longer than the coyote time ago, and has not jumped
/// since it last landed.
pub open spec fn jump_granted(
    input: PlayerInput,
    below: bool,
    elapsed: int,
    coyote_time: int,
    jumps: u32,
) -> bool {
    input.jump && (below || elapsed <= coyote_time) && jumps == 0
}

/// What gravity is multiplied by for an entity of the given vertical
/// velocity.
pub open spec fn gravity_multiplier(velocity_y: int, controller: CharacterController) -> int {
    if velocity_y > 0 {
        controller.gravity_up_multiplier@
    } else if velocity_y < 0 {
        controller.gravity_down_multiplier@
    } else {
        SCALE as int
    }
}

/// The vertical velocity before gravity acts: that of a jump where one is
/// granted, none for an entity that touches floor or ceiling, else the one it
/// had.
pub open spec fn lift(
    velocity_y: int,
    granted: bool,
    collisions: CollisionInfo,
    controller: CharacterController,
) -> int {
    if granted {
        jump_velocity_of(controller)
    } else if collisions.below || collisions.above {
        0
    } else {
        velocity_y
    }
}

/// The vertical velocity after gravity has acted on it for `delta` seconds.
pub open spec fn fall(velocity_y: int, controller: CharacterController, delta: int) -> int {
    fx_add(
        velocity_y,
        fx_mul(fx_mul(gravity_of(controller), gravity_multiplier(velocity_y, controller)), delta),
    )
}

/// The horizontal velocity that the smoothing aims at.
pub open spec fn target_velocity_x(
    input: PlayerInput,
    controller: CharacterController,
    delta: int,
) -> int {
    fx_mul(input_axis(input) * controller.move_speed@, delta)
}

/// The smoothing time: that of the ground for an entity that stands on it,
/// that of the air for any other.
pub open spec fn acceleration_time(below: bool, controller: CharacterController) -> int {
    if below {
        controller.acceleration_time_grounded@
    } else {
        controller.acceleration_time_airborne@
    }
}

/// The locomotion step of one entity for a tick of `delta_seconds`.
///
/// A jump is granted to a player who asks for one if the entity stands on the
/// ground or left it within the coyote time, and has not jumped since it
/// landed; it counts as a jump and sets the vertical velocity to that of a
/// jump. Without a jump, an entity that touches floor or ceiling loses its
/// vertical velocity. The horizontal velocity takes one smoothing step toward
/// the speed and direction that the player asks for. At last gravity acts on
/// the vertical velocity.
pub fn player_input(
    delta_seconds: Fixed,
    input: &PlayerInput,
    controller: &CharacterController,
    velocity: &mut PlayerVelocity,
    vel_x_smoothing: &mut VelocityXSmoothing,
    jump_count: &mut JumpCount,
    coyote_stopwatch: &CoyoteStopwatch,
    collisions: &CollisionInfo,
)
    ensures
        ({
            let granted = jump_granted(
                *input,
                collisions.below,
                coyote_stopwatch.0@.elapsed,
                controller.coyote_time@,
                old(jump_count).0,
            );
            &&& final(jump_count).0 == if granted {
                1
            } else {
                old(jump_count).0
            }
            &&& final(velocity).0.y@ == fall(
                lift(old(velocity).0.y@, granted, *collisions, *controller),
                *controller,
                delta_seconds@,
            )
            &&& (Smoothed {
                value: final(velocity).0.x@,
                velocity: final(vel_x_smoothing).0@,
            }) == smooth_damp_spec(
                old(velocity).0.x@,
                target_velocity_x(*input, *controller, delta_seconds@),
                old(vel_x_smoothing).0@,
                acceleration_time(collisions.below, *controller),
                None,
                delta_seconds@,
            )
        }),
{
    let gravity = gravity(controller);
    let jump_velocity = jump_velocity(controller);

    if collisions.below || collisions.above {
        velocity.0.y = Fixed::zero();
    }
    let wanted = if input.left && !input.right {
        controller.move_speed.neg()
    } else if input.right && !input.left {
        controller.move_speed
    } else {
        Fixed::zero()
    };

    if input.jump && (collisions.below || coyote_stopwatch.0.elapsed_secs().le(
        controller.coyote_time,
    )) && jump_count.0 == 0 {
        jump_count.0 = jump_count.0 + 1;
        velocity.0.y = jump_velocity;
    }
    let target_velocity_x = wanted.mul(delta_seconds);
    let acceleration_time = if collisions.below {
        controller.acceleration_time_grounded
    } else {
        controller.acceleration_time_airborne
    };
    velocity.0.x = smooth_damp(
        velocity.0.x,
        target_velocity_x,
        &mut vel_x_smoothing.0,
        acceleration_time,
        None,
        delta_seconds,
    );

    let gravity_multiplier = if velocity.0.y.is_positive() {
        controller.gravity_up_multiplier
    } else if velocity.0.y.is_negative() {
        controller.gravity_down_multiplier
    } else {
        Fixed::one()
    };
    velocity.0.y = velocity.0.y.add(gravity.mul(gravity_multiplier).mul(delta_seconds));
}

} // verus!
