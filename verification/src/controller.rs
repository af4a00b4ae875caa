//! The tuning of a controlled entity, and the step that moves it.

use vstd::prelude::*;
use crate::collisions::PlayerVelocity;
use crate::fixed::Fixed;
use crate::geometry::{point_add, Vec2};

verus! {

/// The tuning of one controlled entity. Lengths are in world units, times in
/// seconds.
#[derive(Clone, Copy, Debug, PartialEq, Eq, Structural)]
pub struct CharacterController {
    /// Movement speed.
    pub move_speed: Fixed,
    /// Jump height.
    pub jump_height: Fixed,
    /// Time to reach the top of a jump.
    pub time_to_jump_apex: Fixed,
    /// Time to reach the movement speed on the ground.
    pub acceleration_time_grounded: Fixed,
    /// Time to reach the movement speed in the air.
    pub acceleration_time_airborne: Fixed,
    /// What gravity is multiplied by while the entity rises.
    pub gravity_up_multiplier: Fixed,
    /// What gravity is multiplied by while the entity falls.
    pub gravity_down_multiplier: Fixed,
    /// For how long after leaving a platform a jump is still granted.
    pub coyote_time: Fixed,
    /// By how much the rays start inside the box of the entity.
    pub skin_width: Fixed,
    /// Number of rays of the horizontal fan.
    pub horizontal_ray_count: u8,
    /// Number of rays of the vertical fan.
    pub vertical_ray_count: u8,
}

impl CharacterController {
    /// Whether the tuning is the one that an entity gets where none is chosen:
    /// a speed of 400, jumps of 2 that take 0.4 s to their apex, 0.1 s and
    /// 0.2 s to reach the speed on the ground and in the air, gravity as it is
    /// on the way up and half again as strong on the way down, 0.08 s of
    /// coyote time, a skin of 1, and fans of six and four rays.
    pub open spec fn is_default(self) -> bool {
        &&& self.move_speed@ == 400_000_000
        &&& self.jump_height@ == 2_000_000
        &&& self.time_to_jump_apex@ == 400_000
        &&& self.acceleration_time_grounded@ == 100_000
        &&& self.acceleration_time_airborne@ == 200_000
        &&& self.gravity_up_multiplier@ == 1_000_000
        &&& self.gravity_down_multiplier@ == 1_500_000
        &&& self.coyote_time@ == 80_000
        &&& self.skin_width@ == 1_000_000
        &&& self.horizontal_ray_count == 6
        &&& self.vertical_ray_count == 4
    }
}

impl Default for CharacterController {
    fn default() -> (r: CharacterController)
        ensures
            r.is_default(),
    {
        CharacterController {
            move_speed: Fixed::from_raw(400_000_000),
            jump_height: Fixed::from_raw(2_000_000),
            time_to_jump_apex: Fixed::from_raw(400_000),
            acceleration_time_grounded: Fixed::from_raw(100_000),
            acceleration_time_airborne: Fixed::from_raw(200_000),
            gravity_up_multiplier: Fixed::from_raw(1_000_000),
            gravity_down_multiplier: Fixed::from_raw(1_500_000),
            coyote_time: Fixed::from_raw(80_000),
            skin_width: Fixed::from_raw(1_000_000),
            horizontal_ray_count: 6,
            vertical_ray_count: 4,
        }
    }
}

/// Moves an entity by its velocity: the displacement of one tick, with no
/// further look at obstacles.
pub fn move_player(velocity: &PlayerVelocity, translation: &mut Vec2)
    ensures
        final(translation)@ == point_add(old(translation)@, velocity.0@),
{
    *translation = translation.add(velocity.0);
}

} // verus!
