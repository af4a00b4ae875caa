//! What holds of a jump: under gravity as it is, the velocity that a jump
//! starts with is used up when the time to the apex has passed.

use vstd::prelude::*;
use crate::controller::CharacterController;
use crate::fixed::{fx_mul, in_range, LIMIT, SCALE};
use crate::input::{fall, gravity_of, jump_velocity_of};
use crate::smooth_lemmas::{lemma_fx_mul_is_odd, lemma_fx_mul_of_positives};

verus! {

/// The time that ticks of the given lengths take together.
pub open spec fn time_passed(deltas: Seq<int>) -> int
    decreases deltas.len(),
{
    if deltas.len() == 0 {
        0
    } else {
        time_passed(deltas.drop_last()) + deltas.last()
    }
}

/// The vertical velocity of an entity in the air after ticks of the given
/// lengths in which gravity alone acts on it.
pub open spec fn velocity_after(
    velocity_y: int,
    controller: CharacterController,
    deltas: Seq<int>,
) -> int
    decreases deltas.len(),
{
    if deltas.len() == 0 {
        velocity_y
    } else {
        fall(velocity_after(velocity_y, controller, deltas.drop_last()), controller, deltas.last())
    }
}

/// How far the velocity of a jump is from what gravity leaves of it without
/// rounding, in millionths of a millionth: the velocity, less gravity times
/// the time that is left to the apex.
pub open spec fn rounding_of_rise(controller: CharacterController, deltas: Seq<int>) -> int {
    velocity_after(jump_velocity_of(controller), controller, deltas) * SCALE + gravity_of(
        controller,
    ) * (controller.time_to_jump_apex@ - time_passed(deltas))
}

/// A jump ends at its apex. Gravity points down and is not multiplied on the
/// way up, and the ticks are no longer together than the time to the apex.
/// Then the entity still rises or rests after them, and its velocity is what
/// gravity leaves of the velocity of the jump, to within a millionth for each
/// tick. So when the ticks take the time to the apex, the velocity is zero to
/// within a millionth for each tick.
pub proof fn lemma_jump_ends_at_its_apex(controller: CharacterController, deltas: Seq<int>)
    requires
        controller.gravity_up_multiplier@ == SCALE,
        gravity_of(controller) <= 0,
        0 <= controller.time_to_jump_apex@ <= LIMIT,
        jump_velocity_of(controller) < LIMIT,
        forall|k: int| 0 <= k < deltas.len() ==> 0 <= #[trigger] deltas[k],
        time_passed(deltas) <= controller.time_to_jump_apex@,
    ensures
        0 <= velocity_after(jump_velocity_of(controller), controller, deltas),
        -SCALE < rounding_of_rise(controller, deltas) <= deltas.len() * SCALE,
        time_passed(deltas) == controller.time_to_jump_apex@ ==> velocity_after(
            jump_velocity_of(controller),
            controller,
            deltas,
        ) <= deltas.len(),
    decreases deltas.len(),
{
    let s = SCALE as int;
    let pull = -gravity_of(controller);
    let apex = controller.time_to_jump_apex@;
    let jump = jump_velocity_of(controller);
    lemma_fx_mul_of_positives(pull, apex);
    assert(jump == (pull * apex) / s);
    vstd::arithmetic::div_mod::lemma_fundamental_div_mod(pull * apex, s);
    assert(jump * s == s * jump) by (nonlinear_arith);
    if deltas.len() == 0 {
        assert(gravity_of(controller) * (apex - 0) == -(pull * apex)) by (nonlinear_arith)
            requires
                pull == -gravity_of(controller),
        ;
    } else {
        let front = deltas.drop_last();
        let delta = deltas.last();
        assert(time_passed(front) >= 0) by {
            lemma_time_passed_not_negative(front);
        }
        lemma_jump_ends_at_its_apex(controller, front);
        let before = velocity_after(jump, controller, front);
        let after = velocity_after(jump, controller, deltas);
        assert(in_range(gravity_of(controller)));
        assert(fx_mul(gravity_of(controller), s) == gravity_of(controller)) by {
            lemma_fx_mul_is_odd(pull, s);
            lemma_fx_mul_of_positives(pull, s);
            vstd::arithmetic::div_mod::lemma_div_multiples_vanish(pull, s);
            assert(pull * s == s * pull) by (nonlinear_arith);
        }
        let drop = fx_mul(pull, delta);
        lemma_fx_mul_is_odd(pull, delta);
        lemma_fx_mul_of_positives(pull, delta);
        assert(pull * delta <= pull * apex) by (nonlinear_arith)
            requires
                pull >= 0,
                0 <= delta <= apex,
        ;
        vstd::arithmetic::div_mod::lemma_div_is_ordered(pull * delta, pull * apex, s);
        assert(drop == (pull * delta) / s);
        vstd::arithmetic::div_mod::lemma_fundamental_div_mod(pull * delta, s);
        assert(drop * s == s * drop) by (nonlinear_arith);
        assert(gravity_of(controller) * (apex - time_passed(deltas)) == gravity_of(controller)
            * (apex - time_passed(front)) + pull * delta) by (nonlinear_arith)
            requires
                pull == -gravity_of(controller),
                time_passed(deltas) == time_passed(front) + delta,
        ;
        assert(pull * (apex - time_passed(deltas)) >= 0) by (nonlinear_arith)
            requires
                pull >= 0,
                apex - time_passed(deltas) >= 0,
        ;
        assert(gravity_of(controller) * (apex - time_passed(deltas)) == -(pull * (apex
            - time_passed(deltas)))) by (nonlinear_arith)
            requires
                pull == -gravity_of(controller),
        ;
        assert((before - drop) * s == before * s - drop * s) by (nonlinear_arith);
        assert(before - drop >= 0) by (nonlinear_arith)
            requires
                (before - drop) * s > -s,
                s > 0,
        ;
        assert(after == before - drop);
        if time_passed(deltas) == apex {
            assert(after <= deltas.len()) by (nonlinear_arith)
                requires
                    after * s <= deltas.len() * s,
                    s > 0,
            ;
        }
    }
}

/// Ticks that are not of negative length take no negative time together.
proof fn lemma_time_passed_not_negative(deltas: Seq<int>)
    requires
        forall|k: int| 0 <= k < deltas.len() ==> 0 <= #[trigger] deltas[k],
    ensures
        time_passed(deltas) >= 0,
    decreases deltas.len(),
{
    if deltas.len() > 0 {
        lemma_time_passed_not_negative(deltas.drop_last());
    }
}

} // verus!
