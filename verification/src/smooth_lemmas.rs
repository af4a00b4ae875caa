//! What holds of smoothing: a step does not pass its target and rests once
//! it has reached it, no step carries the value away from the target unless
//! the spring moved away before, a step that is long enough to count brings
//! the value nearer to the target, and repeated steps of that kind reach it.

use vstd::prelude::*;
use crate::fixed::{fx_add, fx_mul, fx_sub, in_range, magnitude, saturate, LIMIT, SCALE};
use crate::{
    decay, decay_divisor, limited_change, settles, smooth_damp_spec, spring_step, stiffness,
    Smoothed, MIN_SMOOTH_TIME,
};

verus! {

/// A product of scalars that are not negative is not negative, and no more
/// than the product of their numbers of millionths allows.
pub proof fn lemma_fx_mul_of_positives(a: int, b: int)
    requires
        a >= 0,
        b >= 0,
    ensures
        0 <= fx_mul(a, b),
        fx_mul(a, b) * SCALE <= a * b,
        fx_mul(a, b) == saturate((a * b) / (SCALE as int)),
{
    assert(a * b >= 0) by (nonlinear_arith)
        requires
            a >= 0,
            b >= 0,
    ;
    let q = (a * b) / (SCALE as int);
    assert(0 <= q && q * SCALE <= a * b) by (nonlinear_arith)
        requires
            a * b >= 0,
            q == (a * b) / (SCALE as int),
    ;
    assert(saturate(q) * SCALE <= q * SCALE) by (nonlinear_arith)
        requires
            0 <= saturate(q) <= q,
    ;
}

/// Turning the sign of a factor turns the sign of the product.
pub proof fn lemma_fx_mul_is_odd(a: int, b: int)
    ensures
        fx_mul(-a, b) == -fx_mul(a, b),
        fx_mul(a, -b) == -fx_mul(a, b),
{
    assert((-a) * b == -(a * b) && a * (-b) == -(a * b)) by (nonlinear_arith);
}

/// No step of smoothing passes its target: a value below the target does not
/// end above it, and a value at or above the target does not end below it.
pub proof fn lemma_smoothing_stays_on_its_side(
    current: int,
    target: int,
    velocity: int,
    smooth_time: int,
    max_speed: Option<int>,
    delta_time: int,
)
    ensures
        ({
            let next = smooth_damp_spec(
                current,
                target,
                velocity,
                smooth_time,
                max_speed,
                delta_time,
            );
            &&& current < target ==> next.value <= target
            &&& current >= target ==> next.value >= target
        }),
{
}

/// A value that has reached its target with the spring at rest stays there,
/// whatever the smoothing time and the length of the step.
pub proof fn lemma_smoothing_rests_at_target(
    target: int,
    smooth_time: int,
    max_speed: Option<int>,
    delta_time: int,
)
    requires
        in_range(target),
        max_speed matches Some(speed) ==> speed >= 0,
    ensures
        smooth_damp_spec(target, target, 0, smooth_time, max_speed, delta_time) == (Smoothed {
            value: target,
            velocity: 0,
        }),
{
    let omega = stiffness(smooth_time);
    let exp = decay(fx_mul(omega, delta_time));
    let change = limited_change(target, target, smooth_time, max_speed);
    match max_speed {
        Some(speed) => {
            lemma_fx_mul_of_positives(speed, vstd::math::max(smooth_time, MIN_SMOOTH_TIME as int));
        },
        None => {},
    }
    assert(change == 0);
    lemma_zero_product(omega);
    lemma_zero_product(delta_time);
    lemma_zero_product(exp);
}

/// No step of smoothing carries a value away from its target, or the spring
/// away from it, unless the spring moved away before. Where the spring is at
/// rest or moves toward the target, then after a step of any length and for
/// any smoothing time the value is no farther from the target than it was and
/// on the same side of it, and the spring is at rest or moves toward the
/// target.
pub proof fn lemma_smoothing_never_recedes(
    current: int,
    target: int,
    velocity: int,
    smooth_time: int,
    max_speed: Option<int>,
    delta_time: int,
)
    requires
        in_range(target),
        max_speed matches Some(speed) ==> speed >= 0,
    ensures
        ({
            let next = smooth_damp_spec(
                current,
                target,
                velocity,
                smooth_time,
                max_speed,
                delta_time,
            );
            settles(current, target, velocity) ==> {
                &&& magnitude(next.value - target) <= magnitude(current - target)
                &&& current <= target ==> current <= next.value <= target
                &&& current >= target ==> target <= next.value <= current
                &&& settles(next.value, target, next.velocity)
            }
        }),
{
    if current == target && velocity == 0 {
        lemma_smoothing_rests_at_target(target, smooth_time, max_speed, delta_time);
    }
}

/// A product with zero is zero.
proof fn lemma_zero_product(a: int)
    ensures
        fx_mul(a, 0) == 0,
        fx_mul(0, a) == 0,
{
    assert(a * 0 == 0 && 0 * a == 0) by (nonlinear_arith);
}

/// The stiffness of the spring is not negative.
pub proof fn lemma_stiffness_not_negative(smooth_time: int)
    ensures
        0 <= stiffness(smooth_time) <= LIMIT,
{
    let time = vstd::math::max(smooth_time, MIN_SMOOTH_TIME as int);
    assert(2 * SCALE * SCALE >= 0);
    vstd::arithmetic::div_mod::lemma_div_pos_is_pos(2 * SCALE * SCALE, time);
}

/// Whether a step of `delta_time` is long enough for its decay to count, and
/// short enough for the decay to be in range: the step is between 0.001444
/// and 999998.999999 time constants long.
pub open spec fn resolves(smooth_time: int, delta_time: int) -> bool {
    let x = fx_mul(stiffness(smooth_time), delta_time);
    delta_time >= 0 && 1_444 <= x <= LIMIT - SCALE - 1
}

/// The decay of a step that is long enough to count: less than what one over
/// `1 + x` would be.
proof fn lemma_decay_counts(x: int)
    requires
        1_444 <= x <= LIMIT - SCALE - 1,
    ensures
        decay_divisor(x) >= SCALE + x + 1,
        0 <= decay(x),
        decay(x) * decay_divisor(x) <= SCALE * SCALE,
{
    let first = fx_mul(480_000, x);
    assert(first >= 693) by {
        lemma_fx_mul_of_positives(480_000, x);
        assert(480_000 * x >= 693 * SCALE);
        vstd::arithmetic::div_mod::lemma_div_is_ordered(
            693 * SCALE,
            480_000 * x,
            SCALE as int,
        );
        assert((693 * SCALE) / (SCALE as int) == 693);
    }
    let second = fx_mul(first, x);
    assert(second >= 1) by {
        lemma_fx_mul_of_positives(first, x);
        assert(first * x >= 1 * SCALE) by (nonlinear_arith)
            requires
                first >= 693,
                x >= 1_444,
        ;
        vstd::arithmetic::div_mod::lemma_div_is_ordered(
            1 * SCALE,
            first * x,
            SCALE as int,
        );
        assert((1 * SCALE) / (SCALE as int) == 1);
    }
    let cube = fx_mul(fx_mul(fx_mul(235_000, x), x), x);
    assert(cube >= 0) by {
        lemma_fx_mul_of_positives(235_000, x);
        lemma_fx_mul_of_positives(fx_mul(235_000, x), x);
        lemma_fx_mul_of_positives(fx_mul(fx_mul(235_000, x), x), x);
    }
    let d = decay_divisor(x);
    assert(d >= SCALE + x + 1);
    assert(SCALE * SCALE == 1_000_000_000_000int) by (nonlinear_arith);
    let q = (SCALE * SCALE) / d;
    assert(0 <= q && q * d <= SCALE * SCALE && q <= SCALE * SCALE) by (nonlinear_arith)
        requires
            d >= 1,
            SCALE * SCALE >= 0,
            q == (SCALE * SCALE) / d,
    ;
    assert(decay(x) == q);
}

/// What makes a decayed step shrink. A distance `c` that a step lengthens by
/// no more than `t`, and then lets decay, is shorter than before: the decay
/// `exp` is one over `d`, and `d` is more than one and `x`, which is what
/// the step can lengthen the distance by.
proof fn lemma_decayed_step_shrinks(
    c: int,
    t: int,
    ct: int,
    exp: int,
    d: int,
    omega: int,
    dt: int,
    x: int,
)
    requires
        c > 0,
        t >= 0,
        0 <= ct <= c + t,
        t * (SCALE * SCALE) <= omega * c * dt,
        0 <= exp,
        exp * d <= SCALE * SCALE,
        d >= SCALE + x + 1,
        x >= 0,
        omega >= 0,
        dt >= 0,
        omega * dt < (x + 1) * SCALE,
    ensures
        (ct * exp) / (SCALE as int) <= c - 1,
{
    let s = SCALE as int;
    let p = ct * exp;
    assert(p >= 0) by (nonlinear_arith)
        requires
            p == ct * exp,
            ct >= 0,
            exp >= 0,
    ;
    assert(p * d <= ct * (s * s)) by (nonlinear_arith)
        requires
            p == ct * exp,
            ct >= 0,
            exp * d <= s * s,
    ;
    assert(ct * (s * s) <= c * (s * s) + t * (s * s)) by (nonlinear_arith)
        requires
            ct <= c + t,
            s * s >= 0,
    ;
    assert(omega * c * dt == c * (omega * dt)) by (nonlinear_arith);
    assert(c * (omega * dt) < c * ((x + 1) * s)) by (nonlinear_arith)
        requires
            c > 0,
            omega * dt < (x + 1) * s,
    ;
    assert(c * (s * s) + c * ((x + 1) * s) == (c * s) * (s + x + 1)) by (nonlinear_arith);
    assert((c * s) * (s + x + 1) <= (c * s) * d) by (nonlinear_arith)
        requires
            c * s >= 0,
            s + x + 1 <= d,
    ;
    assert(c * s >= 0) by (nonlinear_arith)
        requires
            c > 0,
            s > 0,
    ;
    assert(p * d < (c * s) * d);
    assert(p < c * s) by (nonlinear_arith)
        requires
            p * d < (c * s) * d,
            d > 0,
    ;
    assert(p / s <= c - 1) by (nonlinear_arith)
        requires
            0 <= p < c * s,
            s > 0,
    ;
}

/// A product by a scalar that is not negative grows with the other factor.
pub proof fn lemma_fx_mul_grows(a: int, b: int, more: int)
    requires
        a >= 0,
        0 <= b <= more,
    ensures
        fx_mul(a, b) <= fx_mul(a, more),
{
    lemma_fx_mul_of_positives(a, b);
    lemma_fx_mul_of_positives(a, more);
    assert(a * b <= a * more) by (nonlinear_arith)
        requires
            a >= 0,
            b <= more,
    ;
    vstd::arithmetic::div_mod::lemma_div_is_ordered(a * b, a * more, SCALE as int);
}

/// A step of the spring from below its target, with the spring not moving
/// away from the target: where the step is long enough to count, it ends
/// above where it began, and unless it reaches the target the spring still
/// does not move away from it.
proof fn lemma_spring_step_from_below(
    current: int,
    target: int,
    velocity: int,
    smooth_time: int,
    delta_time: int,
)
    requires
        in_range(current),
        in_range(target),
        current < target,
        target - current <= LIMIT,
        0 <= velocity <= LIMIT,
        in_range(delta_time),
        resolves(smooth_time, delta_time),
    ensures
        ({
            let step = spring_step(current, target, velocity, smooth_time, None, delta_time);
            &&& step.value > current
            &&& step.value < target ==> step.velocity >= 0
        }),
{
    let s = SCALE as int;
    let omega = stiffness(smooth_time);
    let dt = delta_time;
    let x = fx_mul(omega, dt);
    let d = decay_divisor(x);
    let exp = decay(x);
    let c = target - current;
    lemma_stiffness_not_negative(smooth_time);
    lemma_fx_mul_of_positives(omega, dt);
    assert(omega * dt < (x + 1) * s) by {
        assert(x == (omega * dt) / s);
        vstd::arithmetic::div_mod::lemma_fundamental_div_mod(omega * dt, s);
        assert(s * x + (omega * dt) % s == omega * dt);
        assert((x + 1) * s == s * x + s) by (nonlinear_arith);
    }
    lemma_decay_counts(x);
    assert(fx_sub(current, target) == -c);
    let pull = fx_mul(omega, c);
    lemma_fx_mul_of_positives(omega, c);
    lemma_fx_mul_is_odd(omega, c);
    assert(fx_mul(omega, -c) == -pull);
    let w = fx_add(velocity, -pull);
    assert(w == velocity - pull);
    let temp = fx_mul(w, dt);
    let back = if temp < 0 {
        -temp
    } else {
        0
    };
    assert(omega * c * dt >= 0) by (nonlinear_arith)
        requires
            omega >= 0,
            c >= 0,
            dt >= 0,
    ;
    assert(back * (s * s) <= omega * c * dt) by {
        if w < 0 {
            lemma_fx_mul_is_odd(-w, dt);
            lemma_fx_mul_of_positives(-w, dt);
            assert(temp == -fx_mul(-w, dt));
            assert(back == fx_mul(-w, dt));
            assert(back * s <= pull * dt) by (nonlinear_arith)
                requires
                    back * s <= (-w) * dt,
                    -w <= pull,
                    dt >= 0,
            ;
            assert(back * (s * s) <= omega * c * dt) by (nonlinear_arith)
                requires
                    back * s <= pull * dt,
                    pull * s <= omega * c,
                    dt >= 0,
                    s > 0,
            ;
        } else {
            lemma_fx_mul_of_positives(w, dt);
            assert(back == 0);
            assert(back * (s * s) == 0) by (nonlinear_arith)
                requires
                    back == 0,
            ;
        }
    }
    let ct = fx_add(-c, temp);
    let m = fx_mul(ct, exp);
    assert(fx_sub(current, -c) == target);
    let value = fx_add(target, m);
    let step = spring_step(current, target, velocity, smooth_time, None, delta_time);
    assert(step.value == value);
    assert(step.velocity == fx_mul(fx_sub(velocity, fx_mul(omega, temp)), exp));
    if ct >= 0 {
        lemma_fx_mul_of_positives(ct, exp);
        assert(value >= target);
    } else {
        let gap = -ct;
        assert(gap <= c + back);
        lemma_decayed_step_shrinks(c, back, gap, exp, d, omega, dt, x);
        lemma_fx_mul_is_odd(gap, exp);
        lemma_fx_mul_of_positives(gap, exp);
        assert(m == -fx_mul(gap, exp));
        assert(fx_mul(gap, exp) <= c - 1);
        assert(value >= current + 1);
        let drag = fx_mul(omega, temp);
        assert(drag <= velocity) by {
            if temp <= 0 {
                lemma_fx_mul_is_odd(omega, -temp);
                lemma_fx_mul_of_positives(omega, -temp);
                assert(drag == -fx_mul(omega, -temp));
            } else {
                assert(w > 0) by {
                    if w <= 0 {
                        lemma_fx_mul_is_odd(-w, dt);
                        lemma_fx_mul_of_positives(-w, dt);
                    }
                }
                assert(temp <= c);
                lemma_fx_mul_grows(omega, temp, c);
            }
        }
        lemma_fx_mul_of_positives(fx_sub(velocity, drag), exp);
    }
}

/// Turning the signs of the value, the target and the velocity of the spring
/// turns the signs of what a step of the spring gives.
proof fn lemma_spring_step_is_odd(
    current: int,
    target: int,
    velocity: int,
    smooth_time: int,
    delta_time: int,
)
    ensures
        ({
            let step = spring_step(current, target, velocity, smooth_time, None, delta_time);
            spring_step(-current, -target, -velocity, smooth_time, None, delta_time) == (Smoothed {
                value: -step.value,
                velocity: -step.velocity,
            })
        }),
{
    let omega = stiffness(smooth_time);
    let exp = decay(fx_mul(omega, delta_time));
    let change = fx_sub(current, target);
    assert(fx_sub(-current, -target) == -change);
    lemma_fx_mul_is_odd(omega, change);
    let pull = fx_mul(omega, change);
    assert(fx_add(-velocity, -pull) == -fx_add(velocity, pull));
    lemma_fx_mul_is_odd(fx_add(velocity, pull), delta_time);
    let temp = fx_mul(fx_add(velocity, pull), delta_time);
    lemma_fx_mul_is_odd(omega, temp);
    let drag = fx_mul(omega, temp);
    assert(fx_sub(-velocity, -drag) == -fx_sub(velocity, drag));
    lemma_fx_mul_is_odd(fx_sub(velocity, drag), exp);
    assert(fx_add(-change, -temp) == -fx_add(change, temp));
    lemma_fx_mul_is_odd(fx_add(change, temp), exp);
    assert(fx_sub(-current, -change) == -fx_sub(current, change));
}

/// A step that is long enough to count brings a value nearer to its target.
/// Where the value is off its target and the spring does not move away from
/// the target, the step ends strictly nearer to the target than it began and
/// not past it, and unless it ends at the target the spring still does not
/// move away from it. There is no limit on the speed.
pub proof fn lemma_smoothing_approaches(
    current: int,
    target: int,
    velocity: int,
    smooth_time: int,
    delta_time: int,
)
    requires
        in_range(current),
        in_range(target),
        in_range(velocity),
        in_range(delta_time),
        in_range(target - current),
        (current < target && velocity >= 0) || (current > target && velocity <= 0),
        resolves(smooth_time, delta_time),
    ensures
        ({
            let next = smooth_damp_spec(current, target, velocity, smooth_time, None, delta_time);
            &&& in_range(next.velocity)
            &&& current < target ==> current < next.value <= target
            &&& current < target && next.value < target ==> next.velocity >= 0
            &&& current > target ==> target <= next.value < current
            &&& current > target && next.value > target ==> next.velocity <= 0
        }),
{
    if current < target {
        lemma_spring_step_from_below(current, target, velocity, smooth_time, delta_time);
    } else {
        lemma_spring_step_from_below(-current, -target, -velocity, smooth_time, delta_time);
        lemma_spring_step_is_odd(current, target, velocity, smooth_time, delta_time);
    }
}

/// The value and the velocity of the spring after steps of the given lengths
/// toward one target, with no limit on the speed.
pub open spec fn smoothed_after(
    current: int,
    target: int,
    velocity: int,
    smooth_time: int,
    deltas: Seq<int>,
) -> Smoothed
    decreases deltas.len(),
{
    if deltas.len() == 0 {
        Smoothed { value: current, velocity }
    } else {
        let before = smoothed_after(current, target, velocity, smooth_time, deltas.drop_last());
        smooth_damp_spec(before.value, target, before.velocity, smooth_time, None, deltas.last())
    }
}

/// Whether the value is at its target after some of the first steps.
pub open spec fn reaches_target(
    current: int,
    target: int,
    velocity: int,
    smooth_time: int,
    deltas: Seq<int>,
) -> bool {
    exists|k: int|
        0 <= k <= deltas.len() && #[trigger] smoothed_after(
            current,
            target,
            velocity,
            smooth_time,
            deltas.take(k),
        ).value == target
}

/// Repeated smoothing toward one target never swings about it and never falls
/// back. The value starts anywhere, with the spring at rest or moving toward
/// the target; the steps are of any lengths, and the smoothing time is any.
/// Then after every step the value is no farther from the target than before
/// the step, it is on the side of the target on which it began, and the
/// spring is at rest or moves toward the target.
pub proof fn lemma_smoothing_is_monotone(
    current: int,
    target: int,
    velocity: int,
    smooth_time: int,
    deltas: Seq<int>,
)
    requires
        in_range(target),
        settles(current, target, velocity),
    ensures
        ({
            let last = smoothed_after(current, target, velocity, smooth_time, deltas);
            &&& settles(last.value, target, last.velocity)
            &&& magnitude(last.value - target) <= magnitude(current - target)
            &&& current <= target ==> current <= last.value <= target
            &&& current >= target ==> target <= last.value <= current
            &&& deltas.len() > 0 ==> magnitude(last.value - target) <= magnitude(
                smoothed_after(current, target, velocity, smooth_time, deltas.drop_last()).value
                    - target,
            )
        }),
    decreases deltas.len(),
{
    if deltas.len() > 0 {
        lemma_smoothing_is_monotone(current, target, velocity, smooth_time, deltas.drop_last());
        let before = smoothed_after(current, target, velocity, smooth_time, deltas.drop_last());
        lemma_smoothing_never_recedes(
            before.value,
            target,
            before.velocity,
            smooth_time,
            None,
            deltas.last(),
        );
    }
}

/// Repeated smoothing toward one target comes to the target and does not
/// swing about it. The value starts anywhere, with the spring at rest or
/// moving toward the target, and every step is long enough to count. Then,
/// until the value is at the target, every step brings it nearer by a
/// millionth or more and leaves it short of the target: so the value is at the
/// target after no more steps than the distance has millionths.
pub proof fn lemma_smoothing_converges(
    current: int,
    target: int,
    velocity: int,
    smooth_time: int,
    deltas: Seq<int>,
)
    requires
        in_range(current),
        in_range(target),
        in_range(velocity),
        in_range(target - current),
        (current <= target && velocity >= 0) || (current >= target && velocity <= 0),
        forall|k: int|
            0 <= k < deltas.len() ==> in_range(#[trigger] deltas[k]) && resolves(
                smooth_time,
                deltas[k],
            ),
    ensures
        ({
            let last = smoothed_after(current, target, velocity, smooth_time, deltas);
            let reached = reaches_target(current, target, velocity, smooth_time, deltas);
            &&& !reached && current < target ==> current + deltas.len() <= last.value < target
                && 0 <= last.velocity <= LIMIT
            &&& !reached && current > target ==> target < last.value <= current - deltas.len()
                && -LIMIT <= last.velocity <= 0
            &&& deltas.len() >= target - current && deltas.len() >= current - target ==> reached
        }),
    decreases deltas.len(),
{
    let reached = reaches_target(current, target, velocity, smooth_time, deltas);
    if current == target {
        assert(deltas.take(0) =~= Seq::<int>::empty());
        assert(smoothed_after(current, target, velocity, smooth_time, deltas.take(0)).value
            == target);
    } else if deltas.len() == 0 {
    } else {
        let front = deltas.drop_last();
        lemma_smoothing_converges(current, target, velocity, smooth_time, front);
        if reaches_target(current, target, velocity, smooth_time, front) {
            let k = choose|k: int|
                0 <= k <= front.len() && #[trigger] smoothed_after(
                    current,
                    target,
                    velocity,
                    smooth_time,
                    front.take(k),
                ).value == target;
            assert(front.take(k) =~= deltas.take(k));
        } else {
            let before = smoothed_after(current, target, velocity, smooth_time, front);
            lemma_smoothing_approaches(
                before.value,
                target,
                before.velocity,
                smooth_time,
                deltas.last(),
            );
            let last = smoothed_after(current, target, velocity, smooth_time, deltas);
            if last.value == target {
                assert(deltas.take(deltas.len() as int) =~= deltas);
            }
        }
    }
}

} // verus!
