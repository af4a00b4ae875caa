use controller_2d::collisions::{
    coyote_time, reset_jumps, CollisionEvent, CollisionInfo, CollisionSide, CoyoteStopwatch,
    JumpCount, PlayerVelocity, RaySpacing, RaycastOrigins,
};
use controller_2d::controller::CharacterController;
use controller_2d::fixed::{Fixed, LIMIT};
use controller_2d::geometry::Vec2;
use controller_2d::input::{gravity, jump_velocity, player_input, PlayerInput, VelocityXSmoothing};
use controller_2d::{smooth_damp, CharacterControllerBundle};

const ME: u64 = 1;
const TICK: i64 = 16_667;

fn fx(v: f64) -> Fixed {
    Fixed::from_raw((v * 1_000_000.0).round() as i64)
}

fn v2(x: f64, y: f64) -> Vec2 {
    Vec2::new(fx(x), fx(y))
}

fn idle() -> PlayerInput {
    PlayerInput { left: false, right: false, jump: false }
}

fn jump() -> PlayerInput {
    PlayerInput { left: false, right: false, jump: true }
}

fn grounded() -> CollisionInfo {
    CollisionInfo { above: false, below: true, left: false, right: false }
}

fn airborne() -> CollisionInfo {
    CollisionInfo::default()
}

struct State {
    velocity: PlayerVelocity,
    smoothing: VelocityXSmoothing,
    jumps: JumpCount,
    watch: CoyoteStopwatch,
}

fn state(velocity: Vec2) -> State {
    State {
        velocity: PlayerVelocity(velocity),
        smoothing: VelocityXSmoothing::default(),
        jumps: JumpCount(0),
        watch: CoyoteStopwatch::default(),
    }
}

fn step(
    s: &mut State,
    input: PlayerInput,
    touching: CollisionInfo,
    controller: &CharacterController,
) {
    player_input(
        Fixed::from_raw(TICK),
        &input,
        controller,
        &mut s.velocity,
        &mut s.smoothing,
        &mut s.jumps,
        &s.watch,
        &touching,
    );
}

fn smooth(
    current: i64,
    target: i64,
    velocity: i64,
    smooth_time: i64,
    max_speed: Option<i64>,
    delta: i64,
) -> (i64, i64) {
    let mut spring = Fixed::from_raw(velocity);
    let value = smooth_damp(
        Fixed::from_raw(current),
        Fixed::from_raw(target),
        &mut spring,
        Fixed::from_raw(smooth_time),
        max_speed.map(Fixed::from_raw),
        Fixed::from_raw(delta),
    );
    (value.raw(), spring.raw())
}

#[test]
fn gravity_and_jump_velocity_of_default_tuning() {
    let c = CharacterController::default();
    assert_eq!(gravity(&c), fx(-25.0));
    assert_eq!(jump_velocity(&c), fx(10.0));
}

#[test]
fn gravity_and_jump_velocity_follow_the_tuning() {
    let mut c = CharacterController::default();
    c.jump_height = fx(3.0);
    c.time_to_jump_apex = fx(0.5);
    assert_eq!(gravity(&c), fx(-24.0));
    assert_eq!(jump_velocity(&c), fx(12.0));
    c.jump_height = fx(1.0);
    c.time_to_jump_apex = fx(0.3);
    assert_eq!(gravity(&c).raw(), -22_222_222);
    assert_eq!(jump_velocity(&c).raw(), 6_666_666);
    c.time_to_jump_apex = fx(0.0);
    assert_eq!(gravity(&c).raw(), -LIMIT);
    assert_eq!(jump_velocity(&c).raw(), 0);
}

#[test]
fn jump_reaches_its_height_at_its_apex() {
    let mut c = CharacterController::default();
    c.jump_height = fx(2.0);
    c.time_to_jump_apex = fx(0.4);
    c.gravity_up_multiplier = fx(1.0);
    c.gravity_down_multiplier = fx(1.0);
    let delta = Fixed::from_raw(100);
    let seconds = 0.0001;
    let mut velocity = PlayerVelocity(Vec2::new(fx(0.0), jump_velocity(&c)));
    let mut smoothing = VelocityXSmoothing::default();
    let mut jumps = JumpCount(1);
    let watch = CoyoteStopwatch::default();
    let mut height = 0.0;
    let mut height_by_means = 0.0;
    for _ in 0..4000 {
        let before = velocity.0.y.raw() as f64 / 1e6;
        player_input(
            delta, &idle(), &c, &mut velocity, &mut smoothing, &mut jumps, &watch, &airborne(),
        );
        let after = velocity.0.y.raw() as f64 / 1e6;
        height += after * seconds;
        height_by_means += (before + after) / 2.0 * seconds;
    }
    assert_eq!(velocity.0.y.raw(), 0);
    assert!((height - 2.0).abs() < 1e-3);
    assert!((height_by_means - 2.0).abs() < 1e-6);
}

#[test]
fn resting_entity_only_feels_gravity() {
    let c = CharacterController::default();
    let mut s = state(v2(0.0, -3.0));
    step(&mut s, idle(), grounded(), &c);
    assert_eq!(s.velocity.0.y.raw(), -416_675);
    assert_eq!(s.velocity.0.x.raw(), 0);
    assert_eq!(s.smoothing.0.raw(), 0);
    assert_eq!(s.jumps, JumpCount(0));
}

#[test]
fn ceiling_takes_the_vertical_velocity() {
    let c = CharacterController::default();
    let mut s = state(v2(0.0, 7.0));
    let under_ceiling = CollisionInfo { above: true, below: false, left: false, right: false };
    step(&mut s, idle(), under_ceiling, &c);
    assert_eq!(s.velocity.0.y.raw(), -416_675);
}

#[test]
fn gravity_is_multiplied_by_the_direction_of_flight() {
    let c = CharacterController::default();
    let mut rising = state(v2(0.0, 1.0));
    step(&mut rising, idle(), airborne(), &c);
    assert_eq!(rising.velocity.0.y.raw(), 583_325);
    let mut falling = state(v2(0.0, -1.0));
    step(&mut falling, idle(), airborne(), &c);
    assert_eq!(falling.velocity.0.y.raw(), -1_625_012);
    let mut hanging = state(v2(0.0, 0.0));
    step(&mut hanging, idle(), airborne(), &c);
    assert_eq!(hanging.velocity.0.y.raw(), -416_675);
}

#[test]
fn jump_from_the_ground() {
    let c = CharacterController::default();
    let mut s = state(v2(0.0, -0.4));
    step(&mut s, jump(), grounded(), &c);
    assert_eq!(s.jumps, JumpCount(1));
    assert_eq!(s.velocity.0.y.raw(), 9_583_325);
}

#[test]
fn no_second_jump_before_landing() {
    let c = CharacterController::default();
    let mut s = state(v2(0.0, 5.0));
    s.jumps = JumpCount(1);
    step(&mut s, jump(), airborne(), &c);
    assert_eq!(s.jumps, JumpCount(1));
    assert_eq!(s.velocity.0.y.raw(), 4_583_325);
    let mut on_ground = state(v2(0.0, 0.0));
    on_ground.jumps = JumpCount(1);
    step(&mut on_ground, jump(), grounded(), &c);
    assert_eq!(on_ground.jumps, JumpCount(1));
    assert_eq!(on_ground.velocity.0.y.raw(), -416_675);
}

#[test]
fn no_jump_unless_asked() {
    let c = CharacterController::default();
    let mut s = state(v2(0.0, 0.0));
    step(&mut s, idle(), grounded(), &c);
    assert_eq!(s.jumps, JumpCount(0));
    assert_eq!(s.velocity.0.y.raw(), -416_675);
}

fn leave_the_ground(ticks: usize) -> State {
    let mut s = state(v2(0.0, -1.0));
    s.jumps = JumpCount(1);
    let tick = Fixed::from_raw(20_000);
    let landing = vec![CollisionEvent { entity: ME, side: CollisionSide::Below(true) }];
    reset_jumps(&landing, ME, &mut s.jumps);
    coyote_time(tick, &landing, ME, &mut s.watch, &s.jumps);
    let leaving = vec![CollisionEvent { entity: ME, side: CollisionSide::Below(false) }];
    reset_jumps(&leaving, ME, &mut s.jumps);
    coyote_time(tick, &leaving, ME, &mut s.watch, &s.jumps);
    for _ in 1..ticks {
        reset_jumps(&Vec::new(), ME, &mut s.jumps);
        coyote_time(tick, &Vec::new(), ME, &mut s.watch, &s.jumps);
    }
    s
}

#[test]
fn coyote_time_grants_a_jump_shortly_after_leaving_the_ground() {
    let c = CharacterController::default();
    for ticks in 1..=4 {
        let mut s = leave_the_ground(ticks);
        assert_eq!(s.watch.0.elapsed_secs().raw(), 20_000 * ticks as i64);
        assert!(!s.watch.0.paused());
        step(&mut s, jump(), airborne(), &c);
        assert_eq!(s.jumps, JumpCount(1));
        assert_eq!(s.velocity.0.y.raw(), 9_583_325);
    }
}

#[test]
fn coyote_time_runs_out() {
    let c = CharacterController::default();
    for ticks in [5, 6, 50] {
        let mut s = leave_the_ground(ticks);
        step(&mut s, jump(), airborne(), &c);
        assert_eq!(s.jumps, JumpCount(0));
        assert_eq!(s.velocity.0.y.raw(), -1_625_012);
    }
}

#[test]
fn coyote_time_is_not_granted_after_a_jump() {
    let c = CharacterController::default();
    let mut s = state(v2(0.0, 0.0));
    let tick = Fixed::from_raw(20_000);
    let landing = vec![CollisionEvent { entity: ME, side: CollisionSide::Below(true) }];
    reset_jumps(&landing, ME, &mut s.jumps);
    coyote_time(tick, &landing, ME, &mut s.watch, &s.jumps);
    step(&mut s, jump(), grounded(), &c);
    assert_eq!(s.jumps, JumpCount(1));
    let leaving = vec![CollisionEvent { entity: ME, side: CollisionSide::Below(false) }];
    reset_jumps(&leaving, ME, &mut s.jumps);
    coyote_time(tick, &leaving, ME, &mut s.watch, &s.jumps);
    assert!(s.watch.0.paused());
    assert_eq!(s.watch.0.elapsed_secs().raw(), 0);
    let rising = s.velocity.0.y;
    step(&mut s, jump(), airborne(), &c);
    assert_eq!(s.jumps, JumpCount(1));
    assert!(s.velocity.0.y.lt(rising));
}

#[test]
fn held_direction_moves_the_target() {
    let c = CharacterController::default();
    let right = PlayerInput { left: false, right: true, jump: false };
    let left = PlayerInput { left: true, right: false, jump: false };
    let both = PlayerInput { left: true, right: true, jump: false };
    let mut s = state(v2(0.0, 0.0));
    step(&mut s, right, grounded(), &c);
    assert_eq!((s.velocity.0.x.raw(), s.smoothing.0.raw()), (296_410, 31_852_428));
    step(&mut s, right, grounded(), &c);
    assert_eq!((s.velocity.0.x.raw(), s.smoothing.0.raw()), (960_101, 45_654_143));
    let mut s = state(v2(0.0, 0.0));
    step(&mut s, left, grounded(), &c);
    assert_eq!((s.velocity.0.x.raw(), s.smoothing.0.raw()), (-296_410, -31_852_428));
    let mut s = state(v2(0.0, 0.0));
    step(&mut s, both, grounded(), &c);
    assert_eq!((s.velocity.0.x.raw(), s.smoothing.0.raw()), (0, 0));
    let mut s = state(v2(0.0, 0.0));
    step(&mut s, idle(), grounded(), &c);
    assert_eq!((s.velocity.0.x.raw(), s.smoothing.0.raw()), (0, 0));
}

#[test]
fn air_is_slower_to_accelerate_than_ground() {
    let c = CharacterController::default();
    let right = PlayerInput { left: false, right: true, jump: false };
    let left = PlayerInput { left: true, right: false, jump: false };
    let mut s = state(v2(0.0, 0.0));
    step(&mut s, right, airborne(), &c);
    assert_eq!((s.velocity.0.x.raw(), s.smoothing.0.raw()), (81_400, 9_407_871));
    let mut s = state(v2(0.0, 0.0));
    step(&mut s, left, airborne(), &c);
    assert_eq!((s.velocity.0.x.raw(), s.smoothing.0.raw()), (-81_400, -9_407_871));
}

#[test]
fn smoothing_step_values() {
    assert_eq!(smooth(0, 1_000_000, 0, 100_000, None, TICK), (44_461, 4_777_768));
    assert_eq!(smooth(5_000_000, 0, 0, 100_000, None, TICK), (4_777_697, -23_888_844));
    assert_eq!(smooth(296_410, 0, 31_852_428, 100_000, None, TICK), (663_689, 13_801_729));
    assert_eq!(smooth(3_000_000, -2_000_000, 500_000, 50, None, 20_000), (-1_997_995, -999_999));
}

#[test]
fn smoothing_time_has_a_floor() {
    let floored = smooth(0, 1_000_000, 0, 100, None, TICK);
    assert_eq!(floored, (999_666, 1_000_000));
    assert_eq!(smooth(0, 1_000_000, 0, 0, None, TICK), floored);
    assert_eq!(smooth(0, 1_000_000, 0, 99, None, TICK), floored);
    assert_eq!(smooth(0, 1_000_000, 0, -5_000_000, None, TICK), floored);
}

#[test]
fn smoothing_speed_can_be_limited() {
    assert_eq!(smooth(0, 10_000_000, 0, 200_000, Some(2_000_000), TICK), (4_884, 564_461));
    assert_eq!(
        smooth(0, 10_000_000, 0, 200_000, Some(100_000_000), TICK),
        smooth(0, 10_000_000, 0, 200_000, None, TICK)
    );
    assert_eq!(smooth(0, 10_000_000, 0, 200_000, None, TICK), (122_097, 14_111_532));
    assert_eq!(smooth(0, 10_000_000, 0, 200_000, Some(0), TICK), (0, 0));
}

#[test]
fn smoothing_does_not_pass_the_target() {
    assert_eq!(smooth(0, 1_000_000, 100_000_000, 100_000, None, 100_000), (1_000_000, 0));
    assert_eq!(smooth(0, -1_000_000, -100_000_000, 100_000, None, 100_000), (-1_000_000, 0));
    for velocity in [-50_000_000, -1_000_000, 0, 1_000_000, 50_000_000, 500_000_000] {
        for delta in [1, 1_000, TICK, 100_000, 1_000_000] {
            let (up, _) = smooth(0, 2_000_000, velocity, 100_000, None, delta);
            assert!(up <= 2_000_000);
            let (down, _) = smooth(0, -2_000_000, velocity, 100_000, None, delta);
            assert!(down >= -2_000_000);
        }
    }
}

#[test]
fn smoothing_rests_at_the_target() {
    for target in [-5_000_000, 0, 1, 6_666_800] {
        for smooth_time in [0, 100, 100_000, 200_000, 30_000_000] {
            for delta in [0, 1, TICK, 1_000_000] {
                assert_eq!(smooth(target, target, 0, smooth_time, None, delta), (target, 0));
                assert_eq!(
                    smooth(target, target, 0, smooth_time, Some(3_000_000), delta),
                    (target, 0)
                );
            }
        }
    }
}

#[test]
fn smoothing_without_time_does_not_move() {
    assert_eq!(smooth(0, 1_000_000, 0, 100_000, None, 0), (0, 0));
    assert_eq!(smooth(0, 1_000_000, 3_000_000, 100_000, None, 0), (0, 3_000_000));
}

#[test]
fn smoothing_approaches_the_target_step_by_step() {
    let target = 6_666_800;
    for smooth_time in [50_000, 100_000, 200_000, 1_000_000] {
        let mut value = 0;
        let mut spring = 0;
        let mut steps = 0;
        while value != target {
            let (next, next_spring) = smooth(value, target, spring, smooth_time, None, TICK);
            assert!(next >= value);
            assert!(next <= target);
            value = next;
            spring = next_spring;
            steps += 1;
            assert!(steps < 10_000);
        }
        assert_eq!(spring, 0);
        assert_eq!(smooth(value, target, spring, smooth_time, None, TICK), (target, 0));
    }
    let mut value = 0;
    let mut spring = 0;
    let mut steps = 0;
    while value != target {
        let (next, next_spring) = smooth(value, target, spring, 100_000, None, TICK);
        value = next;
        spring = next_spring;
        steps += 1;
    }
    assert_eq!(steps, 54);
}

#[test]
fn smoothing_converges_with_decreasing_steps() {
    let deltas = [50_000, 40_000, 30_000, 20_000, TICK, 10_000, 8_000, 5_000, 4_000, 2_000, 1_000];
    let rising = [
        1_316_760, 2_685_082, 3_458_529, 3_845_172, 4_099_794, 4_227_108, 4_316_916, 4_368_088,
        4_406_461, 4_424_838, 4_433_832,
    ];
    let falling = [
        9_333_119, 8_177_307, 7_140_484, 6_414_148, 5_802_358, 5_435_905, 5_144_316, 4_963_044,
        4_818_712, 4_746_776, 4_710_872,
    ];
    let (mut value, mut spring) = (0, 0);
    for (delta, expected) in deltas.iter().zip(rising) {
        let (next, next_spring) = smooth(value, 5_000_000, spring, 100_000, None, *delta);
        assert!(value < next && next < 5_000_000);
        assert_eq!(next, expected);
        value = next;
        spring = next_spring;
    }
    let (mut value, mut spring) = (10_000_000, 0);
    for (delta, expected) in deltas.iter().zip(falling) {
        let (next, next_spring) = smooth(value, -5_000_000, spring, 300_000, None, *delta);
        assert!(value > next && next > -5_000_000);
        assert_eq!(next, expected);
        value = next;
        spring = next_spring;
    }
}

#[test]
fn smoothing_step_too_short_to_count_stays_where_it_was() {
    let far = -100_000_000_000;
    assert_eq!(smooth(far, 0, 0, 2_000_002, None, 1), (far, 99_998));
    assert_eq!(smooth(-far, 0, 0, 2_000_002, None, 1), (-far, -99_998));
    let slow = 1_000_000_000;
    assert_eq!(smooth(-far, 0, 0, slow, None, 100), (-far, -40));
    let (mut value, mut spring) = (-far, 0);
    for _ in 0..1_000 {
        let (next, next_spring) = smooth(value, 0, spring, slow, None, 100);
        assert!(0 <= next && next <= value);
        assert!(next_spring <= 0);
        value = next;
        spring = next_spring;
    }
}

#[test]
fn smoothing_never_falls_back_from_rest() {
    let mut seed: u64 = 4242;
    let mut dice = move |span: u64| {
        seed = seed.wrapping_mul(6364136223846793005).wrapping_add(1442695040888963407);
        (seed >> 11) % span
    };
    for _ in 0..4_000 {
        let wide = dice(2) == 0;
        let span = if wide { 2_000_000_000_001 } else { 40_000_001 };
        let target = dice(span) as i64 - (span / 2) as i64;
        let mut value = dice(span) as i64 - (span / 2) as i64;
        let smooth_time = match dice(4) {
            0 => dice(200) as i64,
            1 => dice(2_000_000) as i64,
            2 => dice(2_000_000_000_000) as i64 - 1_000_000_000_000,
            _ => 100_000,
        };
        let mut spring = 0;
        let mut delta = match dice(3) {
            0 => dice(100) as i64,
            1 => dice(100_000) as i64,
            _ => dice(1_000_000_000_000) as i64,
        };
        let below = value < target;
        for _ in 0..40 {
            let (next, next_spring) = smooth(value, target, spring, smooth_time, None, delta);
            assert!((next - target).abs() <= (value - target).abs());
            if below {
                assert!(value <= next && next <= target);
                assert!(next_spring >= 0);
            } else {
                assert!(target <= next && next <= value);
                assert!(next_spring <= 0);
            }
            if next == target {
                assert_eq!(next_spring, 0);
            }
            value = next;
            spring = next_spring;
            delta -= dice(delta as u64 / 8 + 1) as i64;
        }
    }
}

#[test]
fn smoothing_steps_that_count_come_nearer_until_the_target_is_reached() {
    let mut seed: u64 = 99;
    let mut dice = move |span: u64| {
        seed = seed.wrapping_mul(6364136223846793005).wrapping_add(1442695040888963407);
        (seed >> 11) % span
    };
    for _ in 0..300 {
        let target = dice(40_000_001) as i64 - 20_000_000;
        let mut value = dice(40_000_001) as i64 - 20_000_000;
        let smooth_time = dice(2_000_000) as i64;
        let mut spring = 0;
        let mut steps = 0;
        while value != target {
            let floored = smooth_time.max(100);
            let stiffness = 2_000_000_000_000 / floored;
            let least = 1_444 * 1_000_000 / stiffness + 1;
            let delta = least + dice(40_000) as i64;
            let (next, next_spring) = smooth(value, target, spring, smooth_time, None, delta);
            if value < target {
                assert!(value < next && next <= target);
                assert!(next == target || next_spring >= 0);
            } else {
                assert!(target <= next && next < value);
                assert!(next == target || next_spring <= 0);
            }
            value = next;
            spring = next_spring;
            steps += 1;
            assert!(steps <= 40_000_000);
        }
    }
}

#[test]
fn fresh_bundle() {
    let bundle = CharacterControllerBundle::default();
    assert_eq!(bundle.controller, CharacterController::default());
    assert_eq!(bundle.jump_count, JumpCount(0));
    assert_eq!(bundle.coyote_stopwatch, CoyoteStopwatch::default());
    assert!(!bundle.coyote_stopwatch.0.paused());
    assert_eq!(bundle.coyote_stopwatch.0.elapsed_secs().raw(), 0);
    assert_eq!(bundle.velocity_x_smoothing, VelocityXSmoothing(fx(0.0)));
    assert_eq!(bundle.velocity, PlayerVelocity(v2(0.0, 0.0)));
    assert_eq!(bundle.ray_spacing, RaySpacing::default());
    assert_eq!(bundle.ray_spacing.horizontal.raw(), 0);
    assert_eq!(bundle.collisions, CollisionInfo::default());
    assert!(!bundle.collisions.below && !bundle.collisions.above);
    assert_eq!(bundle.raycast_origins, RaycastOrigins::default());
    assert_eq!(bundle.raycast_origins.top_left, v2(0.0, 0.0));
}

#[test]
fn bundle_keeps_the_given_tuning() {
    let mut controller = CharacterController::default();
    controller.move_speed = fx(250.0);
    controller.vertical_ray_count = 9;
    let bundle = CharacterControllerBundle::new(controller);
    assert_eq!(bundle.controller, controller);
    assert_eq!(bundle.controller.move_speed, fx(250.0));
    assert_eq!(bundle.jump_count, JumpCount(0));
    assert_eq!(bundle.velocity, PlayerVelocity::default());
    assert_eq!(bundle.collisions, CollisionInfo::default());
}
