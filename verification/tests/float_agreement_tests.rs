use controller_2d::fixed::Fixed;
use controller_2d::geometry::Vec2;
use controller_2d::ray_cast::{Edge, Ray, RayCast};
use controller_2d::smooth_damp;

struct Dice(u64);

impl Dice {
    fn next(&mut self) -> u64 {
        self.0 = self.0.wrapping_mul(6364136223846793005).wrapping_add(1442695040888963407);
        self.0 >> 11
    }

    /// A number of millionths between `-span` and `span` whole units.
    fn raw(&mut self, span: i64) -> i64 {
        (self.next() % (2 * span as u64 * 1_000_000 + 1)) as i64 - span * 1_000_000
    }
}

fn float(raw: i64) -> f64 {
    raw as f64 / 1e6
}

fn float_cast(
    edge: [i64; 4],
    origin: [i64; 2],
    direction: [i64; 2],
) -> Option<([f64; 2], f64, f64)> {
    let (x1, y1, x2, y2) = (float(edge[0]), float(edge[1]), float(edge[2]), float(edge[3]));
    let (x3, y3) = (float(origin[0]), float(origin[1]));
    let (x4, y4) = (x3 + float(direction[0]), y3 + float(direction[1]));
    let den = (x1 - x2) * (y3 - y4) - (y1 - y2) * (x3 - x4);
    if den == 0.0 {
        return None;
    }
    let t = ((x1 - x3) * (y3 - y4) - (y1 - y3) * (x3 - x4)) / den;
    let u = -((x1 - x2) * (y1 - y3) - (y1 - y2) * (x1 - x3)) / den;
    if t > 0.0 && t < 1.0 && u > 0.0 {
        let point = [x1 + t * (x2 - x1), y1 + t * (y2 - y1)];
        let distance = ((point[0] - x3).powi(2) + (point[1] - y3).powi(2)).sqrt();
        let margin = t.min(1.0 - t).min(u);
        Some((point, distance, margin))
    } else {
        None
    }
}

#[test]
fn ray_casts_agree_with_floating_point() {
    let mut dice = Dice(2024);
    let mut hits = 0;
    for _ in 0..20_000 {
        let edge = [dice.raw(100), dice.raw(100), dice.raw(100), dice.raw(100)];
        let origin = [dice.raw(100), dice.raw(100)];
        let mut direction = [dice.raw(2), dice.raw(2)];
        if direction == [0, 0] {
            direction = [1_000_000, 0];
        }
        let fixed = Edge(
            Vec2::new(Fixed::from_raw(edge[0]), Fixed::from_raw(edge[1])),
            Vec2::new(Fixed::from_raw(edge[2]), Fixed::from_raw(edge[3])),
        )
        .ray_cast(Ray::new(
            Vec2::new(Fixed::from_raw(origin[0]), Fixed::from_raw(origin[1])),
            Vec2::new(Fixed::from_raw(direction[0]), Fixed::from_raw(direction[1])),
        ));
        match (fixed, float_cast(edge, origin, direction)) {
            (Some(hit), Some((point, distance, _))) => {
                hits += 1;
                assert!(hit.distance.raw() > 0);
                assert!(hit.position.x.raw() != origin[0] || hit.position.y.raw() != origin[1]);
                assert!((float(hit.position.x.raw()) - point[0]).abs() < 2e-6);
                assert!((float(hit.position.y.raw()) - point[1]).abs() < 2e-6);
                assert!((float(hit.distance.raw()) - distance).abs() < 4e-6);
            }
            (None, None) => {}
            (None, Some((_, distance, margin))) => assert!(margin < 1e-9 || distance < 2e-6),
            (Some(_), None) => panic!("a hit that floating point does not see"),
        }
    }
    assert!(hits > 1_000);
}

fn float_smooth_damp(
    current: f64,
    target: f64,
    velocity: &mut f64,
    smooth_time: f64,
    delta_time: f64,
) -> f64 {
    let smooth_time = smooth_time.max(0.0001);
    let omega = 2.0 / smooth_time;
    let x = omega * delta_time;
    let exp = 1.0 / (1.0 + x + 0.48 * x * x + 0.235 * x * x * x);
    let change = current - target;
    let temp = (*velocity + omega * change) * delta_time;
    *velocity = (*velocity - omega * temp) * exp;
    let mut output = target + (change + temp) * exp;
    if (target - current > 0.0) == (output > target) {
        output = target;
        *velocity = (output - target) / delta_time;
    }
    output
}

#[test]
fn smoothing_agrees_with_floating_point() {
    let mut dice = Dice(7);
    for _ in 0..2_000 {
        let target = dice.raw(10);
        let smooth_time = 50_000 + (dice.next() % 450_000) as i64;
        let delta = 4_000 + (dice.next() % 30_000) as i64;
        let (mut value, mut spring) = (dice.raw(10), 0);
        let (mut float_value, mut float_spring) = (float(value), 0.0);
        for _ in 0..30 {
            let mut next_spring = Fixed::from_raw(spring);
            let next = smooth_damp(
                Fixed::from_raw(value),
                Fixed::from_raw(target),
                &mut next_spring,
                Fixed::from_raw(smooth_time),
                None,
                Fixed::from_raw(delta),
            );
            value = next.raw();
            spring = next_spring.raw();
            float_value = float_smooth_damp(
                float_value,
                float(target),
                &mut float_spring,
                float(smooth_time),
                float(delta),
            );
            assert!((float(value) - float_value).abs() < 1e-3);
            assert!((float(spring) - float_spring).abs() < 5e-2);
        }
    }
}
