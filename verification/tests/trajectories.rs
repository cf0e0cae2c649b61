use diffeq::derivative::{Growth, SlopeFn};
use diffeq::fixed::Fixed;
use diffeq::point::Point;
use diffeq::stepper::{forward_euler_step, rk4_step, ForwardEuler, Rk4};
use diffeq::generator::{calc_pts, generate_trajectory, heads_towards, TrajectoryError};

const ONE: i64 = 1_000_000_000;
const TENTH: i64 = 100_000_000;

fn fx(raw: i64) -> Fixed {
    Fixed::from_raw(raw)
}

fn pt(x: i64, y: i64) -> Point {
    Point { x: fx(x), y: fx(y) }
}

fn to_f64(v: Fixed) -> f64 {
    v.raw as f64 / 1e9
}

fn xs(pts: &Vec<Point>) -> Vec<i64> {
    let mut out = Vec::new();
    for p in pts {
        out.push(p.x.raw);
    }
    out
}

#[test]
fn euler_growth_from_zero_to_one() {
    let pts = calc_pts(&ForwardEuler, &Growth, fx(0), fx(ONE), fx(TENTH), fx(ONE));
    assert_eq!(
        pts,
        vec![
            pt(0, 1_000_000_000),
            pt(100_000_000, 1_100_000_000),
            pt(200_000_000, 1_210_000_000),
            pt(300_000_000, 1_331_000_000),
            pt(400_000_000, 1_464_100_000),
            pt(500_000_000, 1_610_510_000),
            pt(600_000_000, 1_771_561_000),
            pt(700_000_000, 1_948_717_100),
            pt(800_000_000, 2_143_588_810),
            pt(900_000_000, 2_357_947_691),
            pt(1_000_000_000, 2_593_742_460),
        ]
    );
    let last = pts[pts.len() - 1];
    assert_eq!(to_f64(last.x), 1.0);
    assert!((to_f64(last.y) - 2.5937).abs() < 1e-4);
}

#[test]
fn rk4_growth_from_zero_to_one() {
    let pts = calc_pts(&Rk4, &Growth, fx(0), fx(ONE), fx(TENTH), fx(ONE));
    assert_eq!(pts.len(), 11);
    assert_eq!(pts[0], pt(0, ONE));
    assert_eq!(pts[1], pt(TENTH, 1_105_170_835));
    assert_eq!(pts[5], pt(500_000_000, 1_648_720_654));
    assert_eq!(pts[10], pt(ONE, 2_718_279_797));
    assert!((to_f64(pts[10].y) - 2.71815).abs() < 1e-3);
    assert!((to_f64(pts[10].y) - std::f64::consts::E).abs() < 1e-4);
}

#[test]
fn each_point_is_one_step_beyond_the_one_before() {
    let f = SlopeFn::new(|x: Fixed, y: Fixed| x.add(fx(-2 * y.raw)));
    let pts = calc_pts(&Rk4, &f, fx(-ONE), fx(3 * ONE), fx(-250_000_000), fx(-2 * ONE));
    assert_eq!(
        pts,
        vec![
            pt(-1_000_000_000, 3_000_000_000),
            pt(-1_250_000_000, 5_306_640_643),
            pt(-1_500_000_000, 9_190_048_279),
            pt(-1_750_000_000, 15_672_657_762),
            pt(-2_000_000_000, 26_439_889_053),
        ]
    );
    for i in 1..pts.len() {
        assert_eq!(pts[i], rk4_step(pts[i - 1].x, pts[i - 1].y, &f, fx(-250_000_000)));
    }
    let euler = calc_pts(&ForwardEuler, &f, fx(-ONE), fx(3 * ONE), fx(-250_000_000), fx(-2 * ONE));
    for i in 1..euler.len() {
        assert_eq!(
            euler[i],
            forward_euler_step(euler[i - 1].x, euler[i - 1].y, &f, fx(-250_000_000))
        );
    }
}

#[test]
fn a_point_on_the_bound_is_kept() {
    let pts = calc_pts(&ForwardEuler, &Growth, fx(0), fx(ONE), fx(250_000_000), fx(500_000_000));
    assert_eq!(xs(&pts), vec![0, 250_000_000, 500_000_000]);
    let back = calc_pts(&ForwardEuler, &Growth, fx(0), fx(ONE), fx(-250_000_000), fx(-500_000_000));
    assert_eq!(xs(&back), vec![0, -250_000_000, -500_000_000]);
}

#[test]
fn a_point_one_unit_past_the_bound_is_dropped() {
    let pts = calc_pts(&ForwardEuler, &Growth, fx(0), fx(ONE), fx(250_000_000), fx(499_999_999));
    assert_eq!(xs(&pts), vec![0, 250_000_000]);
    let back = calc_pts(&ForwardEuler, &Growth, fx(0), fx(ONE), fx(-250_000_000), fx(-499_999_999));
    assert_eq!(xs(&back), vec![0, -250_000_000]);
}

#[test]
fn forward_points_stay_at_or_below_the_bound() {
    let delta = fx(300_000_000);
    let bound = fx(ONE);
    let pts = calc_pts(&ForwardEuler, &Growth, fx(0), fx(ONE), delta, bound);
    assert_eq!(
        pts,
        vec![
            pt(0, 1_000_000_000),
            pt(300_000_000, 1_300_000_000),
            pt(600_000_000, 1_690_000_000),
            pt(900_000_000, 2_197_000_000),
        ]
    );
    for p in &pts {
        assert!(p.x.raw <= bound.raw);
    }
    let last = pts[pts.len() - 1];
    let beyond = forward_euler_step(last.x, last.y, &Growth, delta);
    assert!(beyond.x.raw > bound.raw);
}

#[test]
fn backward_points_stay_at_or_above_the_bound() {
    let delta = fx(-300_000_000);
    let bound = fx(-ONE);
    let pts = calc_pts(&Rk4, &Growth, fx(0), fx(ONE), delta, bound);
    assert_eq!(xs(&pts), vec![0, -300_000_000, -600_000_000, -900_000_000]);
    for p in &pts {
        assert!(p.x.raw >= bound.raw);
    }
    let last = pts[pts.len() - 1];
    let beyond = rk4_step(last.x, last.y, &Growth, delta);
    assert!(beyond.x.raw < bound.raw);
}

#[test]
fn a_step_longer_than_the_way_leaves_only_the_start() {
    let pts = calc_pts(&Rk4, &Growth, fx(0), fx(ONE), fx(2 * ONE), fx(ONE));
    assert_eq!(pts, vec![pt(0, ONE)]);
    let back = calc_pts(&Rk4, &Growth, fx(0), fx(ONE), fx(-2 * ONE), fx(-1));
    assert_eq!(back, vec![pt(0, ONE)]);
}

#[test]
fn trajectory_towards_the_upper_limit_of_the_range() {
    let pts = calc_pts(&ForwardEuler, &Growth, fx(i64::MAX - 10), fx(0), fx(4), fx(i64::MAX));
    assert_eq!(xs(&pts), vec![i64::MAX - 10, i64::MAX - 6, i64::MAX - 2]);
}

#[test]
fn trajectory_towards_the_lower_limit_of_the_range() {
    let pts = calc_pts(&ForwardEuler, &Growth, fx(i64::MIN + 10), fx(ONE), fx(-4), fx(i64::MIN));
    assert_eq!(
        pts,
        vec![
            pt(i64::MIN + 10, 1_000_000_000),
            pt(i64::MIN + 6, 999_999_996),
            pt(i64::MIN + 2, 999_999_992),
        ]
    );
}

#[test]
fn trajectory_across_the_whole_range() {
    let pts = calc_pts(&ForwardEuler, &Growth, fx(i64::MIN), fx(0), fx(i64::MAX), fx(i64::MAX));
    assert_eq!(xs(&pts), vec![i64::MIN, -1, i64::MAX - 1]);
}

#[test]
fn length_is_within_the_bound_on_steps() {
    // |x_end - x_0| / |delta| rounded up, and one more for the start
    let cases: Vec<(i64, i64, i64, usize, usize)> = vec![
        (0, TENTH, ONE, 11, 11),
        (0, 300_000_000, ONE, 4, 5),
        (0, -300_000_000, -ONE, 4, 5),
        (0, 2 * ONE, ONE, 1, 2),
        (5, 1, 6, 2, 2),
        (-ONE, 7, -ONE + 70, 11, 11),
        (-ONE, 7, -ONE + 71, 11, 12),
    ];
    for (x_0, delta, x_end, len, limit) in cases {
        let pts = calc_pts(&ForwardEuler, &Growth, fx(x_0), fx(ONE), fx(delta), fx(x_end));
        assert_eq!(pts.len(), len);
        assert!(pts.len() <= limit);
        let rk = calc_pts(&Rk4, &Growth, fx(x_0), fx(ONE), fx(delta), fx(x_end));
        assert_eq!(rk.len(), len);
    }
}

#[test]
fn steppers_share_start_and_abscissas() {
    let f = SlopeFn::new(|x: Fixed, y: Fixed| x.add(fx(-2 * y.raw)));
    let euler = calc_pts(&ForwardEuler, &f, fx(-ONE), fx(3 * ONE), fx(70_000_000), fx(ONE));
    let rk4 = calc_pts(&Rk4, &f, fx(-ONE), fx(3 * ONE), fx(70_000_000), fx(ONE));
    assert_eq!(euler.len(), 29);
    assert_eq!(euler.len(), rk4.len());
    assert_eq!(euler[0], pt(-ONE, 3 * ONE));
    assert_eq!(rk4[0], pt(-ONE, 3 * ONE));
    assert_eq!(xs(&euler), xs(&rk4));
    assert_ne!(euler[1].y, rk4[1].y);
    assert_ne!(euler[28].y, rk4[28].y);
}

#[test]
fn the_way_back_visits_the_same_abscissas() {
    let out = calc_pts(&Rk4, &Growth, fx(0), fx(ONE), fx(TENTH), fx(1_050_000_000));
    assert_eq!(out.len(), 11);
    let turn = out[out.len() - 1];
    let home = calc_pts(&Rk4, &Growth, turn.x, turn.y, fx(-TENTH), fx(0));
    assert_eq!(home.len(), out.len());
    assert_eq!(home[0], turn);
    assert_eq!(home[10], pt(0, 1_000_000_137));
    for i in 0..out.len() {
        let there = out[out.len() - 1 - i];
        assert_eq!(home[i].x, there.x);
        assert!((to_f64(home[i].y) - to_f64(there.y)).abs() < 1e-6);
    }
}

#[test]
fn the_way_back_with_euler_drifts_in_the_ordinate_only() {
    let out = calc_pts(&ForwardEuler, &Growth, fx(0), fx(ONE), fx(TENTH), fx(ONE));
    let turn = out[out.len() - 1];
    let home = calc_pts(&ForwardEuler, &Growth, turn.x, turn.y, fx(-TENTH), fx(0));
    let mut there = xs(&out);
    there.reverse();
    assert_eq!(xs(&home), there);
    assert_eq!(home[10], pt(0, 904_382_075));
}

#[test]
fn the_same_values_give_the_same_trajectory() {
    let a = calc_pts(&Rk4, &Growth, fx(0), fx(ONE), fx(TENTH), fx(ONE));
    let b = calc_pts(&Rk4, &Growth, fx(0), fx(ONE), fx(TENTH), fx(ONE));
    assert_eq!(a, b);
}

#[test]
fn heads_towards_compares_direction_and_bound() {
    assert!(heads_towards(fx(0), fx(1), fx(1)));
    assert!(heads_towards(fx(0), fx(-1), fx(-1)));
    assert!(heads_towards(fx(i64::MIN), fx(i64::MAX), fx(i64::MAX)));
    assert!(heads_towards(fx(i64::MAX), fx(i64::MIN), fx(i64::MIN)));
    assert!(!heads_towards(fx(0), fx(1), fx(-1)));
    assert!(!heads_towards(fx(0), fx(-1), fx(1)));
    assert!(!heads_towards(fx(0), fx(0), fx(1)));
    assert!(!heads_towards(fx(5), fx(1), fx(5)));
    assert!(!heads_towards(fx(5), fx(-1), fx(5)));
}

#[test]
fn generate_trajectory_is_calc_pts_where_the_step_heads_for_the_bound() {
    let got = generate_trajectory(&Rk4, &Growth, pt(0, ONE), fx(TENTH), fx(ONE));
    assert_eq!(got, Ok(calc_pts(&Rk4, &Growth, fx(0), fx(ONE), fx(TENTH), fx(ONE))));
    let back = generate_trajectory(&ForwardEuler, &Growth, pt(0, ONE), fx(-TENTH), fx(-ONE));
    assert_eq!(back, Ok(calc_pts(&ForwardEuler, &Growth, fx(0), fx(ONE), fx(-TENTH), fx(-ONE))));
}

#[test]
fn generate_trajectory_refuses_a_bound_behind_the_start() {
    let forward = generate_trajectory(&ForwardEuler, &Growth, pt(0, ONE), fx(TENTH), fx(-ONE));
    assert_eq!(forward, Err(TrajectoryError::BoundNotAhead));
    let backward = generate_trajectory(&Rk4, &Growth, pt(0, ONE), fx(-TENTH), fx(ONE));
    assert_eq!(backward, Err(TrajectoryError::BoundNotAhead));
}

#[test]
fn generate_trajectory_refuses_a_bound_at_the_start() {
    let forward = generate_trajectory(&ForwardEuler, &Growth, pt(7, ONE), fx(TENTH), fx(7));
    assert_eq!(forward, Err(TrajectoryError::BoundNotAhead));
    let backward = generate_trajectory(&ForwardEuler, &Growth, pt(7, ONE), fx(-TENTH), fx(7));
    assert_eq!(backward, Err(TrajectoryError::BoundNotAhead));
}

#[test]
fn generate_trajectory_refuses_a_zero_step() {
    let ahead = generate_trajectory(&Rk4, &Growth, pt(0, ONE), fx(0), fx(ONE));
    assert_eq!(ahead, Err(TrajectoryError::ZeroStep));
    let at = generate_trajectory(&Rk4, &Growth, pt(0, ONE), fx(0), fx(0));
    assert_eq!(at, Err(TrajectoryError::ZeroStep));
}
