use std::cell::Cell;
use transit_net::bezier_point_factory::{
    accept_radius, accpet_distance, get_bounds, min_max, BezierPointFactory, ControlPointFactory,
    FactoryConfig, OriginPointFactory,
};
use transit_net::make_curves::{make_curve, make_curves};
use transit_net::rand_utils::{rand_point, random_in_range};

fn b(x: f64) -> u64 {
    x.to_bits()
}

fn pair(t: (f64, f64)) -> (u64, u64) {
    (t.0.to_bits(), t.1.to_bits())
}

fn uniform(min: u64, max: u64) -> u64 {
    let (min, max) = (f64::from_bits(min), f64::from_bits(max));
    ((fastrand::f64() * (max - min)) + min).to_bits()
}

fn euclid_distance(p: (u64, u64), q: (u64, u64)) -> f64 {
    let x_dist = f64::from_bits(p.0) - f64::from_bits(q.0);
    let y_dist = f64::from_bits(p.1) - f64::from_bits(q.1);
    ((x_dist * x_dist) + (y_dist * y_dist)).sqrt()
}

fn accept(p: (u64, u64), q: (u64, u64), radius: u64) -> bool {
    let dist = euclid_distance(p, q);
    let arg = -(dist / f64::from_bits(radius));
    fastrand::f64() > arg.exp()
}

#[test]
fn test_get_bounds() {
    let p = pair((40., 100.));
    let q = pair((90., 50.));

    let (x_range, y_range) = get_bounds(p, q);
    assert_eq!(x_range, pair((40., 90.)));
    assert_eq!(y_range, pair((50., 100.)));
}

#[test]
fn test_min_max() {
    let test_1 = pair((6.7, 13.2));
    let res = min_max(test_1);
    assert_eq!(res, pair((6.7, 13.2)));

    let test_1 = pair((13.2, 6.7));
    let res = min_max(test_1);
    assert_eq!(res, pair((6.7, 13.2)));
}

#[test]
fn test_random_in_range() {
    let min = -5.6;
    let max = 6.7;
    let range = pair((min, max));
    for _ in 0..10000 {
        let rnd = f64::from_bits(random_in_range(range, &uniform));
        assert!(rnd >= min && rnd <= max);
    }
}

#[test]
fn min_max_of_equal_and_of_negative_numbers() {
    assert_eq!(min_max(pair((2.0, 2.0))), pair((2.0, 2.0)));
    assert_eq!(min_max(pair((-1.0, -3.0))), pair((-3.0, -1.0)));
    assert_eq!(min_max(pair((0.0, -0.0))), pair((-0.0, 0.0)));
    assert_eq!(min_max(pair((-0.0, 0.0))), pair((0.0, -0.0)));
}

#[test]
fn random_point_draws_x_before_y() {
    let calls = Cell::new(0u64);
    let counting = |min: u64, max: u64| {
        calls.set(calls.get() + 1);
        min + max + calls.get()
    };
    assert_eq!(rand_point((10, 20), (100, 200), &counting), (31, 302));
}

#[test]
fn acceptance_hands_the_points_and_the_radius_to_the_kernel() {
    let seen = Cell::new(((0u64, 0u64), (0u64, 0u64), 0u64));
    let spy = |p: (u64, u64), q: (u64, u64), r: u64| {
        seen.set((p, q, r));
        true
    };
    assert!(accpet_distance((1, 2), (3, 4), 5, &spy));
    assert_eq!(seen.get(), ((1, 2), (3, 4), 5));
    assert!(accept_radius((6, 7), 8, &spy));
    assert_eq!(seen.get(), ((6, 7), (0, 0), 8));
    let refuse = |_: (u64, u64), _: (u64, u64), _: u64| false;
    assert!(!accept_radius((6, 7), 8, &refuse));
}

#[test]
fn origin_factory_draws_in_the_area_and_remembers() {
    fastrand::seed(7);
    let mut factory = OriginPointFactory::new(b(50.), b(10.), b(100.), b(60.));
    for k in 0..20 {
        let pt = factory.next_point(usize::MAX, &uniform, &accept).unwrap();
        let (x, y) = (f64::from_bits(pt.0), f64::from_bits(pt.1));
        assert!(x >= -100. && x <= 100.);
        assert!(y >= -60. && y <= 60.);
        assert_eq!(factory.points.len(), k + 1);
        assert_eq!(factory.points[k], pt);
    }
}

#[test]
fn no_attempts_no_point() {
    let mut factory = OriginPointFactory::new(b(50.), b(10.), b(100.), b(60.));
    assert_eq!(factory.next_point(0, &uniform, &accept), None);
    assert!(factory.points.is_empty());
}

#[test]
fn a_kernel_that_refuses_uses_up_the_attempts() {
    let tested = Cell::new(0usize);
    let refuse = |_: (u64, u64), _: (u64, u64), _: u64| {
        tested.set(tested.get() + 1);
        false
    };
    let mut factory = OriginPointFactory::new(b(50.), b(10.), b(100.), b(60.));
    assert_eq!(factory.next_point(25, &uniform, &refuse), None);
    assert_eq!(tested.get(), 25);
    assert!(factory.points.is_empty());
}

#[test]
fn every_placed_point_is_tested_until_one_refuses() {
    let mut factory = OriginPointFactory::new(b(50.), b(10.), b(100.), b(60.));
    factory.points = vec![(1, 1), (2, 2), (3, 3)];
    let tested = Cell::new(0usize);
    let all = |_: (u64, u64), _: (u64, u64), _: u64| {
        tested.set(tested.get() + 1);
        true
    };
    assert!(factory.accept_position((9, 9), &all));
    assert_eq!(tested.get(), 3);
    assert!(factory.valid_point((9, 9), &all));
    assert_eq!(tested.get(), 7);
    let second = |_: (u64, u64), q: (u64, u64), radius: u64| {
        assert_eq!(radius, b(10.));
        q != (2, 2)
    };
    assert!(!factory.accept_position((9, 9), &second));
    let origin = |_: (u64, u64), q: (u64, u64), radius: u64| {
        if q == (0, 0) {
            assert_eq!(radius, b(50.));
        }
        q != (0, 0)
    };
    assert!(factory.accept_position((9, 9), &origin));
    assert!(!factory.valid_point((9, 9), &origin));
}

#[test]
fn control_points_lie_between_the_ends() {
    fastrand::seed(11);
    let f = ControlPointFactory::new(pair((40., 100.)), pair((90., 50.)));
    assert_eq!(f.x_range, pair((40., 90.)));
    assert_eq!(f.y_range, pair((50., 100.)));
    for _ in 0..100 {
        let p = f.next_point(&uniform);
        let (x, y) = (f64::from_bits(p.0), f64::from_bits(p.1));
        assert!(x >= 40. && x <= 90. && y >= 50. && y <= 100.);
    }
}

fn config() -> FactoryConfig {
    FactoryConfig {
        center_radius: b(50.),
        point_radius: b(10.),
        size_x: b(100.),
        size_y: b(100.),
    }
}

#[test]
fn bezier_points_use_two_new_end_points() {
    fastrand::seed(3);
    let mut factory = BezierPointFactory::new(&config());
    let first = factory
        .get_bezier_points(usize::MAX, &uniform, &accept)
        .unwrap();
    let second = factory
        .get_bezier_points(usize::MAX, &uniform, &accept)
        .unwrap();
    assert_eq!(
        factory.orig_factory.points,
        vec![first.start, first.end, second.start, second.end]
    );
    let (xr, yr) = get_bounds(first.start, first.end);
    for c in [first.ctrl_1, first.ctrl_2] {
        assert!(f64::from_bits(c.0) >= f64::from_bits(xr.0));
        assert!(f64::from_bits(c.0) <= f64::from_bits(xr.1));
        assert!(f64::from_bits(c.1) >= f64::from_bits(yr.0));
        assert!(f64::from_bits(c.1) <= f64::from_bits(yr.1));
    }
    factory.reset();
    assert!(factory.orig_factory.points.is_empty());
    assert_eq!(factory.orig_factory.center_radius, b(50.));
    assert_eq!(factory.orig_factory.size_y, b(100.));
}

#[test]
fn bezier_points_fail_without_attempts() {
    let mut factory = BezierPointFactory::new(&config());
    assert!(factory.get_bezier_points(0, &uniform, &accept).is_none());
}

#[test]
fn curves_are_made_from_the_points_in_order() {
    fastrand::seed(5);
    let mut factory = BezierPointFactory::new(&config());
    let keep = |p: transit_net::bezier_point_factory::BezierPoints| (p.start, p.ctrl_1, p.ctrl_2, p.end);
    let curves = make_curves(&mut factory, 3, usize::MAX, &uniform, &accept, &keep).unwrap();
    assert_eq!(curves.len(), 3);
    for (k, c) in curves.iter().enumerate() {
        assert_eq!(c.0, factory.orig_factory.points[2 * k]);
        assert_eq!(c.3, factory.orig_factory.points[2 * k + 1]);
    }
    let one = make_curve(&mut factory, usize::MAX, &uniform, &accept, &keep).unwrap();
    assert_eq!(one.0, factory.orig_factory.points[6]);
    assert!(make_curves(&mut factory, 2, 0, &uniform, &accept, &keep).is_none());
    assert_eq!(
        make_curves(&mut factory, 0, 0, &uniform, &accept, &keep),
        Some(vec![])
    );
}

#[test]
fn a_kernel_that_always_accepts_takes_the_first_candidate() {
    let draws = Cell::new(0usize);
    let counting = |min: u64, max: u64| {
        draws.set(draws.get() + 1);
        uniform(min, max)
    };
    let always = |_: (u64, u64), _: (u64, u64), _: u64| true;
    let mut factory = OriginPointFactory::new(b(50.), b(10.), b(100.), b(60.));
    factory.points = vec![(1, 1), (2, 2)];
    let pt = factory.next_point(1, &counting, &always).unwrap();
    assert_eq!(draws.get(), 2);
    assert_eq!(factory.points, vec![(1, 1), (2, 2), pt]);
}

#[test]
fn a_refused_candidate_is_never_placed() {
    let refuse_far = |p: (u64, u64), _: (u64, u64), _: u64| f64::from_bits(p.0).abs() < 50.0;
    fastrand::seed(13);
    let mut factory = OriginPointFactory::new(b(50.), b(10.), b(100.), b(60.));
    for _ in 0..50 {
        if let Some(pt) = factory.next_point(3, &uniform, &refuse_far) {
            assert!(f64::from_bits(pt.0).abs() < 50.0);
        }
    }
    assert!(factory.points.iter().all(|p| f64::from_bits(p.0).abs() < 50.0));
}
