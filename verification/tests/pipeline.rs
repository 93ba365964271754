use flo_curves::bezier;
use flo_curves::{BezierCurve, BezierCurveFactory, Coord2, Coordinate};
use std::cell::Cell;
use transit_net::bezier_point_factory::{BezierPointFactory, BezierPoints, FactoryConfig};
use transit_net::build_graph::{build_network as assemble, Network};
use transit_net::build_lines::build_lines;
use transit_net::check_connected_graph::is_connected;
use transit_net::float_table::FloatMatrix;
use transit_net::intersections::make_intersection_lists;
use transit_net::lines_to_graph::build_graph;
use transit_net::network_builder::{
    build_network, get_default_count, get_default_trials, try_build_network, Configuration,
    Kernels, TrialCounter, TrialsExhausted,
};
use transit_net::node_locations::generate_node_lists;

type Curve = bezier::Curve<Coord2>;
type Pt = (u64, u64);

fn r(x: u64) -> f64 {
    f64::from_bits(x)
}

fn uniform(min: u64, max: u64) -> u64 {
    ((fastrand::f64() * (r(max) - r(min))) + r(min)).to_bits()
}

fn distance(a: Pt, b: Pt) -> u64 {
    let dx = r(a.0) - r(b.0);
    let dy = r(a.1) - r(b.1);
    ((dx * dx) + (dy * dy)).sqrt().to_bits()
}

fn accept(p: Pt, q: Pt, radius: u64) -> bool {
    let arg = -(r(distance(p, q)) / r(radius));
    fastrand::f64() > arg.exp()
}

fn make_curve(p: BezierPoints) -> Curve {
    let c = |q: Pt| Coord2(r(q.0), r(q.1));
    bezier::Curve::from_points(c(p.start), (c(p.ctrl_1), c(p.ctrl_2)), c(p.end))
}

fn intersect(a: &Curve, b: &Curve) -> Vec<(u64, u64)> {
    bezier::curve_intersects_curve_clip(a, b, 1e-6)
        .into_iter()
        .map(|(t1, t2)| (t1.to_bits(), t2.to_bits()))
        .collect()
}

fn subdivide(prev: u64, curr: u64, rem: usize) -> Vec<u64> {
    let (begin, end) = (r(prev), r(curr));
    let count = (end - begin) * rem as f64;
    let delta = (end - begin) / count;
    let mut curr = begin + delta;
    let mut out = vec![];
    while curr < end {
        out.push(curr.to_bits());
        curr += delta;
    }
    out
}

fn eval(c: &Curve, t: u64) -> Pt {
    let p = c.point_at_pos(r(t));
    (p.get(0).to_bits(), p.get(1).to_bits())
}

fn straight(from: (f64, f64), to: (f64, f64)) -> Curve {
    let at = |s: f64| Coord2(from.0 + s * (to.0 - from.0), from.1 + s * (to.1 - from.1));
    bezier::Curve::from_points(at(0.0), (at(1.0 / 3.0), at(2.0 / 3.0)), at(1.0))
}

fn reachable_from_zero(net: &Network) -> Vec<bool> {
    let n = net.graph.node_count();
    let mut seen = vec![false; n];
    if n == 0 {
        return seen;
    }
    let mut queue = std::collections::VecDeque::new();
    seen[0] = true;
    queue.push_back(0usize);
    while let Some(i) = queue.pop_front() {
        for (a, z, _) in net.graph.arcs() {
            if a == i && !seen[z] {
                seen[z] = true;
                queue.push_back(z);
            }
        }
    }
    seen
}

fn check_network(net: &Network) {
    assert!(reachable_from_zero(net).iter().all(|s| *s));
    assert!(is_connected(&net.graph));
    assert_eq!(net.graph.node_count(), net.points.len());
    for (i, j, w) in net.graph.arcs() {
        let d = r(distance(net.points[i], net.points[j]));
        assert!((r(w) - d).abs() <= 1e-9 * (1.0 + d));
    }
    for line in &net.lines {
        for id in line {
            assert!(*id < net.points.len());
        }
    }
    for (i, w) in net.graph.node_weights().iter().enumerate() {
        assert_eq!(r(*w), i as f64);
    }
}

#[test]
fn crossing_curves_share_one_node() {
    let curves = vec![
        straight((-1.0, 0.0), (1.0, 0.0)),
        straight((0.0, -1.0), (0.0, 1.0)),
    ];
    let inter = make_intersection_lists(&curves, &intersect).unwrap();
    assert_eq!(inter.direct_intersections[0].len(), 3);
    assert_eq!(inter.direct_intersections[1].len(), 3);
    let t0 = inter.direct_intersections[0][1];
    let t1 = inter.direct_intersections[1][1];
    assert!((r(t0) - 0.5).abs() < 1e-4);
    assert!((r(t1) - 0.5).abs() < 1e-4);
    assert_eq!(inter.inverse_intersections.get(1, t1), Some(&(0, t0)));
    assert_eq!(inter.inverse_intersections.get(0, t0), Some(&(1, t0)));

    let direct = inter.direct_intersections;
    let nodes = generate_node_lists(direct, vec![7, 7], &subdivide).unwrap();
    let (factory, lines) = build_lines(&curves, &nodes, &inter.inverse_intersections, &eval);
    let at = |line: usize, t: u64| lines[line][nodes[line].iter().position(|x| *x == t).unwrap()];
    assert_eq!(at(0, t0), at(1, t1));
    let total: usize = nodes.iter().map(|l| l.len()).sum();
    assert_eq!(factory.get_index_for_intersection(0, t0), Some(at(0, t0)));
    assert_eq!(factory.get_index_for_intersection(1, t1), None);
    let net = build_graph(factory, lines, &distance).unwrap();
    assert_eq!(net.points.len(), total - 1);
    check_network(&net);

    let again = assemble(&curves, &nodes, &inter.inverse_intersections, &eval, &distance).unwrap();
    assert_eq!(again.lines, net.lines);
    assert_eq!(again.points, net.points);
    assert_eq!(again.graph.arcs(), net.graph.arcs());
}

#[test]
fn lines_that_do_not_meet_make_no_network() {
    let curves = vec![
        straight((-1.0, 0.0), (1.0, 0.0)),
        straight((-1.0, 1.0), (1.0, 1.0)),
    ];
    assert!(make_intersection_lists(&curves, &intersect).is_none());
    let nodes = vec![
        vec![0.5f64.to_bits(), 1.0f64.to_bits()],
        vec![0.5f64.to_bits(), 1.0f64.to_bits()],
    ];
    let none: FloatMatrix<(usize, u64)> = FloatMatrix::new(2);
    assert!(assemble(&curves, &nodes, &none, &eval, &distance).is_none());
    let (factory, lines) = build_lines(&curves, &nodes, &none, &eval);
    assert_eq!(lines, vec![vec![0, 1], vec![2, 3]]);
    assert_eq!(
        factory.get_points()[3],
        (1.0f64.to_bits(), 1.0f64.to_bits())
    );
}

#[test]
fn points_are_those_of_the_curves() {
    let curves = vec![straight((0.0, 0.0), (4.0, 0.0))];
    let nodes = vec![vec![0.25f64.to_bits(), 0.5f64.to_bits(), 1.0f64.to_bits()]];
    let none: FloatMatrix<(usize, u64)> = FloatMatrix::new(1);
    let net = assemble(&curves, &nodes, &none, &eval, &distance).unwrap();
    assert_eq!(net.lines, vec![vec![0, 1, 2]]);
    let xs: Vec<f64> = net.points.iter().map(|p| r(p.0)).collect();
    assert!((xs[0] - 1.0).abs() < 1e-12 && (xs[1] - 2.0).abs() < 1e-12 && (xs[2] - 4.0).abs() < 1e-12);
    let arcs = net.graph.arcs();
    assert_eq!(arcs.len(), 4);
    assert!((r(arcs[0].2) - 1.0).abs() < 1e-12);
    assert!((r(arcs[3].2) - 2.0).abs() < 1e-12);
}

fn kernels() -> Kernels<
    fn(u64, u64) -> u64,
    fn(Pt, Pt, u64) -> bool,
    fn(BezierPoints) -> Curve,
    fn(&Curve, &Curve) -> Vec<(u64, u64)>,
    fn(u64, u64, usize) -> Vec<u64>,
    fn(&Curve, u64) -> Pt,
    fn(Pt, Pt) -> u64,
> {
    Kernels {
        uniform,
        accept,
        make_curve,
        intersect,
        subdivide,
        eval,
        dist: distance,
    }
}

fn factory_config() -> FactoryConfig {
    FactoryConfig {
        center_radius: 50.0f64.to_bits(),
        point_radius: 10.0f64.to_bits(),
        size_x: 100.0f64.to_bits(),
        size_y: 100.0f64.to_bits(),
    }
}

#[test]
fn random_networks_are_connected() {
    let mut built = 0;
    for seed in 0..5u64 {
        fastrand::seed(seed);
        if let Ok(net) = build_network(&factory_config(), 200, &[12, 12, 12], usize::MAX, &kernels()) {
            assert_eq!(net.lines.len(), 3);
            check_network(&net);
            built += 1;
        }
    }
    assert!(built > 0);
}

#[test]
fn one_trial_gives_a_connected_network_or_nothing() {
    let mut some = 0;
    for seed in 0..40u64 {
        fastrand::seed(seed);
        let mut factory = BezierPointFactory::new(&factory_config());
        if let Some(net) = try_build_network(&mut factory, &[10, 10], usize::MAX, &kernels()) {
            check_network(&net);
            assert_eq!(factory.orig_factory.points.len(), 4);
            some += 1;
        }
    }
    assert!(some > 0);
}

#[test]
fn budget_is_used_up_by_curves_that_never_cross() {
    let made = Cell::new(0usize);
    let counting = |p: BezierPoints| {
        made.set(made.get() + 1);
        make_curve(p)
    };
    let k = Kernels {
        uniform,
        accept,
        make_curve: counting,
        intersect: |_: &Curve, _: &Curve| -> Vec<(u64, u64)> { vec![] },
        subdivide,
        eval,
        dist: distance,
    };
    fastrand::seed(1);
    let out = build_network(&factory_config(), 7, &[5, 5, 5], usize::MAX, &k);
    assert!(matches!(out, Err(TrialsExhausted { trials: 7 })));
    assert_eq!(made.get(), 7 * 3);
}

#[test]
fn no_trials_no_network() {
    let out = build_network(&factory_config(), 0, &[5, 5], usize::MAX, &kernels());
    assert!(matches!(out, Err(TrialsExhausted { trials: 0 })));
}

#[test]
fn points_that_cannot_be_placed_fail_every_trial() {
    let out = build_network(&factory_config(), 3, &[5, 5], 0, &kernels());
    assert!(matches!(out, Err(TrialsExhausted { trials: 3 })));
}

#[test]
fn too_few_nodes_for_the_crossings_fail_the_trial() {
    fastrand::seed(2);
    let out = build_network(&factory_config(), 20, &[1, 1], usize::MAX, &kernels());
    assert!(matches!(out, Err(TrialsExhausted { trials: 20 })));
}

#[test]
fn trial_counter_allows_as_many_runs_as_it_was_given() {
    let mut counter = TrialCounter::new(3);
    assert!(counter.run());
    assert!(counter.run());
    assert!(counter.run());
    assert!(!counter.run());
    assert!(!counter.run());
    let mut none = TrialCounter::new(0);
    assert!(!none.run());
}

#[test]
fn defaults_and_factory_configuration() {
    assert_eq!(get_default_trials(), 100);
    assert_eq!(get_default_count(), 1);
    let config = Configuration {
        width: 1,
        height: 2,
        origin_distance: 3,
        points_distance: 4,
        lines: vec![5, 6],
        trials: 7,
        count: 8,
    };
    let f = config.make_factory_config();
    assert_eq!(
        (f.center_radius, f.point_radius, f.size_x, f.size_y),
        (3, 4, 1, 2)
    );
}
