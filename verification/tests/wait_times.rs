use std::cell::Cell;
use transit_net::build_graph::Network;
use transit_net::graph::NetGraph;
use transit_net::station_wait_times::{
    add_wait_time, apply_wait_times, StationWaitTimeConfig, WaitTimeError,
};

fn network() -> Network {
    let mut graph = NetGraph::new_undirect(4);
    graph.add_new_arc(0, 1, 1.0f64.to_bits());
    graph.add_new_arc(1, 2, 2.0f64.to_bits());
    graph.add_new_arc(2, 3, 3.0f64.to_bits());
    Network {
        lines: vec![vec![0, 1, 2, 3]],
        points: vec![(0, 0), (1, 1), (2, 2), (3, 3)],
        graph,
    }
}

#[test]
fn every_node_gets_a_draw_and_arcs_stay() {
    let conf = StationWaitTimeConfig {
        mean: 5.0f64.to_bits(),
        variance: 0.5f64.to_bits(),
    };
    let next = Cell::new(0u64);
    let lognormal = |mean: u64, cv: u64| -> Result<_, WaitTimeError> {
        assert_eq!(mean, 5.0f64.to_bits());
        assert_eq!(cv, 0.5f64.to_bits());
        Ok(|| {
            next.set(next.get() + 10);
            next.get()
        })
    };
    let before = network().graph.arcs();
    let out = add_wait_time(network(), &conf, &lognormal).unwrap();
    assert_eq!(out.graph.node_weights(), vec![10, 20, 30, 40]);
    assert_eq!(out.graph.arcs(), before);
    assert!(out.graph.is_undirected());
    assert_eq!(out.lines, vec![vec![0, 1, 2, 3]]);
    assert_eq!(out.points, vec![(0, 0), (1, 1), (2, 2), (3, 3)]);
}

fn never() -> u64 {
    panic!("no draw may be made")
}

#[test]
fn a_refused_configuration_fails_before_any_draw() {
    let conf = StationWaitTimeConfig {
        mean: (-1.0f64).to_bits(),
        variance: 0.5f64.to_bits(),
    };
    let refuse = |_: u64, _: u64| -> Result<fn() -> u64, WaitTimeError> {
        Err(WaitTimeError::MeanTooSmall)
    };
    assert!(matches!(
        add_wait_time(network(), &conf, &refuse),
        Err(WaitTimeError::MeanTooSmall)
    ));
    let mut graph = network().graph;
    let bad = |_: u64, _: u64| -> Result<fn() -> u64, WaitTimeError> {
        Err(WaitTimeError::BadVariance)
    };
    assert_eq!(
        apply_wait_times(&mut graph, &conf, &bad),
        Err(WaitTimeError::BadVariance)
    );
    assert_eq!(graph.node_weights(), vec![0, 0, 0, 0]);
    let unused: fn() -> u64 = never;
    let _ = unused;
}

#[test]
fn the_sampler_is_the_one_made_for_the_configuration() {
    let conf = StationWaitTimeConfig { mean: 3, variance: 4 };
    let lognormal = |mean: u64, cv: u64| -> Result<_, WaitTimeError> { Ok(move || mean * 100 + cv) };
    let distr = conf.new_lognormal(&lognormal).unwrap();
    assert_eq!(distr(), 304);
}
