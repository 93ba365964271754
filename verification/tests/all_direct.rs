use std::collections::HashMap;
use transit_net::all_direct_path::{all_direct_path, build_all_direct_path_graph, new_graph};
use transit_net::build_graph::Network;
use transit_net::graph::NetGraph;

fn float_sum(a: u64, b: u64) -> u64 {
    (f64::from_bits(a) + f64::from_bits(b)).to_bits()
}

#[test]
fn test_all_direct_build_direct() {
    run_test(false);
}

#[test]
fn test_all_direct_build_undirect() {
    run_test(true);
}

fn run_test(undirect: bool) {
    let network = init_network(undirect);
    let network = all_direct_path(network, &float_sum);

    let mut expected = get_all_arcs(undirect);
    let graph = &network.graph;
    for (i, j, w) in graph.arcs() {
        let value = expected.get_mut(&(i, j));
        assert!(value.is_some(), "{:?}", (i, j));
        let (aw, v) = value.unwrap();
        assert_eq!(f64::from_bits(w), *aw);
        *v = true;
    }

    for (k, (_, v)) in expected.iter() {
        assert!(v, "{:?}", k);
    }
}

fn init_network(undirect: bool) -> Network {
    let mut graph = if undirect {
        NetGraph::new_undirect(9)
    } else {
        NetGraph::new_direct(9)
    };
    for (i, j, w) in get_base_case_arcs() {
        graph.add_new_arc(i, j, w.to_bits());
    }
    let lines = vec![vec![0, 1, 2, 3, 4], vec![6, 5, 2, 7, 8]];

    Network {
        lines,
        graph,
        points: vec![],
    }
}

fn get_base_case_arcs() -> Vec<(usize, usize, f64)> {
    vec![
        (0, 1, 1.0),
        (1, 2, 1.0),
        (2, 3, 1.0),
        (3, 4, 1.0),
        (6, 5, 1.0),
        (5, 2, 1.0),
        (2, 7, 1.0),
        (7, 8, 1.0),
    ]
}

fn get_all_arcs(undirect: bool) -> HashMap<(usize, usize), (f64, bool)> {
    let all_arcs = vec![
        (0, 1, 1.0),
        (0, 2, 2.0),
        (0, 3, 3.0),
        (0, 4, 4.0),
        (1, 2, 1.0),
        (1, 3, 2.0),
        (1, 4, 3.0),
        (2, 3, 1.0),
        (2, 4, 2.0),
        (3, 4, 1.0),
        (6, 5, 1.0),
        (6, 2, 2.0),
        (6, 7, 3.0),
        (6, 8, 4.0),
        (5, 2, 1.0),
        (5, 7, 2.0),
        (5, 8, 3.0),
        (2, 7, 1.0),
        (2, 8, 2.0),
        (7, 8, 1.0),
    ];

    let mut hm = HashMap::with_capacity(all_arcs.len());
    for (i, j, w) in all_arcs.into_iter() {
        hm.insert((i, j), (w, false));
        if undirect {
            hm.insert((j, i), (w, false));
        }
    }

    hm
}

#[test]
fn direct_paths_of_the_two_crossing_lines() {
    let network = all_direct_path(init_network(true), &float_sum);
    let arcs = network.graph.arcs();
    let weight = |i: usize, j: usize| -> Option<f64> {
        arcs.iter().find(|a| a.0 == i && a.1 == j).map(|a| f64::from_bits(a.2))
    };
    assert_eq!(weight(0, 4), Some(4.0));
    assert_eq!(weight(6, 8), Some(4.0));
    assert_eq!(weight(0, 6), None);
    assert_eq!(weight(6, 0), None);
    assert_eq!(network.lines, vec![vec![0, 1, 2, 3, 4], vec![6, 5, 2, 7, 8]]);
    assert_eq!(network.graph.node_count(), 9);
}

#[test]
fn direct_path_cost_is_the_sum_along_the_line() {
    let mut graph = NetGraph::new_direct(3);
    graph.add_new_arc(0, 1, 1.5f64.to_bits());
    graph.add_new_arc(1, 2, 2.25f64.to_bits());
    let lines = vec![vec![0, 1, 2]];
    let out = build_all_direct_path_graph(graph, &lines, &float_sum);
    assert_eq!(
        out.arcs(),
        vec![
            (0, 1, 1.5f64.to_bits()),
            (0, 2, 3.75f64.to_bits()),
            (1, 2, 2.25f64.to_bits())
        ]
    );
    assert!(!out.is_undirected());
}

#[test]
fn direct_path_uses_the_first_arc_between_two_nodes() {
    let mut graph = NetGraph::new_direct(2);
    graph.add_new_arc(0, 1, 3.0f64.to_bits());
    graph.add_new_arc(0, 1, 5.0f64.to_bits());
    assert_eq!(graph.cost(0, 1), 3.0f64.to_bits());
    let out = build_all_direct_path_graph(graph, &vec![vec![0, 1]], &float_sum);
    assert_eq!(out.arcs(), vec![(0, 1, 3.0f64.to_bits())]);
}

#[test]
fn new_graph_keeps_size_and_kind_and_drops_arcs() {
    let mut graph = NetGraph::new_undirect(4);
    graph.add_new_arc(0, 1, 1.0f64.to_bits());
    let fresh = new_graph(&graph);
    assert_eq!(fresh.node_count(), 4);
    assert!(fresh.is_undirected());
    assert!(fresh.arcs().is_empty());
    assert_eq!(fresh.node_weights(), vec![0, 0, 0, 0]);
    let directed = new_graph(&NetGraph::new_direct(2));
    assert!(!directed.is_undirected());
}

#[test]
fn short_lines_add_no_arcs() {
    let graph = NetGraph::new_direct(3);
    let out = build_all_direct_path_graph(graph, &vec![vec![], vec![2]], &float_sum);
    assert!(out.arcs().is_empty());
}
