use transit_net::check_connected_graph::is_connected;
use transit_net::graph::NetGraph;
use transit_net::lines_to_graph;

fn flat_distance(a: (u64, u64), b: (u64, u64)) -> u64 {
    let dx = f64::from_bits(a.0) - f64::from_bits(b.0);
    let dy = f64::from_bits(a.1) - f64::from_bits(b.1);
    ((dx * dx) + (dy * dy)).sqrt().to_bits()
}

fn make_base_graph() -> NetGraph {
    let mut graph = NetGraph::new_direct(5);

    graph.add_new_default_arc(0, 1);
    graph.add_new_default_arc(1, 2);
    graph.add_new_default_arc(3, 4);

    graph
}

#[test]
fn test_connected_graph() {
    let mut graph = make_base_graph();
    graph.add_new_default_arc(1, 3);
    graph.add_new_default_arc(2, 4);

    assert!(is_connected(&graph));
}

#[test]
fn test_unconnected_graph() {
    let graph = make_base_graph();
    assert!(!is_connected(&graph));
}

fn lines_to_net(lines: Vec<Vec<usize>>, count: usize) -> (Vec<(u64, u64)>, Vec<Vec<usize>>) {
    (vec![(0.0f64.to_bits(), 0.0f64.to_bits()); count], lines)
}

fn check_connection() {
    let (pts, lines) = lines_to_net(
        vec![
            vec![0, 1, 2, 3, 4, 5],
            vec![4, 6, 7, 2, 8],
            vec![6, 9, 10, 11],
            vec![12, 13, 9, 14],
        ],
        15,
    );
    assert!(lines_to_graph::is_connected(&pts, &lines, &flat_distance).is_some());

    let (pts, lines) = lines_to_net(
        vec![
            vec![0, 1, 2, 3, 4, 5],
            vec![4, 6, 7, 2, 8],
            vec![6, 9, 10, 11],
            vec![12, 13, 14, 15],
        ],
        16,
    );
    assert!(lines_to_graph::is_connected(&pts, &lines, &flat_distance).is_none());
}

#[test]
fn build_graph_test_check_connection() {
    check_connection();
}

#[test]
fn lines_to_graph_test_check_connection() {
    check_connection();
}

#[test]
fn lines_to_petgraph_test_check_connection() {
    check_connection();
}

#[test]
fn graph_without_nodes_is_connected() {
    assert!(is_connected(&NetGraph::new_direct(0)));
    assert!(is_connected(&NetGraph::new_undirect(0)));
}

#[test]
fn single_node_is_connected() {
    assert!(is_connected(&NetGraph::new_direct(1)));
}

#[test]
fn direction_of_arcs_counts() {
    let mut graph = NetGraph::new_direct(3);
    graph.add_new_default_arc(1, 0);
    graph.add_new_default_arc(1, 2);
    assert!(!is_connected(&graph));
    let mut graph = NetGraph::new_undirect(3);
    graph.add_new_default_arc(1, 0);
    graph.add_new_default_arc(1, 2);
    assert!(is_connected(&graph));
}

#[test]
fn cycles_and_loops_do_not_stop_the_search() {
    let mut graph = NetGraph::new_direct(4);
    graph.add_new_default_arc(0, 0);
    graph.add_new_default_arc(0, 1);
    graph.add_new_default_arc(1, 0);
    graph.add_new_default_arc(1, 2);
    graph.add_new_default_arc(2, 0);
    graph.add_new_default_arc(0, 1);
    assert!(!is_connected(&graph));
    graph.add_new_default_arc(2, 3);
    assert!(is_connected(&graph));
}

#[test]
fn graph_layer_reports_what_was_added() {
    let mut graph = NetGraph::new_undirect(3);
    assert_eq!(graph.node_count(), 3);
    assert!(graph.is_undirected());
    graph.add_new_arc(0, 2, 1.5f64.to_bits());
    graph.add_new_arc(2, 1, 2.5f64.to_bits());
    assert_eq!(graph.out_arcs(0), vec![(2, 1.5f64.to_bits())]);
    assert_eq!(
        graph.out_arcs(2),
        vec![(0, 1.5f64.to_bits()), (1, 2.5f64.to_bits())]
    );
    assert_eq!(graph.successors(2), vec![0, 1]);
    assert_eq!(graph.successors(1), vec![2]);
    assert_eq!(
        graph.arcs(),
        vec![
            (0, 2, 1.5f64.to_bits()),
            (1, 2, 2.5f64.to_bits()),
            (2, 0, 1.5f64.to_bits()),
            (2, 1, 2.5f64.to_bits())
        ]
    );
    assert_eq!(graph.cost(2, 1), 2.5f64.to_bits());
    assert_eq!(graph.node_weights(), vec![0, 0, 0]);
    graph.set_node_weights(&vec![7, 8, 9]);
    assert_eq!(graph.node_weights(), vec![7, 8, 9]);
    assert_eq!(graph.arcs().len(), 4);

    let mut directed = NetGraph::new_direct(2);
    assert!(!directed.is_undirected());
    directed.add_new_default_arc(0, 1);
    assert_eq!(directed.arcs(), vec![(0, 1, 0)]);
    assert!(directed.out_arcs(1).is_empty());
}

#[test]
fn graph_of_lines_has_distances_and_numbered_nodes() {
    let pts: Vec<(u64, u64)> = vec![(0.0, 0.0), (3.0, 4.0), (3.0, 0.0)]
        .into_iter()
        .map(|(x, y): (f64, f64)| (x.to_bits(), y.to_bits()))
        .collect();
    let lines = vec![vec![0, 1, 2]];
    let graph = lines_to_graph::is_connected(&pts, &lines, &flat_distance).unwrap();
    assert!(graph.is_undirected());
    assert_eq!(
        graph.arcs(),
        vec![
            (0, 1, 5.0f64.to_bits()),
            (1, 0, 5.0f64.to_bits()),
            (1, 2, 4.0f64.to_bits()),
            (2, 1, 4.0f64.to_bits())
        ]
    );
    assert_eq!(
        graph.node_weights(),
        vec![0.0f64.to_bits(), 1.0f64.to_bits(), 2.0f64.to_bits()]
    );
}

#[test]
fn segment_weights_follow_the_lines() {
    let pts: Vec<(u64, u64)> = vec![(0.0, 0.0), (0.0, 2.0), (0.0, 5.0)]
        .into_iter()
        .map(|(x, y): (f64, f64)| (x.to_bits(), y.to_bits()))
        .collect();
    let lines = vec![vec![0, 1, 2], vec![], vec![2], vec![2, 0]];
    let weights = lines_to_graph::segment_weights(&pts, &lines, &flat_distance);
    assert_eq!(
        weights,
        vec![
            vec![2.0f64.to_bits(), 3.0f64.to_bits()],
            vec![],
            vec![],
            vec![5.0f64.to_bits()]
        ]
    );
    let graph = lines_to_graph::line_to_graph(3, &lines, &weights);
    assert_eq!(graph.arcs().len(), 6);
    assert_eq!(graph.node_weights(), vec![0, 0, 0]);
    let numbered = lines_to_graph::number_nodes(graph);
    assert_eq!(numbered.node_weights()[2], 2.0f64.to_bits());
}

#[test]
fn arc_count_is_one_per_segment() {
    let lines = vec![vec![0, 1, 2, 3, 4, 5], vec![4, 6, 7, 2, 8], vec![], vec![3]];
    assert_eq!(lines_to_graph::arc_count(&lines), 9);
    let none: Vec<Vec<usize>> = vec![];
    assert_eq!(lines_to_graph::arc_count(&none), 0);
    let graph = lines_to_graph::line_to_graph(
        9,
        &lines,
        &vec![vec![0; 5], vec![0; 4], vec![], vec![]],
    );
    assert_eq!(graph.arcs().len(), 2 * 9);
}
