use transit_net::check_connected_graph::depth_first_search;
use transit_net::check_connection::{adj_nodes, adjacency, breadth_first_search, is_connected, AdjMatrix};
use transit_net::graph::NetGraph;

const NONE: f64 = f64::MAX;

fn matrix(rows: Vec<Vec<f64>>) -> AdjMatrix {
    let bits: Vec<Vec<u64>> = rows
        .into_iter()
        .map(|r| r.into_iter().map(|x| x.to_bits()).collect())
        .collect();
    AdjMatrix::from_rows(&bits).unwrap()
}

#[test]
fn matrix_of_a_chain_is_connected() {
    let m = matrix(vec![
        vec![NONE, 1.0, NONE],
        vec![NONE, NONE, 2.5],
        vec![NONE, NONE, NONE],
    ]);
    assert_eq!(m.nrows(), 3);
    assert_eq!(m.row(1), vec![NONE.to_bits(), NONE.to_bits(), 2.5f64.to_bits()]);
    assert_eq!(breadth_first_search(&m), vec![true, true, true]);
    assert!(is_connected(&m));
}

#[test]
fn matrix_with_a_node_apart_is_not_connected() {
    let m = matrix(vec![
        vec![NONE, 1.0, NONE, NONE],
        vec![3.0, NONE, NONE, NONE],
        vec![1.0, NONE, NONE, 0.0],
        vec![NONE, NONE, -4.0, NONE],
    ]);
    assert_eq!(breadth_first_search(&m), vec![true, true, false, false]);
    assert!(!is_connected(&m));
}

#[test]
fn entries_that_are_not_below_the_greatest_real_are_no_arcs() {
    let row: Vec<u64> = vec![f64::INFINITY, f64::NAN, 0.5, f64::MAX, -f64::MAX, f64::NEG_INFINITY]
        .into_iter()
        .map(|x: f64| x.to_bits())
        .collect();
    assert_eq!(adj_nodes(&row), vec![2, 4, 5]);
    assert!(adj_nodes(&vec![]).is_empty());
}

#[test]
fn matrix_becomes_a_directed_graph() {
    let m = matrix(vec![vec![NONE, 7.0], vec![8.0, 9.0]]);
    let g = adjacency(&m);
    assert!(!g.is_undirected());
    assert_eq!(
        g.arcs(),
        vec![
            (0, 1, 7.0f64.to_bits()),
            (1, 0, 8.0f64.to_bits()),
            (1, 1, 9.0f64.to_bits())
        ]
    );
}

#[test]
fn rows_must_be_as_long_as_they_are_many() {
    assert!(AdjMatrix::from_rows(&vec![vec![1, 2], vec![3]]).is_none());
    assert!(AdjMatrix::from_rows(&vec![vec![1, 2, 3]]).is_none());
    let empty = AdjMatrix::from_rows(&vec![]).unwrap();
    assert_eq!(empty.nrows(), 0);
    assert!(is_connected(&empty));
    assert!(breadth_first_search(&empty).is_empty());
}

#[test]
fn search_marks_what_can_be_reached() {
    let mut g = NetGraph::new_direct(5);
    g.add_new_default_arc(0, 2);
    g.add_new_default_arc(2, 4);
    g.add_new_default_arc(3, 0);
    assert_eq!(depth_first_search(&g), vec![true, false, true, false, true]);
    assert!(depth_first_search(&NetGraph::new_direct(0)).is_empty());
}
