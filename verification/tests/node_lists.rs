use transit_net::node_locations::{generate_node, generate_node_lists};

fn subdivide(prev: u64, curr: u64, rem: usize) -> Vec<u64> {
    let begin = f64::from_bits(prev);
    let end = f64::from_bits(curr);
    let count = (end - begin) * rem as f64;
    let delta = (end - begin) / count;
    let mut curr = begin + delta;
    let mut out = vec![];
    while curr < end {
        out.push(curr.to_bits());
        curr += delta;
    }
    out
}

fn bits(v: &[f64]) -> Vec<u64> {
    v.iter().map(|x| x.to_bits()).collect()
}

fn reals(v: &[u64]) -> Vec<f64> {
    v.iter().map(|x| f64::from_bits(*x)).collect()
}

#[test]
fn gaps_are_filled_and_closed_by_their_right_end() {
    let out = generate_node(bits(&[0.0, 0.5, 1.0]), 11, &subdivide).unwrap();
    assert_eq!(
        reals(&out),
        vec![0.125, 0.25, 0.375, 0.5, 0.625, 0.75, 0.875, 1.0]
    );
}

#[test]
fn nothing_to_add_keeps_the_crossings_but_the_first() {
    let out = generate_node(bits(&[0.0, 0.25, 1.0]), 3, &subdivide).unwrap();
    assert_eq!(reals(&out), vec![0.25, 1.0]);
}

#[test]
fn too_small_a_count_is_refused() {
    assert_eq!(generate_node(bits(&[0.0, 0.25, 1.0]), 2, &subdivide), None);
    assert_eq!(
        generate_node_lists(
            vec![bits(&[0.0, 1.0]), bits(&[0.0, 0.5, 1.0])],
            vec![5, 2],
            &subdivide
        ),
        None
    );
}

#[test]
fn short_lists_give_no_nodes() {
    assert_eq!(generate_node(vec![], 4, &subdivide), Some(vec![]));
    assert_eq!(generate_node(bits(&[0.5]), 4, &subdivide), Some(vec![]));
}

#[test]
fn pieces_come_from_the_kernel_as_they_are() {
    let marker = |prev: u64, curr: u64, rem: usize| vec![prev + 1, curr + 2, rem as u64];
    let out = generate_node(vec![10, 20, 30], 7, &marker).unwrap();
    assert_eq!(out, vec![11, 22, 4, 20, 21, 32, 4, 30]);
}

#[test]
fn lists_are_paired_with_counts() {
    let out = generate_node_lists(
        vec![bits(&[0.0, 1.0]), bits(&[0.0, 0.5, 1.0]), bits(&[0.0, 1.0])],
        vec![6, 3],
        &subdivide,
    )
    .unwrap();
    assert_eq!(out.len(), 2);
    assert_eq!(reals(&out[0]), vec![0.25, 0.5, 0.75, 1.0]);
    assert_eq!(reals(&out[1]), vec![0.5, 1.0]);
    assert_eq!(
        generate_node_lists(vec![], vec![1, 2], &subdivide),
        Some(vec![])
    );
}

#[test]
fn node_parameters_ascend_between_the_ends() {
    let out = generate_node(bits(&[0.0, 0.3, 0.7, 1.0]), 24, &subdivide).unwrap();
    assert!(out.len() <= 24);
    assert_eq!(f64::from_bits(*out.last().unwrap()), 1.0);
    let values = reals(&out);
    for pair in values.windows(2) {
        assert!(pair[0] < pair[1]);
    }
    for v in &values {
        assert!(*v > 0.0 && *v <= 1.0);
    }
    for crossing in [0.3, 0.7, 1.0] {
        assert!(values.contains(&crossing));
    }
}
