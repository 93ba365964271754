use transit_net::float_table::FloatMatrix;
use transit_net::intersections::{
    all_cross_iterator, find_all_intersections, make_intersection_lists, push_intersections,
    sort_all, sort_floats,
};

fn bits(v: &[f64]) -> Vec<u64> {
    v.iter().map(|x| x.to_bits()).collect()
}

fn reals(v: &[u64]) -> Vec<f64> {
    v.iter().map(|x| f64::from_bits(*x)).collect()
}

#[test]
fn test_sort_f64_vec() {
    let mut vec = bits(&[0.45, 0.12, 0.56, 0.89, 0.23]);
    sort_floats(&mut vec);
    let result = vec![0.12, 0.23, 0.45, 0.56, 0.89];
    assert_eq!(result, reals(&vec));
}

#[test]
fn test_all_cross_iter() {
    let list = ['a', 'b', 'c'];
    let mut result = vec![];
    for (i, j) in all_cross_iterator(list.len()) {
        result.push((i, j, list[i], list[j]));
    }
    let expected = vec![(0, 1, 'a', 'b'), (0, 2, 'a', 'c'), (1, 2, 'b', 'c')];
    assert_eq!(result, expected);
}

#[test]
fn cross_pairs_of_few_and_of_four() {
    assert!(all_cross_iterator(0).is_empty());
    assert!(all_cross_iterator(1).is_empty());
    assert_eq!(all_cross_iterator(2), vec![(0, 1)]);
    assert_eq!(
        all_cross_iterator(4),
        vec![(0, 1), (0, 2), (0, 3), (1, 2), (1, 3), (2, 3)]
    );
}

#[test]
fn sort_is_stable_and_handles_signs() {
    let mut v = bits(&[1.0, -2.0, 0.0, -0.0, 3.5, -2.0, 0.0]);
    sort_floats(&mut v);
    assert_eq!(v, bits(&[-2.0, -2.0, 0.0, -0.0, 0.0, 1.0, 3.5]));
    let mut e: Vec<u64> = vec![];
    sort_floats(&mut e);
    assert!(e.is_empty());
    let mut one = bits(&[4.0]);
    sort_floats(&mut one);
    assert_eq!(one, bits(&[4.0]));
}

#[test]
fn sort_agrees_with_a_stable_sort_of_the_reals() {
    let input = vec![0.7, 0.1, 0.9, 0.1, 0.5, 1.0, 0.0, 0.33, 0.7, 0.2];
    let mut mine = bits(&input);
    sort_floats(&mut mine);
    let mut theirs = input.clone();
    theirs.sort_by(|a, b| a.partial_cmp(b).unwrap());
    assert_eq!(reals(&mine), theirs);
}

#[test]
fn sort_all_adds_both_ends() {
    let mut lists = vec![bits(&[0.5, 0.25]), bits(&[0.75])];
    assert_eq!(sort_all(&mut lists), Some(()));
    assert_eq!(reals(&lists[0]), vec![0.0, 0.25, 0.5, 1.0]);
    assert_eq!(reals(&lists[1]), vec![0.0, 0.75, 1.0]);
}

#[test]
fn sort_all_stops_at_the_first_empty_list() {
    let mut lists = vec![bits(&[0.5]), vec![], bits(&[0.9, 0.8])];
    assert_eq!(sort_all(&mut lists), None);
    assert_eq!(reals(&lists[0]), vec![0.0, 0.5, 1.0]);
    assert!(lists[1].is_empty());
    assert_eq!(reals(&lists[2]), vec![0.9, 0.8]);
    let mut none: Vec<Vec<u64>> = vec![];
    assert_eq!(sort_all(&mut none), Some(()));
}

#[test]
fn crossings_are_recorded_in_both_directions() {
    let mut direct: Vec<Vec<u64>> = vec![vec![], vec![], vec![]];
    let mut inverse: FloatMatrix<(usize, u64)> = FloatMatrix::new(3);
    let found = vec![(0.25f64.to_bits(), 0.75f64.to_bits())];
    push_intersections(&mut direct, &mut inverse, 0, 2, &found);
    assert_eq!(direct, vec![bits(&[0.25]), vec![], bits(&[0.75])]);
    assert_eq!(
        inverse.get(2, 0.75f64.to_bits()),
        Some(&(0, 0.25f64.to_bits()))
    );
    assert_eq!(
        inverse.get(0, 0.25f64.to_bits()),
        Some(&(2, 0.25f64.to_bits()))
    );
    assert_eq!(inverse.get(0, 0.75f64.to_bits()), None);
    assert_eq!(inverse.get(1, 0.25f64.to_bits()), None);
}

fn table_intersect(a: &usize, b: &usize) -> Vec<(u64, u64)> {
    match (*a, *b) {
        (0, 1) => vec![(0.5f64.to_bits(), 0.25f64.to_bits())],
        (1, 2) => vec![
            (0.75f64.to_bits(), 0.5f64.to_bits()),
            (0.125f64.to_bits(), 0.875f64.to_bits()),
        ],
        _ => vec![],
    }
}

#[test]
fn all_pairs_are_asked_in_order() {
    let curves = vec![0usize, 1, 2];
    let found = find_all_intersections(&curves, &table_intersect);
    assert_eq!(
        found.direct_intersections,
        vec![
            bits(&[0.5]),
            bits(&[0.25, 0.75, 0.125]),
            bits(&[0.5, 0.875])
        ]
    );
    assert_eq!(
        found.inverse_intersections.get(1, 0.25f64.to_bits()),
        Some(&(0, 0.5f64.to_bits()))
    );
    assert_eq!(
        found.inverse_intersections.get(2, 0.875f64.to_bits()),
        Some(&(1, 0.125f64.to_bits()))
    );
    assert_eq!(
        found.inverse_intersections.get(1, 0.125f64.to_bits()),
        Some(&(2, 0.125f64.to_bits()))
    );
    assert_eq!(found.inverse_intersections.len(), 3);
}

#[test]
fn intersection_lists_are_sorted_between_the_ends() {
    let curves = vec![0usize, 1, 2];
    let lists = make_intersection_lists(&curves, &table_intersect).unwrap();
    assert_eq!(reals(&lists.direct_intersections[0]), vec![0.0, 0.5, 1.0]);
    assert_eq!(
        reals(&lists.direct_intersections[1]),
        vec![0.0, 0.125, 0.25, 0.75, 1.0]
    );
    assert_eq!(
        reals(&lists.direct_intersections[2]),
        vec![0.0, 0.5, 0.875, 1.0]
    );
}

#[test]
fn a_curve_without_crossing_fails_the_whole() {
    let curves = vec![0usize, 1, 2, 3];
    assert!(make_intersection_lists(&curves, &table_intersect).is_none());
    let single = vec![0usize];
    assert!(make_intersection_lists(&single, &table_intersect).is_none());
    let none: Vec<usize> = vec![];
    assert!(make_intersection_lists(&none, &table_intersect).is_some());
}
