use transit_net::line_segment_iterator::LineSegmentItator;
use transit_net::lines_to_graph::SuccessorIterator;

#[test]
fn test_odd_len_line() {
    let lines = [1, 2, 3];
    let mut iter = LineSegmentItator::new(&lines);
    assert_eq!(iter.next(), Some((&1, &2)));
    assert_eq!(iter.next(), Some((&2, &3)));
    assert_eq!(iter.next(), None);

    let lines = [1, 2, 3, 4, 5];
    let mut iter = LineSegmentItator::new(&lines);
    assert_eq!(iter.next(), Some((&1, &2)));
    assert_eq!(iter.next(), Some((&2, &3)));
    assert_eq!(iter.next(), Some((&3, &4)));
    assert_eq!(iter.next(), Some((&4, &5)));
    assert_eq!(iter.next(), None);
}

#[test]
fn test_even_len_line() {
    let lines = [1, 2];
    let mut iter = LineSegmentItator::new(&lines);
    assert_eq!(iter.next(), Some((&1, &2)));
    assert_eq!(iter.next(), None);

    let lines = [1, 2, 3, 4];
    let mut iter = LineSegmentItator::new(&lines);
    assert_eq!(iter.next(), Some((&1, &2)));
    assert_eq!(iter.next(), Some((&2, &3)));
    assert_eq!(iter.next(), Some((&3, &4)));
    assert_eq!(iter.next(), None);
}

#[test]
fn test_empty_line() {
    let lines: [usize; 0] = [];
    let mut iter = LineSegmentItator::new(&lines);
    assert_eq!(iter.next(), None);

    let lines = [1];
    let mut iter = LineSegmentItator::new(&lines);
    assert_eq!(iter.next(), None);
}

#[test]
fn exhausted_line_stays_exhausted() {
    let lines = [7, 8];
    let mut iter = LineSegmentItator::new(&lines);
    assert_eq!(iter.next(), Some((&7, &8)));
    assert_eq!(iter.next(), None);
    assert_eq!(iter.next(), None);
}

#[test]
fn build_graph_test_successor_iterator() {
    let vect = [1, 2, 3, 4, 5, 6];
    let result: Vec<(&usize, &usize)> = SuccessorIterator::new(&vect).collect();
    let expected = vec![(&1, &2), (&2, &3), (&3, &4), (&4, &5), (&5, &6)];
    assert_eq!(result, expected)
}

#[test]
fn lines_to_graph_test_successor_iterator() {
    let vect = [1, 2, 3, 4, 5, 6];
    let result: Vec<(&usize, &usize)> = SuccessorIterator::new(&vect).collect();
    let expected = vec![(&1, &2), (&2, &3), (&3, &4), (&4, &5), (&5, &6)];
    assert_eq!(result, expected)
}

#[test]
fn lines_to_petgraph_test_successor_iterator() {
    let vect = [1, 2, 3, 4, 5, 6];
    let result: Vec<(&usize, &usize)> = SuccessorIterator::new(&vect).collect();
    let expected = vec![(&1, &2), (&2, &3), (&3, &4), (&4, &5), (&5, &6)];
    assert_eq!(result, expected)
}

#[test]
fn successor_iterator_steps_then_collects_the_rest() {
    let vect = [4usize, 5, 6, 7];
    let mut it = SuccessorIterator::new(&vect);
    assert_eq!(it.next(), Some((&4, &5)));
    let rest = it.collect();
    assert_eq!(rest, vec![(&5, &6), (&6, &7)]);
    let empty: [usize; 0] = [];
    assert!(SuccessorIterator::new(&empty).collect().is_empty());
    let single = [3usize];
    assert!(SuccessorIterator::new(&single).collect().is_empty());
}
