//! From lines of nodes to the weighted graph, and the connectivity test that
//! decides whether the network stands.

use vstd::prelude::*;
use crate::build_graph::Network;
use crate::build_lines::{rows, Lines};
use crate::check_connected_graph::{connected, is_connected as graph_is_connected, ArcLists};
use crate::float_bits::{from_index, index_bits};
use crate::graph::{lemma_with_arc_in_range, with_arc, NetGraph};
use crate::point_factory::{PointListFactory, Pt};

verus! {

/// Yields each pair of neighbours of a sequence, in order.
pub struct SuccessorIterator<'a, T> {
    coll: &'a [T],
    /// Index of the second element of the next pair.
    pos: usize,
}

impl<'a, T> SuccessorIterator<'a, T> {
    /// The sequence that is walked.
    pub closed spec fn coll(&self) -> Seq<T> {
        self.coll@
    }

    /// How many pairs have been yielded so far.
    pub closed spec fn yielded(&self) -> nat {
        (self.pos - 1) as nat
    }

    #[verifier::type_invariant]
    spec fn well_formed(&self) -> bool {
        1 <= self.pos
    }

    /// A walk that starts at the first element.
    pub fn new(coll: &'a [T]) -> (it: Self)
        ensures
            it.coll() == coll@,
            it.yielded() == 0,
    {
        Self { coll, pos: 1 }
    }

    /// The next pair, or `None` once the last element has been reached.
    pub fn next(&mut self) -> (r: Option<(&'a T, &'a T)>)
        ensures
            final(self).coll() == old(self).coll(),
            old(self).yielded() + 1 < old(self).coll().len() ==> r == Some(
                (
                    &old(self).coll()[old(self).yielded() as int],
                    &old(self).coll()[old(self).yielded() as int + 1],
                ),
            ) && final(self).yielded() == old(self).yielded() + 1,
            old(self).yielded() + 1 >= old(self).coll().len() ==> r is None && final(self).yielded()
                == old(self).yielded(),
    {
        proof {
            use_type_invariant(&*self);
        }
        if self.pos < self.coll.len() {
            let prev = &self.coll[self.pos - 1];
            let curr = &self.coll[self.pos];
            self.pos = self.pos + 1;
            Some((prev, curr))
        } else {
            None
        }
    }

    /// All pairs that are still to come.
    pub fn collect(self) -> (pairs: Vec<(&'a T, &'a T)>)
        ensures
            pairs@.len() == to_come(self.coll().len(), self.yielded()),
            forall|k: int|
                0 <= k < pairs@.len() ==> #[trigger] pairs@[k] == (
                    &self.coll()[self.yielded() + k],
                    &self.coll()[self.yielded() + k + 1],
                ),
    {
        proof {
            use_type_invariant(&self);
        }
        let mut pairs: Vec<(&'a T, &'a T)> = Vec::new();
        let mut pos = self.pos;
        while pos < self.coll.len()
            invariant
                1 <= self.pos <= pos,
                pos <= self.coll@.len() || pos == self.pos,
                pairs@.len() == pos - self.pos,
                forall|k: int|
                    0 <= k < pairs@.len() ==> #[trigger] pairs@[k] == (
                        &self.coll@[self.pos - 1 + k],
                        &self.coll@[self.pos + k],
                    ),
            decreases self.coll@.len() - pos,
        {
            pairs.push((&self.coll[pos - 1], &self.coll[pos]));
            pos = pos + 1;
        }
        pairs
    }
}

/// The number of pairs that are still to come from a sequence of `len`
/// elements after `yielded` of them.
pub open spec fn to_come(len: nat, yielded: nat) -> nat {
    if yielded < segments(len) {
        (segments(len) - yielded) as nat
    } else {
        0
    }
}

/// The number of segments of a line of `len` nodes.
pub open spec fn segments(len: nat) -> nat {
    if len == 0 {
        0
    } else {
        (len - 1) as nat
    }
}

/// The number of segments of the first `l` lines together.
pub open spec fn total_segments(lines: Seq<Seq<usize>>, l: nat) -> nat
    decreases l,
{
    if l == 0 {
        0
    } else {
        total_segments(lines, (l - 1) as nat) + segments(lines[l - 1].len())
    }
}

proof fn lemma_total_segments_grows(lines: Seq<Seq<usize>>, l: nat, upto: nat)
    requires
        l <= upto,
    ensures
        total_segments(lines, l) <= total_segments(lines, upto),
    decreases upto,
{
    if l < upto {
        lemma_total_segments_grows(lines, l, (upto - 1) as nat);
    }
}

/// The number of edges that the lines ask for: one for each segment.
pub fn arc_count(lines: &[Vec<usize>]) -> (count: usize)
    requires
        total_segments(rows(lines@), lines@.len()) <= usize::MAX,
    ensures
        count == total_segments(rows(lines@), lines@.len()),
{
    let mut count: usize = 0;
    let mut l: usize = 0;
    while l < lines.len()
        invariant
            l <= lines@.len(),
            total_segments(rows(lines@), lines@.len()) <= usize::MAX,
            count == total_segments(rows(lines@), l as nat),
        decreases lines@.len() - l,
    {
        let len = lines[l].len();
        let segs = if len == 0 {
            0
        } else {
            len - 1
        };
        proof {
            assert(rows(lines@)[l as int].len() == len);
            lemma_total_segments_grows(rows(lines@), (l + 1) as nat, lines@.len());
        }
        count = count + segs;
        l = l + 1;
    }
    count
}

/// Every node of every line is one of the first `count` nodes.
pub open spec fn lines_below(lines: Seq<Seq<usize>>, count: nat) -> bool {
    forall|l: int, k: int|
        0 <= l < lines.len() && 0 <= k < lines[l].len() ==> (#[trigger] lines[l][k]) < count
}

/// One weight for each segment of each line.
pub open spec fn one_per_segment(lines: Seq<Seq<usize>>, weights: Seq<Seq<u64>>) -> bool {
    &&& weights.len() == lines.len()
    &&& forall|l: int| 0 <= l < lines.len() ==> (#[trigger] weights[l]).len() == segments(lines[l].len())
}

/// Each weight is what `dist` gave for the points at the two ends of its
/// segment, taken in the line's direction.
pub open spec fn weights_of<D: Fn(Pt, Pt) -> u64>(
    dist: &D,
    pts: Seq<Pt>,
    lines: Seq<Seq<usize>>,
    weights: Seq<Seq<u64>>,
) -> bool {
    &&& one_per_segment(lines, weights)
    &&& forall|l: int, k: int|
        0 <= l < lines.len() && 0 <= k < weights[l].len() ==> call_ensures(
            dist,
            (pts[lines[l][k] as int], pts[lines[l][k + 1] as int]),
            #[trigger] weights[l][k],
        )
}

/// The arc lists of a graph of `n` nodes after one arc for each segment of the
/// first `l` lines and for the first `k` segments of line `l`, in order.
pub open spec fn lines_graph(
    n: nat,
    undirected: bool,
    lines: Seq<Seq<usize>>,
    weights: Seq<Seq<u64>>,
    l: nat,
    k: nat,
) -> ArcLists
    decreases l, k,
{
    if k > 0 {
        with_arc(
            lines_graph(n, undirected, lines, weights, l, (k - 1) as nat),
            undirected,
            lines[l as int][k - 1],
            lines[l as int][k as int],
            weights[l as int][k - 1],
        )
    } else if l > 0 {
        lines_graph(n, undirected, lines, weights, (l - 1) as nat, segments(lines[l - 1].len()))
    } else {
        Seq::new(n, |i: int| Seq::<(usize, u64)>::empty())
    }
}

/// The arc lists of the undirected graph that joins the neighbours of every
/// line.
pub open spec fn graph_of_lines(n: nat, lines: Seq<Seq<usize>>, weights: Seq<Seq<u64>>) -> ArcLists {
    lines_graph(n, true, lines, weights, lines.len(), 0)
}

/// The arc `arc` out of node `u` is segment `k` of line `l`, in the line's
/// direction or against it, and carries the weight of that segment.
pub open spec fn from_segment(
    lines: Seq<Seq<usize>>,
    weights: Seq<Seq<u64>>,
    u: int,
    arc: (usize, u64),
    l: int,
    k: int,
) -> bool {
    &&& 0 <= l < lines.len()
    &&& 0 <= k < segments(lines[l].len())
    &&& arc.1 == weights[l][k]
    &&& (u == lines[l][k] && arc.0 == lines[l][k + 1]) || (u == lines[l][k + 1] && arc.0
        == lines[l][k])
}

/// The arc `arc` out of node `u` is a segment of some line.
pub open spec fn joins_neighbours(
    lines: Seq<Seq<usize>>,
    weights: Seq<Seq<u64>>,
    u: int,
    arc: (usize, u64),
) -> bool {
    exists|l: int, k: int| #[trigger] from_segment(lines, weights, u, arc, l, k)
}

/// The weight of the arc `arc` out of node `u` is what `dist` gave for the
/// points of its two ends, in one order or the other.
pub open spec fn weighs_distance<D: Fn(Pt, Pt) -> u64>(dist: &D, pts: Seq<Pt>, u: int, arc: (usize, u64)) -> bool {
    ||| call_ensures(dist, (pts[u], pts[arc.0 as int]), arc.1)
    ||| call_ensures(dist, (pts[arc.0 as int], pts[u]), arc.1)
}

proof fn lemma_lines_graph_arcs(n: nat, lines: Seq<Seq<usize>>, weights: Seq<Seq<u64>>, l: nat, k: nat)
    requires
        lines_below(lines, n),
        one_per_segment(lines, weights),
        l <= lines.len(),
        l < lines.len() ==> k <= segments(lines[l as int].len()),
        l == lines.len() ==> k == 0,
    ensures
        lines_graph(n, true, lines, weights, l, k).len() == n,
        forall|u: int, p: int|
            0 <= u < n && 0 <= p < lines_graph(n, true, lines, weights, l, k)[u].len()
                ==> joins_neighbours(
                lines,
                weights,
                u,
                #[trigger] lines_graph(n, true, lines, weights, l, k)[u][p],
            ),
    decreases l, k,
{
    let now = lines_graph(n, true, lines, weights, l, k);
    if k > 0 {
        let before = lines_graph(n, true, lines, weights, l, (k - 1) as nat);
        lemma_lines_graph_arcs(n, lines, weights, l, (k - 1) as nat);
        let a = lines[l as int][k - 1];
        let b = lines[l as int][k as int];
        let w = weights[l as int][k - 1];
        assert(a < n && b < n);
        lemma_with_arc_in_range(before, true, a, b, w);
        let forward = before.update(a as int, before[a as int].push((b, w)));
        assert forall|u: int, p: int| 0 <= u < n && 0 <= p < now[u].len() implies joins_neighbours(
            lines,
            weights,
            u,
            #[trigger] now[u][p],
        ) by {
            let arc = now[u][p];
            if u == b as int && p == forward[u].len() {
                assert(arc == (a, w));
                assert(from_segment(lines, weights, u, arc, l as int, k - 1));
            } else {
                assert(arc == forward[u][p]);
                if u == a as int && p == before[u].len() {
                    assert(arc == (b, w));
                    assert(from_segment(lines, weights, u, arc, l as int, k - 1));
                } else {
                    assert(arc == before[u][p]);
                    assert(joins_neighbours(lines, weights, u, before[u][p]));
                }
            }
        }
    } else if l > 0 {
        lemma_lines_graph_arcs(n, lines, weights, (l - 1) as nat, segments(lines[l - 1].len()));
    }
}

/// An arc leads from one node to another only where the two are neighbours
/// on some line, and it carries the weight of that segment.
pub proof fn lemma_arcs_join_neighbours(n: nat, lines: Seq<Seq<usize>>, weights: Seq<Seq<u64>>)
    requires
        lines_below(lines, n),
        one_per_segment(lines, weights),
    ensures
        graph_of_lines(n, lines, weights).len() == n,
        forall|u: int, p: int|
            0 <= u < n && 0 <= p < graph_of_lines(n, lines, weights)[u].len() ==> joins_neighbours(
                lines,
                weights,
                u,
                #[trigger] graph_of_lines(n, lines, weights)[u][p],
            ),
{
    lemma_lines_graph_arcs(n, lines, weights, lines.len(), 0);
}

/// The weight of every arc of the assembled graph is what `dist` gave for the
/// points of its two ends.
pub proof fn lemma_arc_weights<D: Fn(Pt, Pt) -> u64>(
    dist: &D,
    pts: Seq<Pt>,
    lines: Seq<Seq<usize>>,
    weights: Seq<Seq<u64>>,
)
    requires
        lines_below(lines, pts.len()),
        weights_of(dist, pts, lines, weights),
    ensures
        forall|u: int, p: int|
            0 <= u < pts.len() && 0 <= p < graph_of_lines(pts.len(), lines, weights)[u].len()
                ==> weighs_distance(
                dist,
                pts,
                u,
                #[trigger] graph_of_lines(pts.len(), lines, weights)[u][p],
            ),
{
    lemma_arcs_join_neighbours(pts.len(), lines, weights);
    let lists = graph_of_lines(pts.len(), lines, weights);
    assert forall|u: int, p: int| 0 <= u < pts.len() && 0 <= p < lists[u].len() implies weighs_distance(
        dist,
        pts,
        u,
        #[trigger] lists[u][p],
    ) by {
        let arc = lists[u][p];
        assert(joins_neighbours(lines, weights, u, arc));
        let (l, k) = choose|l: int, k: int| #[trigger] from_segment(lines, weights, u, arc, l, k);
        assert(call_ensures(
            dist,
            (pts[lines[l][k] as int], pts[lines[l][k + 1] as int]),
            weights[l][k],
        ));
    }
}

/// Asks `dist` for the length of every segment of every line.
pub fn segment_weights<D: Fn(Pt, Pt) -> u64>(pts: &[Pt], lines: &[Vec<usize>], dist: &D) -> (weights:
    Vec<Vec<u64>>)
    requires
        lines_below(rows(lines@), pts@.len()),
        forall|a: Pt, b: Pt| call_requires(dist, (a, b)),
    ensures
        weights_of(dist, pts@, rows(lines@), rows(weights@)),
{
    let mut weights: Vec<Vec<u64>> = Vec::new();
    let mut l: usize = 0;
    while l < lines.len()
        invariant
            l <= lines@.len(),
            lines_below(rows(lines@), pts@.len()),
            forall|a: Pt, b: Pt| call_requires(dist, (a, b)),
            weights@.len() == l,
            forall|j: int|
                0 <= j < l ==> (#[trigger] rows(weights@)[j]).len() == segments(rows(lines@)[j].len()),
            forall|j: int, k: int|
                0 <= j < l && 0 <= k < rows(weights@)[j].len() ==> call_ensures(
                    dist,
                    (pts@[rows(lines@)[j][k] as int], pts@[rows(lines@)[j][k + 1] as int]),
                    #[trigger] rows(weights@)[j][k],
                ),
        decreases lines@.len() - l,
    {
        let line = &lines[l];
        let mut row: Vec<u64> = Vec::new();
        let mut k: usize = 1;
        while k < line.len()
            invariant
                l < lines@.len(),
                *line == lines@[l as int],
                lines_below(rows(lines@), pts@.len()),
                forall|a: Pt, b: Pt| call_requires(dist, (a, b)),
                1 <= k,
                k <= line@.len() || k == 1,
                row@.len() == k - 1,
                forall|j: int|
                    0 <= j < row@.len() ==> call_ensures(
                        dist,
                        (pts@[line@[j] as int], pts@[line@[j + 1] as int]),
                        #[trigger] row@[j],
                    ),
            decreases line@.len() - k,
        {
            assert(rows(lines@)[l as int][k - 1] < pts@.len());
            assert(rows(lines@)[l as int][k as int] < pts@.len());
            let w = dist(pts[line[k - 1]], pts[line[k]]);
            row.push(w);
            k = k + 1;
        }
        let ghost before = weights@;
        let ghost row_view = row@;
        weights.push(row);
        proof {
            assert(rows(weights@)[l as int] == row_view);
            assert(rows(lines@)[l as int] == line@);
            assert forall|j: int| 0 <= j < l + 1 implies (#[trigger] rows(weights@)[j]).len()
                == segments(rows(lines@)[j].len()) by {
                if j < l {
                    assert(rows(weights@)[j] == rows(before)[j]);
                }
            }
            assert forall|j: int, k: int|
                0 <= j < l + 1 && 0 <= k < rows(weights@)[j].len() implies call_ensures(
                dist,
                (pts@[rows(lines@)[j][k] as int], pts@[rows(lines@)[j][k + 1] as int]),
                #[trigger] rows(weights@)[j][k],
            ) by {
                if j < l {
                    assert(rows(weights@)[j] == rows(before)[j]);
                }
            }
        }
        l = l + 1;
    }
    weights
}

/// The undirected graph on `node_count` nodes with one edge for each segment
/// of each line, weighted as given.
pub fn line_to_graph(node_count: usize, lines: &[Vec<usize>], weights: &[Vec<u64>]) -> (g: NetGraph)
    requires
        lines_below(rows(lines@), node_count as nat),
        one_per_segment(rows(lines@), rows(weights@)),
    ensures
        g.wf(),
        g.undirected(),
        g.lists() == graph_of_lines(node_count as nat, rows(lines@), rows(weights@)),
        g.lists().len() == node_count,
        g.nodes() == Seq::new(node_count as nat, |i: int| 0u64),
{
    let mut g = NetGraph::new_undirect(node_count);
    let ghost ls = rows(lines@);
    let ghost ws = rows(weights@);
    let ghost n = node_count as nat;
    let mut l: usize = 0;
    while l < lines.len()
        invariant
            l <= lines@.len(),
            ls == rows(lines@),
            ws == rows(weights@),
            n == node_count,
            lines_below(ls, n),
            one_per_segment(ls, ws),
            g.wf(),
            g.undirected(),
            g.lists().len() == n,
            g.nodes() == Seq::new(n, |i: int| 0u64),
            g.lists() == lines_graph(n, true, ls, ws, l as nat, 0),
        decreases lines@.len() - l,
    {
        assert(ws.len() == weights@.len());
        let line = &lines[l];
        let row = &weights[l];
        assert(ws[l as int].len() == segments(ls[l as int].len()));
        let segs = if line.len() == 0 {
            0
        } else {
            line.len() - 1
        };
        let mut k: usize = 0;
        while k < segs
            invariant
                l < lines@.len(),
                ls == rows(lines@),
                ws == rows(weights@),
                n == node_count,
                l < weights@.len(),
                *line == lines@[l as int],
                *row == weights@[l as int],
                row@.len() == segments(line@.len()),
                lines_below(ls, n),
                segs == segments(line@.len()),
                k <= segs,
                g.wf(),
                g.undirected(),
                g.lists().len() == n,
                g.nodes() == Seq::new(n, |i: int| 0u64),
                g.lists() == lines_graph(n, true, ls, ws, l as nat, k as nat),
            decreases segs - k,
        {
            assert(ls[l as int][k as int] < n);
            assert(ls[l as int][k + 1] < n);
            let ghost before = g.lists();
            g.add_new_arc(line[k], line[k + 1], row[k]);
            proof {
                lemma_with_arc_in_range(before, true, line@[k as int], line@[k + 1], row@[k as int]);
            }
            k = k + 1;
            proof {
                assert(ls[l as int] == line@);
                assert(ws[l as int] == row@);
            }
        }
        l = l + 1;
    }
    g
}

/// The weight that a node has before any other is given to it: the real
/// that stands for its number.
pub open spec fn numbered(n: nat) -> Seq<u64> {
    Seq::new(n, |i: int| index_bits(i as nat) as u64)
}

/// Gives every node its number as weight.
pub fn number_nodes(g: NetGraph) -> (out: NetGraph)
    requires
        g.wf(),
    ensures
        out.wf(),
        out.lists() == g.lists(),
        out.undirected() == g.undirected(),
        out.nodes() == numbered(g.lists().len()),
{
    let mut g = g;
    let n = g.node_count();
    let mut weights: Vec<u64> = Vec::new();
    let mut i: usize = 0;
    while i < n
        invariant
            i <= n,
            weights@.len() == i,
            forall|k: int| 0 <= k < i ==> #[trigger] weights@[k] == index_bits(k as nat) as u64,
        decreases n - i,
    {
        weights.push(from_index(i));
        i = i + 1;
    }
    g.set_node_weights(&weights);
    assert(g.nodes() =~= numbered(n as nat));
    g
}

/// What `is_connected` hands back for segment weights `weights`: the graph
/// of the lines where it is connected, and nothing where it is not.
pub open spec fn graph_assembled<D: Fn(Pt, Pt) -> u64>(
    dist: &D,
    pts: Seq<Pt>,
    lines: Seq<Seq<usize>>,
    weights: Seq<Seq<u64>>,
    r: Option<NetGraph>,
) -> bool {
    let lists = graph_of_lines(pts.len(), lines, weights);
    &&& weights_of(dist, pts, lines, weights)
    &&& match r {
        Some(g) => {
            &&& connected(lists)
            &&& g.wf()
            &&& g.undirected()
            &&& g.lists() == lists
            &&& g.lists().len() == pts.len()
            &&& g.nodes() == numbered(pts.len())
        },
        None => !connected(lists),
    }
}

/// The weighted graph of the lines, numbered, where every node can be reached
/// from node zero.
pub fn is_connected<D: Fn(Pt, Pt) -> u64>(pts: &[Pt], lines: &[Vec<usize>], dist: &D) -> (r: Option<
    NetGraph,
>)
    requires
        lines_below(rows(lines@), pts@.len()),
        forall|a: Pt, b: Pt| call_requires(dist, (a, b)),
    ensures
        exists|weights: Seq<Seq<u64>>| graph_assembled(dist, pts@, rows(lines@), weights, r),
{
    let weights = segment_weights(pts, lines, dist);
    let graph = line_to_graph(pts.len(), lines, weights.as_slice());
    if graph_is_connected(&graph) {
        let result = Some(number_nodes(graph));
        proof {
            assert(graph_assembled(dist, pts@, rows(lines@), rows(weights@), result));
        }
        result
    } else {
        proof {
            assert(graph_assembled(dist, pts@, rows(lines@), rows(weights@), None));
        }
        None
    }
}

/// What `build_graph` hands back for segment weights `weights`: the network
/// where its graph is connected, and nothing where it is not.
pub open spec fn assembled<D: Fn(Pt, Pt) -> u64>(
    dist: &D,
    pts: Seq<Pt>,
    lines: Seq<Seq<usize>>,
    weights: Seq<Seq<u64>>,
    r: Option<Network>,
) -> bool {
    let lists = graph_of_lines(pts.len(), lines, weights);
    &&& weights_of(dist, pts, lines, weights)
    &&& match r {
        Some(net) => {
            &&& connected(lists)
            &&& net.wf()
            &&& net.points@ == pts
            &&& rows(net.lines@) == lines
            &&& net.graph.undirected()
            &&& net.graph.lists() == lists
            &&& net.graph.nodes() == numbered(pts.len())
        },
        None => !connected(lists),
    }
}

/// Joins the neighbours of every line by an edge as long as `dist` says, and
/// keeps the network only if every node can then be reached from node zero.
pub fn build_graph<D: Fn(Pt, Pt) -> u64>(pts: PointListFactory, lines: Lines, dist: &D) -> (r: Option<
    Network,
>)
    requires
        lines_below(rows(lines@), pts.points().len()),
        forall|a: Pt, b: Pt| call_requires(dist, (a, b)),
    ensures
        exists|weights: Seq<Seq<u64>>| assembled(dist, pts.points(), rows(lines@), weights, r),
{
    let points = pts.get_points();
    let ghost ls = rows(lines@);
    let made = is_connected(points.as_slice(), lines.as_slice(), dist);
    let ghost weights = choose|weights: Seq<Seq<u64>>| graph_assembled(dist, points@, ls, weights, made);
    match made {
        Some(graph) => {
            let net = Network { lines, points, graph };
            proof {
                assert forall|l: int, k: int|
                    0 <= l < net.lines@.len() && 0 <= k < net.lines@[l]@.len() implies (
                #[trigger] net.lines@[l]@[k]) < net.points@.len() by {
                    assert(ls[l][k] < points@.len());
                }
                assert(assembled(dist, pts.points(), ls, weights, Some(net)));
            }
            Some(net)
        },
        None => {
            proof {
                assert(assembled(dist, pts.points(), ls, weights, None));
            }
            None
        },
    }
}

} // verus!
