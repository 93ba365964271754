//! The network, and its assembly from curves, node parameters and crossings.

use vstd::prelude::*;
use crate::build_lines::{assigned, build_lines, crossings_name_curves, paired, rows, Crossings};
use crate::float_table::FloatMatrix;
use crate::graph::NetGraph;
use crate::lines_to_graph::{assembled, build_graph};
use crate::point_factory::Pt;

verus! {

/// Lines of nodes, the point of each node, and the graph that joins
/// neighbouring nodes of a line.
pub struct Network {
    pub lines: Vec<Vec<usize>>,
    pub points: Vec<Pt>,
    pub graph: NetGraph,
}

impl Network {
    /// The graph has one node per point, and every node of a line is a node
    /// of the graph.
    pub open spec fn wf(&self) -> bool {
        &&& self.graph.wf()
        &&& self.graph.lists().len() == self.points@.len()
        &&& forall|l: int, k: int|
            0 <= l < self.lines@.len() && 0 <= k < self.lines@[l]@.len() ==> (
            #[trigger] self.lines@[l]@[k]) < self.points@.len()
    }
}

/// Each point is what `eval` gave for the curve and the parameter it comes
/// from.
pub open spec fn points_of<C, E: Fn(&C, u64) -> Pt>(
    eval: &E,
    curves: Seq<C>,
    origins: Seq<(int, u64)>,
    pts: Seq<Pt>,
) -> bool {
    &&& pts.len() == origins.len()
    &&& forall|p: int|
        0 <= p < origins.len() ==> 0 <= (#[trigger] origins[p]).0 < curves.len() && call_ensures(
            eval,
            (&curves[origins[p].0], origins[p].1),
            pts[p],
        )
}

/// What `build_network` hands back where `eval` gave the points `pts` and
/// `dist` the segment weights `weights`.
pub open spec fn network_of<C, E: Fn(&C, u64) -> Pt, D: Fn(Pt, Pt) -> u64>(
    curves: Seq<C>,
    nodes: Seq<Seq<u64>>,
    crossings: Crossings,
    eval: &E,
    dist: &D,
    pts: Seq<Pt>,
    weights: Seq<Seq<u64>>,
    r: Option<Network>,
) -> bool {
    let a = assigned(nodes, crossings, curves.len(), paired(curves.len(), nodes.len()), 0);
    points_of(eval, curves, a.origins, pts) && assembled(dist, pts, a.lines, weights, r)
}

/// Places the node parameters of every curve, with one node where two curves
/// cross, joins neighbouring nodes of each line by an edge weighted with their
/// distance, and keeps the result only if it is connected.
pub fn build_network<C, E: Fn(&C, u64) -> Pt, D: Fn(Pt, Pt) -> u64>(
    curves: &[C],
    nodes: &[Vec<u64>],
    intersections: &FloatMatrix<(usize, u64)>,
    eval: &E,
    dist: &D,
) -> (r: Option<Network>)
    requires
        nodes@.len() <= intersections@.len() || curves@.len() <= intersections@.len(),
        crossings_name_curves(intersections@, curves@.len() as nat),
        forall|c: &C, t: u64| call_requires(eval, (c, t)),
        forall|a: Pt, b: Pt| call_requires(dist, (a, b)),
    ensures
        exists|pts: Seq<Pt>, weights: Seq<Seq<u64>>|
            network_of(curves@, rows(nodes@), intersections@, eval, dist, pts, weights, r),
{
    let (point_factory, lines) = build_lines(curves, nodes, intersections, eval);
    let ghost pts = point_factory.points();
    let ghost ls = rows(lines@);
    let r = build_graph(point_factory, lines, dist);
    proof {
        let weights = choose|weights: Seq<Seq<u64>>| assembled(dist, pts, ls, weights, r);
        assert(rows(nodes@).len() == nodes@.len());
        let a = assigned(
            rows(nodes@),
            intersections@,
            curves@.len(),
            paired(curves@.len(), nodes@.len()),
            0,
        );
        assert(ls == a.lines);
        assert(points_of(eval, curves@, a.origins, pts));
        assert(network_of(curves@, rows(nodes@), intersections@, eval, dist, pts, weights, r));
    }
    r
}

} // verus!
