//! The list of the network's points, and the register that lets two lines
//! share the point where they cross.

use vstd::prelude::*;
use crate::float_table::FloatMatrix;

verus! {

/// A point of the plane: the bit patterns of its two coordinates.
pub type Pt = (u64, u64);

/// Collects the points of the network and remembers which node was made
/// for which parameter of which line.
pub struct PointListFactory {
    points: Vec<Pt>,
    inter_table: FloatMatrix<usize>,
}

impl PointListFactory {
    /// The points made so far; a point's position in this list is its node.
    pub closed spec fn points(&self) -> Seq<Pt> {
        self.points@
    }

    /// For each line, the node that was made at a given parameter of it.
    pub closed spec fn table(&self) -> Seq<Map<u64, usize>> {
        self.inter_table@
    }

    /// A factory without points, for `lines` lines.
    pub fn new(lines: usize) -> (f: Self)
        ensures
            f.points() == Seq::<Pt>::empty(),
            f.table().len() == lines,
            forall|i: int| 0 <= i < lines ==> f.table()[i] == Map::<u64, usize>::empty(),
    {
        let inter_table = FloatMatrix::new(lines);
        Self { points: Vec::new(), inter_table }
    }

    /// Makes the point of curve `c` at parameter `t` a new node and registers
    /// it for line `id`.
    pub fn add_point<C, E: Fn(&C, u64) -> Pt>(&mut self, id: usize, c: &C, t: u64, eval: &E) -> (idx:
        usize)
        requires
            id < old(self).table().len(),
            call_requires(eval, (c, t)),
        ensures
            idx == old(self).points().len(),
            final(self).points().len() == idx + 1,
            final(self).points().drop_last() == old(self).points(),
            call_ensures(eval, (c, t), final(self).points()[idx as int]),
            final(self).table() == old(self).table().update(
                id as int,
                old(self).table()[id as int].insert(t, idx),
            ),
    {
        let curr = self.points.len();
        let pt = eval(c, t);
        self.points.push(pt);
        self.inter_table.insert(id, t, curr);
        assert(self.points@.drop_last() =~= old(self).points@);
        curr
    }

    /// The node registered for line `id` at parameter `t`, if there is one.
    pub fn get_index_for_intersection(&self, id: usize, t: u64) -> (r: Option<usize>)
        requires
            id < self.table().len(),
        ensures
            r == (if self.table()[id as int].contains_key(t) {
                Some(self.table()[id as int][t])
            } else {
                None
            }),
    {
        match self.inter_table.get(id, t) {
            Some(idx) => Some(*idx),
            None => None,
        }
    }

    /// The points made, in the order of their nodes.
    pub fn get_points(self) -> (pts: Vec<Pt>)
        ensures
            pts@ == self.points(),
    {
        self.points
    }
}

} // verus!
