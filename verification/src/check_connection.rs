//! Connectivity of a graph given as a square matrix of weights, in which a
//! weight below the greatest finite real marks an arc.

use vstd::prelude::*;
use crate::build_lines::rows;
use crate::check_connected_graph::{all_reached, connected, depth_first_search, reachable, ArcLists};
use crate::float_bits::{float_lt, lt, MAX};
use crate::graph::NetGraph;

verus! {

/// A matrix of weights, as bit patterns, of the `ndarray` crate.
#[verifier::external_body]
pub struct AdjMatrix {
    inner: ndarray::Array2<u64>,
}

/// The rows of the matrix.
pub uninterp spec fn matrix_rows(m: &AdjMatrix) -> Seq<Seq<u64>>;

/// Calls `Array2::from_shape_fn` for a square shape, with a callback that
/// reads `rows[i][j]`: the element at row `i` and column `j` is what the
/// callback gives for `(i, j)`.
#[verifier::external_body]
fn raw_from_rows(given: &Vec<Vec<u64>>) -> (m: AdjMatrix)
    requires
        forall|i: int| 0 <= i < given@.len() ==> (#[trigger] given@[i])@.len() == given@.len(),
    ensures
        matrix_rows(&m) == rows(given@),
{
    AdjMatrix { inner: ndarray::Array2::from_shape_fn((given.len(), given.len()), |(i, j)| given[i][j]) }
}

/// Calls `nrows`, the length of the first axis.
#[verifier::external_body]
fn raw_nrows(m: &AdjMatrix) -> (n: usize)
    ensures
        n == matrix_rows(m).len(),
{
    m.inner.nrows()
}

/// Calls `row`, which panics for a row that is not there, and `to_vec` on
/// the view it gives.
#[verifier::external_body]
fn raw_row(m: &AdjMatrix, i: usize) -> (row: Vec<u64>)
    requires
        i < matrix_rows(m).len(),
    ensures
        row@ == matrix_rows(m)[i as int],
{
    m.inner.row(i).to_vec()
}

/// The arcs that the first `j` entries of a row stand for: one to each
/// column whose weight is below the greatest finite real.
pub open spec fn row_arcs(row: Seq<u64>, j: nat) -> Seq<(usize, u64)>
    decreases j,
{
    if j == 0 {
        Seq::empty()
    } else if float_lt(row[j - 1], MAX) {
        row_arcs(row, (j - 1) as nat).push(((j - 1) as usize, row[j - 1]))
    } else {
        row_arcs(row, (j - 1) as nat)
    }
}

/// The arc lists that a matrix stands for.
pub open spec fn matrix_lists(m: Seq<Seq<u64>>) -> ArcLists {
    Seq::new(m.len(), |i: int| row_arcs(m[i], m[i].len()))
}

/// The arc lists while the matrix is read: the rows before row `i` in full,
/// row `i` up to column `j`, and nothing yet for the rows behind.
pub open spec fn lists_so_far(m: Seq<Seq<u64>>, i: int, j: nat) -> ArcLists {
    Seq::new(
        m.len(),
        |u: int|
            if u < i {
                row_arcs(m[u], m[u].len())
            } else if u == i {
                row_arcs(m[u], j)
            } else {
                Seq::empty()
            },
    )
}

impl AdjMatrix {
    /// The rows of the matrix.
    pub open spec fn rows(&self) -> Seq<Seq<u64>> {
        matrix_rows(self)
    }

    /// As many columns as rows.
    pub open spec fn wf(&self) -> bool {
        forall|i: int| 0 <= i < self.rows().len() ==> (#[trigger] self.rows()[i]).len() == self.rows().len()
    }

    /// The matrix with the given rows; nothing where they are not as long as
    /// they are many.
    pub fn from_rows(given: &Vec<Vec<u64>>) -> (r: Option<Self>)
        ensures
            r is Some <==> (forall|i: int|
                0 <= i < given@.len() ==> (#[trigger] given@[i])@.len() == given@.len()),
            r is Some ==> r->0.wf() && r->0.rows() == rows(given@),
    {
        let n = given.len();
        let mut i: usize = 0;
        while i < n
            invariant
                i <= n,
                n == given@.len(),
                forall|k: int| 0 <= k < i ==> (#[trigger] given@[k])@.len() == n,
            decreases n - i,
        {
            if given[i].len() != n {
                return None;
            }
            i = i + 1;
        }
        let m = raw_from_rows(given);
        proof {
            assert forall|k: int| 0 <= k < m.rows().len() implies (#[trigger] m.rows()[k]).len()
                == m.rows().len() by {
                assert(given@[k]@.len() == n);
            }
        }
        Some(m)
    }

    /// The number of rows.
    pub fn nrows(&self) -> (n: usize)
        ensures
            n == self.rows().len(),
    {
        raw_nrows(self)
    }

    /// Row `i`.
    pub fn row(&self, i: usize) -> (row: Vec<u64>)
        requires
            i < self.rows().len(),
        ensures
            row@ == self.rows()[i as int],
    {
        raw_row(self, i)
    }
}

/// The columns to which an arc leads from the node of this row.
pub fn adj_nodes(row: &Vec<u64>) -> (next: Vec<usize>)
    ensures
        next@.len() == row_arcs(row@, row@.len()).len(),
        forall|k: int| 0 <= k < next@.len() ==> #[trigger] next@[k] == row_arcs(row@, row@.len())[k].0,
{
    let mut next: Vec<usize> = Vec::new();
    let mut j: usize = 0;
    while j < row.len()
        invariant
            j <= row@.len(),
            next@.len() == row_arcs(row@, j as nat).len(),
            forall|k: int| 0 <= k < next@.len() ==> #[trigger] next@[k] == row_arcs(row@, j as nat)[k].0,
        decreases row@.len() - j,
    {
        if lt(row[j], MAX) {
            next.push(j);
        }
        j = j + 1;
    }
    next
}

/// The directed graph that the matrix stands for.
pub fn adjacency(g: &AdjMatrix) -> (graph: NetGraph)
    requires
        g.wf(),
    ensures
        graph.wf(),
        !graph.undirected(),
        graph.lists() == matrix_lists(g.rows()),
{
    let n = g.nrows();
    let mut graph = NetGraph::new_direct(n);
    let ghost m = g.rows();
    let mut i: usize = 0;
    assert(graph.lists() =~= lists_so_far(m, 0, 0));
    while i < n
        invariant
            i <= n,
            n == m.len(),
            m == g.rows(),
            g.wf(),
            graph.wf(),
            !graph.undirected(),
            graph.lists().len() == n,
            graph.lists() == lists_so_far(m, i as int, 0),
        decreases n - i,
    {
        let row = g.row(i);
        assert(row@.len() == n);
        let mut j: usize = 0;
        while j < n
            invariant
                i < n,
                j <= n,
                n == m.len(),
                row@ == m[i as int],
                row@.len() == n,
                graph.wf(),
                !graph.undirected(),
                graph.lists().len() == n,
                graph.lists() == lists_so_far(m, i as int, j as nat),
            decreases n - j,
        {
            if lt(row[j], MAX) {
                graph.add_new_arc(i, j, row[j]);
            }
            j = j + 1;
            assert(graph.lists() =~= lists_so_far(m, i as int, j as nat));
        }
        i = i + 1;
        assert(graph.lists() =~= lists_so_far(m, i as int, 0));
    }
    assert(graph.lists() =~= matrix_lists(m));
    graph
}

/// For each node, whether a search from node zero along the arcs reaches it.
pub fn breadth_first_search(g: &AdjMatrix) -> (visited: Vec<bool>)
    requires
        g.wf(),
    ensures
        visited@.len() == g.rows().len(),
        forall|v: int|
            0 <= v < visited@.len() ==> #[trigger] visited@[v] == reachable(matrix_lists(g.rows()), 0, v),
{
    let graph = adjacency(g);
    depth_first_search(&graph)
}

/// Whether every node can be reached from node zero along the arcs that the
/// matrix stands for.
pub fn is_connected(g: &AdjMatrix) -> (r: bool)
    requires
        g.wf(),
    ensures
        r == connected(matrix_lists(g.rows())),
{
    let visited = breadth_first_search(g);
    let all = all_reached(&visited);
    proof {
        let lists = matrix_lists(g.rows());
        if all {
            assert forall|v: int| 0 <= v < lists.len() implies reachable(lists, 0, v) by {
                assert(visited@[v]);
            }
        } else {
            let u = choose|u: int| 0 <= u < visited@.len() && !visited@[u];
            assert(!reachable(lists, 0, u));
        }
    }
    all
}

} // verus!
