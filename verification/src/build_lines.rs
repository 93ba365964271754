//! Turning the node parameters of each curve into lines of node numbers, with
//! one shared node where two curves cross.

use vstd::prelude::*;
use crate::float_table::FloatMatrix;
use crate::point_factory::{PointListFactory, Pt};

verus! {

pub type Lines = Vec<Vec<usize>>;

/// For each curve and each parameter at which it crosses another curve: that
/// other curve, and a parameter of it.
pub type Crossings = Seq<Map<u64, (usize, u64)>>;

/// The rows of a vector of vectors.
pub open spec fn rows<T>(v: Seq<Vec<T>>) -> Seq<Seq<T>> {
    Seq::new(v.len(), |i: int| v[i]@)
}

/// What has been decided after some of the parameters have been placed.
pub struct Assignment {
    /// The nodes of each line so far.
    pub lines: Seq<Seq<usize>>,
    /// For each line, the node made at a given parameter of it.
    pub table: Seq<Map<u64, usize>>,
    /// For each node, the curve and the parameter whose point it is.
    pub origins: Seq<(int, u64)>,
}

/// The node that parameter `t` of curve `i` shares with the curve it crosses
/// there, where that curve has a node registered at the recorded parameter.
pub open spec fn shared_node(
    crossings: Crossings,
    table: Seq<Map<u64, usize>>,
    i: int,
    t: u64,
) -> Option<usize> {
    if crossings[i].contains_key(t) {
        let other = crossings[i][t];
        if table[other.0 as int].contains_key(other.1) {
            Some(table[other.0 as int][other.1])
        } else {
            None
        }
    } else {
        None
    }
}

/// Placing parameter `t` of curve `i`: the line gets the shared node where
/// there is one, and else a new node, which is registered under `(i, t)`.
pub open spec fn placed(a: Assignment, crossings: Crossings, i: int, t: u64) -> Assignment {
    match shared_node(crossings, a.table, i, t) {
        Some(idx) => Assignment {
            lines: a.lines.update(i, a.lines[i].push(idx)),
            table: a.table,
            origins: a.origins,
        },
        None => {
            let idx = a.origins.len() as usize;
            Assignment {
                lines: a.lines.update(i, a.lines[i].push(idx)),
                table: a.table.update(i, a.table[i].insert(t, idx)),
                origins: a.origins.push((i, t)),
            }
        },
    }
}

/// The assignment for `n` curves after every parameter of the first `i`
/// curves and the first `k` parameters of curve `i` have been placed, in
/// order.
pub open spec fn assigned(nodes: Seq<Seq<u64>>, crossings: Crossings, n: nat, i: nat, k: nat) -> Assignment
    decreases i, k,
{
    if k > 0 {
        placed(
            assigned(nodes, crossings, n, i, (k - 1) as nat),
            crossings,
            i as int,
            nodes[i as int][k - 1],
        )
    } else if i > 0 {
        assigned(nodes, crossings, n, (i - 1) as nat, nodes[i - 1].len())
    } else {
        Assignment {
            lines: Seq::new(n, |l: int| Seq::<usize>::empty()),
            table: Seq::new(n, |l: int| Map::<u64, usize>::empty()),
            origins: Seq::empty(),
        }
    }
}

/// The number of curves that have a list of node parameters.
pub open spec fn paired(curves: nat, nodes: nat) -> nat {
    if nodes < curves {
        nodes
    } else {
        curves
    }
}

/// Every recorded crossing names one of the first `n` curves.
pub open spec fn crossings_name_curves(crossings: Crossings, n: nat) -> bool {
    forall|i: int, t: u64|
        0 <= i < crossings.len() && crossings[i].contains_key(t) ==> (
        #[trigger] crossings[i][t]).0 < n
}

/// Every node of every line, and every registered node, is one of the first
/// `count` nodes.
pub open spec fn nodes_below(lines: Seq<Seq<usize>>, table: Seq<Map<u64, usize>>, count: nat) -> bool {
    &&& forall|l: int, k: int|
        0 <= l < lines.len() && 0 <= k < lines[l].len() ==> (#[trigger] lines[l][k]) < count
    &&& forall|l: int, t: u64|
        0 <= l < table.len() && table[l].contains_key(t) ==> (#[trigger] table[l][t]) < count
}

/// An assignment for `n` curves has `n` lines and `n` registers.
pub proof fn lemma_assigned_lines(nodes: Seq<Seq<u64>>, crossings: Crossings, n: nat, i: nat, k: nat)
    requires
        i <= n,
        k > 0 ==> i < n,
    ensures
        assigned(nodes, crossings, n, i, k).lines.len() == n,
        assigned(nodes, crossings, n, i, k).table.len() == n,
    decreases i, k,
{
    if k > 0 {
        lemma_assigned_lines(nodes, crossings, n, i, (k - 1) as nat);
    } else if i > 0 {
        lemma_assigned_lines(nodes, crossings, n, (i - 1) as nat, nodes[i - 1].len());
    }
}

/// How many parameters of curve `l` have been placed once every parameter of
/// the first `i` curves and `k` parameters of curve `i` have been.
pub open spec fn placed_count(nodes: Seq<Seq<u64>>, i: nat, k: nat, l: int) -> nat {
    if l < i {
        nodes[l].len()
    } else if l == i {
        k
    } else {
        0
    }
}

/// `(i, k)` is a moment of the placing of the first `m` curves.
pub open spec fn is_moment(nodes: Seq<Seq<u64>>, m: nat, i: nat, k: nat) -> bool {
    &&& i <= m
    &&& i < m ==> k <= nodes[i as int].len()
    &&& i == m ==> k == 0
}

/// Moment `(i, k)` is not before moment `(i0, k0)`.
pub open spec fn not_before(i: nat, k: nat, i0: nat, k0: nat) -> bool {
    i > i0 || (i == i0 && k >= k0)
}

/// At every moment each line holds as many nodes as parameters of its curve
/// have been placed, and nothing is registered for the curves that are still
/// to come.
pub proof fn lemma_assigned_shape(nodes: Seq<Seq<u64>>, crossings: Crossings, n: nat, m: nat, i: nat, k: nat)
    requires
        m <= n,
        m <= nodes.len(),
        is_moment(nodes, m, i, k),
    ensures
        assigned(nodes, crossings, n, i, k).lines.len() == n,
        assigned(nodes, crossings, n, i, k).table.len() == n,
        forall|l: int|
            0 <= l < n ==> (#[trigger] assigned(nodes, crossings, n, i, k).lines[l]).len()
                == placed_count(nodes, i, k, l),
        forall|l: int|
            i < l < n ==> #[trigger] assigned(nodes, crossings, n, i, k).table[l] == Map::<
                u64,
                usize,
            >::empty(),
    decreases i, k,
{
    let now = assigned(nodes, crossings, n, i, k);
    if k > 0 {
        let before = assigned(nodes, crossings, n, i, (k - 1) as nat);
        lemma_assigned_shape(nodes, crossings, n, m, i, (k - 1) as nat);
        assert forall|l: int| 0 <= l < n implies (#[trigger] now.lines[l]).len() == placed_count(
            nodes,
            i,
            k,
            l,
        ) by {
            assert(before.lines[l].len() == placed_count(nodes, i, (k - 1) as nat, l));
        }
        assert forall|l: int| i < l < n implies #[trigger] now.table[l] == Map::<u64, usize>::empty() by {
            assert(before.table[l] == Map::<u64, usize>::empty());
        }
    } else if i > 0 {
        let before = assigned(nodes, crossings, n, (i - 1) as nat, nodes[i - 1].len());
        lemma_assigned_shape(nodes, crossings, n, m, (i - 1) as nat, nodes[i - 1].len());
        assert forall|l: int| 0 <= l < n implies (#[trigger] now.lines[l]).len() == placed_count(
            nodes,
            i,
            k,
            l,
        ) by {
            assert(before.lines[l].len() == placed_count(nodes, (i - 1) as nat, nodes[i - 1].len(), l));
        }
        assert forall|l: int| i < l < n implies #[trigger] now.table[l] == Map::<u64, usize>::empty() by {
            assert(before.table[l] == Map::<u64, usize>::empty());
        }
    }
}

/// Position `a` of line `i` holds the node that is registered for curve `i`
/// at parameter `t`.
pub open spec fn registered_at(s: Assignment, i: int, a: int, t: u64) -> bool {
    &&& a < s.lines[i].len()
    &&& s.table[i].contains_key(t)
    &&& s.lines[i][a] == s.table[i][t]
}

/// Position `a` of line `i` and position `b` of line `j` hold the same node.
pub open spec fn same_node(s: Assignment, i: int, a: int, j: int, b: int) -> bool {
    &&& a < s.lines[i].len()
    &&& b < s.lines[j].len()
    &&& s.lines[i][a] == s.lines[j][b]
}

/// What must hold of a crossing of curve `i` at position `a` of its
/// parameters with a later curve `j` at position `b` of its parameters for
/// the two to share a node.
pub open spec fn crossing_recorded(
    nodes: Seq<Seq<u64>>,
    crossings: Crossings,
    n: nat,
    i: int,
    a: int,
    j: int,
    b: int,
) -> bool {
    let m = paired(n, nodes.len());
    &&& 0 <= i < j < m
    &&& m <= crossings.len()
    &&& crossings_name_curves(crossings, n)
    &&& 0 <= a < nodes[i].len()
    &&& 0 <= b < nodes[j].len()
    &&& crossings[j].contains_key(nodes[j][b])
    &&& crossings[j][nodes[j][b]].0 == i
    &&& crossings[j][nodes[j][b]].1 == nodes[i][a]
    &&& crossings[i].contains_key(nodes[i][a]) ==> crossings[i][nodes[i][a]].0 > i
    &&& forall|k: int| 0 <= k < nodes[i].len() && k != a ==> #[trigger] nodes[i][k] != nodes[i][a]
}

proof fn lemma_crossing_kept(
    nodes: Seq<Seq<u64>>,
    crossings: Crossings,
    n: nat,
    i: int,
    a: int,
    j: int,
    b: int,
    at: nat,
    k: nat,
)
    requires
        crossing_recorded(nodes, crossings, n, i, a, j, b),
        is_moment(nodes, paired(n, nodes.len()), at, k),
        not_before(at, k, i as nat, (a + 1) as nat),
    ensures
        registered_at(assigned(nodes, crossings, n, at, k), i, a, nodes[i][a]),
        not_before(at, k, j as nat, (b + 1) as nat) ==> same_node(
            assigned(nodes, crossings, n, at, k),
            i,
            a,
            j,
            b,
        ),
    decreases at, k,
{
    let m = paired(n, nodes.len());
    let ti = nodes[i][a];
    let tj = nodes[j][b];
    let now = assigned(nodes, crossings, n, at, k);
    if k > 0 {
        let before = assigned(nodes, crossings, n, at, (k - 1) as nat);
        let t = nodes[at as int][k - 1];
        lemma_assigned_shape(nodes, crossings, n, m, at, (k - 1) as nat);
        assert(now == placed(before, crossings, at as int, t));
        assert(before.lines[at as int].len() == placed_count(nodes, at, (k - 1) as nat, at as int));
        if at == i && k - 1 == a {
            if crossings[i].contains_key(ti) {
                let other = crossings[i][ti];
                assert(other.0 < n);
                assert(before.table[other.0 as int] == Map::<u64, usize>::empty());
            }
            assert(shared_node(crossings, before.table, i, ti) is None);
        } else {
            lemma_crossing_kept(nodes, crossings, n, i, a, j, b, at, (k - 1) as nat);
            assert(registered_at(before, i, a, ti));
            if at == i {
                assert(nodes[i][k - 1] != nodes[i][a]);
            }
            assert(registered_at(now, i, a, ti));
            if not_before(at, k, j as nat, (b + 1) as nat) {
                if at == j && k - 1 == b {
                    assert(shared_node(crossings, before.table, j, tj) == Some(before.table[i][ti]));
                    assert(now.lines[j][b] == before.table[i][ti]);
                } else {
                    assert(same_node(before, i, a, j, b));
                }
            }
        }
    } else {
        assert(at > i);
        lemma_crossing_kept(nodes, crossings, n, i, a, j, b, (at - 1) as nat, nodes[at - 1].len());
    }
}

/// Two curves that cross share the node at their crossing. The later curve's
/// parameter must still name the earlier curve and its parameter; the earlier
/// curve's parameter must occur once among its node parameters, and what is
/// recorded for it must name a later curve, as recording a crossing leaves
/// it.
pub proof fn lemma_crossing_shares_node(
    nodes: Seq<Seq<u64>>,
    crossings: Crossings,
    n: nat,
    i: int,
    a: int,
    j: int,
    b: int,
)
    requires
        crossing_recorded(nodes, crossings, n, i, a, j, b),
    ensures
        same_node(assigned(nodes, crossings, n, paired(n, nodes.len()), 0), i, a, j, b),
{
    lemma_crossing_kept(nodes, crossings, n, i, a, j, b, paired(n, nodes.len()), 0);
}

/// As many lines as asked for, all empty.
pub fn new_lines(line_count: usize) -> (lines: Lines)
    ensures
        lines@.len() == line_count,
        forall|l: int| 0 <= l < line_count ==> (#[trigger] lines@[l])@ == Seq::<usize>::empty(),
{
    let mut lines: Lines = Vec::new();
    let mut l: usize = 0;
    while l < line_count
        invariant
            l <= line_count,
            lines@.len() == l,
            forall|j: int| 0 <= j < l ==> (#[trigger] lines@[j])@ == Seq::<usize>::empty(),
        decreases line_count - l,
    {
        lines.push(Vec::new());
        l = l + 1;
    }
    lines
}

/// The node for parameter `t` of curve `c`, which is line `line_id`: the node
/// it shares with a crossing curve, or a new one.
pub fn get_point_index<C, E: Fn(&C, u64) -> Pt>(
    line_id: usize,
    c: &C,
    t: u64,
    factory: &mut PointListFactory,
    intersections: &FloatMatrix<(usize, u64)>,
    eval: &E,
) -> (idx: usize)
    requires
        line_id < intersections@.len(),
        line_id < old(factory).table().len(),
        crossings_name_curves(intersections@, old(factory).table().len()),
        call_requires(eval, (c, t)),
    ensures
        match shared_node(intersections@, old(factory).table(), line_id as int, t) {
            Some(shared) => {
                &&& idx == shared
                &&& final(factory).points() == old(factory).points()
                &&& final(factory).table() == old(factory).table()
            },
            None => {
                &&& idx == old(factory).points().len()
                &&& final(factory).points().len() == idx + 1
                &&& final(factory).points().drop_last() == old(factory).points()
                &&& call_ensures(eval, (c, t), final(factory).points()[idx as int])
                &&& final(factory).table() == old(factory).table().update(
                    line_id as int,
                    old(factory).table()[line_id as int].insert(t, idx),
                )
            },
        },
{
    match intersections.get(line_id, t) {
        Some(other) => {
            match factory.get_index_for_intersection(other.0, other.1) {
                Some(idx) => idx,
                None => factory.add_point(line_id, c, t, eval),
            }
        },
        None => factory.add_point(line_id, c, t, eval),
    }
}

/// Places every parameter of every curve, curve by curve and in the order
/// given. Curves beyond the last list of parameters get an empty line.
pub fn build_lines<C, E: Fn(&C, u64) -> Pt>(
    curves: &[C],
    nodes: &[Vec<u64>],
    intersections: &FloatMatrix<(usize, u64)>,
    eval: &E,
) -> (r: (PointListFactory, Lines))
    requires
        nodes@.len() <= intersections@.len() || curves@.len() <= intersections@.len(),
        crossings_name_curves(intersections@, curves@.len() as nat),
        forall|i: int, k: int|
            0 <= i < curves@.len() && 0 <= i < nodes@.len() && 0 <= k < nodes@[i]@.len()
                ==> call_requires(eval, (&curves@[i], #[trigger] nodes@[i]@[k])),
    ensures
        ({
            let m = paired(curves@.len(), nodes@.len());
            let a = assigned(rows(nodes@), intersections@, curves@.len() as nat, m, 0);
            &&& rows(r.1@) == a.lines
            &&& r.0.table() == a.table
            &&& r.0.points().len() == a.origins.len()
            &&& nodes_below(a.lines, a.table, a.origins.len())
            &&& forall|p: int|
                0 <= p < a.origins.len() ==> 0 <= (#[trigger] a.origins[p]).0 < m && call_ensures(
                    eval,
                    (&curves@[a.origins[p].0], a.origins[p].1),
                    r.0.points()[p],
                )
        }),
{
    let n = curves.len();
    let m = if nodes.len() < n {
        nodes.len()
    } else {
        n
    };
    let mut lines = new_lines(n);
    let mut factory = PointListFactory::new(n);
    let ghost crossings = intersections@;
    let ghost params = rows(nodes@);
    let mut i: usize = 0;
    proof {
        assert(rows(lines@) =~= assigned(params, crossings, n as nat, 0, 0).lines);
        assert(factory.table() =~= assigned(params, crossings, n as nat, 0, 0).table);
    }
    while i < m
        invariant
            n == curves@.len(),
            m <= n,
            m <= nodes@.len(),
            m <= intersections@.len(),
            i <= m,
            crossings == intersections@,
            params == rows(nodes@),
            crossings_name_curves(crossings, n as nat),
            forall|i: int, k: int|
                0 <= i < curves@.len() && 0 <= i < nodes@.len() && 0 <= k < nodes@[i]@.len()
                    ==> call_requires(eval, (&curves@[i], #[trigger] nodes@[i]@[k])),
            lines@.len() == n,
            factory.table().len() == n,
            ({
                let a = assigned(params, crossings, n as nat, i as nat, 0);
                &&& rows(lines@) == a.lines
                &&& factory.table() == a.table
                &&& factory.points().len() == a.origins.len()
                &&& nodes_below(a.lines, a.table, a.origins.len())
                &&& forall|p: int|
                    0 <= p < a.origins.len() ==> 0 <= (#[trigger] a.origins[p]).0 < m
                        && call_ensures(
                        eval,
                        (&curves@[a.origins[p].0], a.origins[p].1),
                        factory.points()[p],
                    )
            }),
        decreases m - i,
    {
        let c = &curves[i];
        let row = &nodes[i];
        let mut k: usize = 0;
        while k < row.len()
            invariant
                n == curves@.len(),
                m <= n,
                m <= nodes@.len(),
                m <= intersections@.len(),
                i < m,
                crossings == intersections@,
                params == rows(nodes@),
                crossings_name_curves(crossings, n as nat),
                forall|i: int, k: int|
                    0 <= i < curves@.len() && 0 <= i < nodes@.len() && 0 <= k < nodes@[i]@.len()
                        ==> call_requires(eval, (&curves@[i], #[trigger] nodes@[i]@[k])),
                *c == curves@[i as int],
                *row == nodes@[i as int],
                k <= row@.len(),
                lines@.len() == n,
                factory.table().len() == n,
                ({
                    let a = assigned(params, crossings, n as nat, i as nat, k as nat);
                    &&& rows(lines@) == a.lines
                    &&& factory.table() == a.table
                    &&& factory.points().len() == a.origins.len()
                    &&& nodes_below(a.lines, a.table, a.origins.len())
                    &&& forall|p: int|
                        0 <= p < a.origins.len() ==> 0 <= (#[trigger] a.origins[p]).0 < m
                            && call_ensures(
                            eval,
                            (&curves@[a.origins[p].0], a.origins[p].1),
                            factory.points()[p],
                        )
                }),
            decreases row@.len() - k,
        {
            let t = row[k];
            let ghost before = assigned(params, crossings, n as nat, i as nat, k as nat);
            let ghost old_points = factory.points();
            let ghost old_lines = lines@;
            assert(params[i as int][k as int] == t);
            assert(call_requires(eval, (&curves@[i as int], nodes@[i as int]@[k as int])));
            let idx = get_point_index(i, c, t, &mut factory, intersections, eval);
            lines[i].push(idx);
            k = k + 1;
            proof {
                let after = assigned(params, crossings, n as nat, i as nat, k as nat);
                assert(after == placed(before, crossings, i as int, t));
                assert(rows(lines@) =~= after.lines) by {
                    assert forall|l: int| 0 <= l < n implies rows(lines@)[l] == after.lines[l] by {
                        if l != i as int {
                            assert(lines@[l] == old_lines[l]);
                            assert(rows(old_lines)[l] == before.lines[l]);
                        } else {
                            assert(rows(old_lines)[l] == before.lines[l]);
                        }
                    }
                }
                assert forall|p: int| 0 <= p < after.origins.len() implies 0 <= (
                #[trigger] after.origins[p]).0 < m && call_ensures(
                    eval,
                    (&curves@[after.origins[p].0], after.origins[p].1),
                    factory.points()[p],
                ) by {
                    if p < before.origins.len() {
                        assert(after.origins[p] == before.origins[p]);
                        assert(factory.points()[p] == old_points[p]) by {
                            if factory.points() != old_points {
                                assert(factory.points().drop_last()[p] == factory.points()[p]);
                            }
                        }
                    }
                }
                assert(nodes_below(after.lines, after.table, after.origins.len())) by {
                    assert forall|l: int, j: int|
                        0 <= l < after.lines.len() && 0 <= j < after.lines[l].len() implies (
                    #[trigger] after.lines[l][j]) < after.origins.len() by {
                        if l == i as int && j == before.lines[l].len() {
                            match shared_node(crossings, before.table, i as int, t) {
                                Some(shared) => {
                                    let other = crossings[i as int][t];
                                    assert(before.table[other.0 as int][other.1] < before.origins.len());
                                },
                                None => {},
                            }
                        } else {
                            assert(after.lines[l][j] == before.lines[l][j]);
                        }
                    }
                    assert forall|l: int, s: u64|
                        0 <= l < after.table.len() && after.table[l].contains_key(s) implies (
                    #[trigger] after.table[l][s]) < after.origins.len() by {
                        if before.table[l].contains_key(s) && after.table[l][s] == before.table[l][s] {
                            assert(before.table[l][s] < before.origins.len());
                        }
                    }
                }
            }
        }
        i = i + 1;
        proof {
            assert(assigned(params, crossings, n as nat, i as nat, 0) == assigned(
                params,
                crossings,
                n as nat,
                (i - 1) as nat,
                params[i - 1].len(),
            ));
        }
    }
    (factory, lines)
}

} // verus!
