//! Direct travel along a line: an arc from every node of a line to every
//! later node of it, weighted with the cost of the way between them.

use vstd::prelude::*;
use crate::build_graph::Network;
use crate::build_lines::{rows, Lines};
use crate::check_connected_graph::ArcLists;
use crate::float_bits::ZERO;
use crate::graph::{arc_weight, has_arc_to, with_arc, NetGraph};

verus! {

/// Every node of the line is a node of the graph, and an arc leads from each
/// node of the line to the next.
pub open spec fn line_in_graph(lists: ArcLists, line: Seq<usize>) -> bool {
    &&& forall|k: int| 0 <= k < line.len() ==> (#[trigger] line[k]) < lists.len()
    &&& forall|k: int|
        0 <= k < line.len() - 1 ==> has_arc_to(#[trigger] lists[line[k] as int], line[k + 1])
}

/// Every line runs along arcs of the graph.
pub open spec fn lines_in_graph(lists: ArcLists, lines: Seq<Seq<usize>>) -> bool {
    forall|l: int| 0 <= l < lines.len() ==> line_in_graph(lists, #[trigger] lines[l])
}

/// The cost that the next arc is added to: nothing at the start, else the
/// cost so far.
pub open spec fn carried(costs: Seq<u64>, m: int) -> u64 {
    if m == 0 {
        ZERO
    } else {
        costs[m - 1]
    }
}

/// `costs` are the costs of the ways from node `i` of the line to each later
/// node: each is what `sum` gave for the cost up to the node before and the
/// weight of the arc from there.
pub open spec fn sums_along<A: Fn(u64, u64) -> u64>(
    sum: &A,
    lists: ArcLists,
    line: Seq<usize>,
    i: int,
    costs: Seq<u64>,
) -> bool {
    &&& costs.len() == line.len() - 1 - i
    &&& forall|m: int|
        0 <= m < costs.len() ==> call_ensures(
            sum,
            (carried(costs, m), arc_weight(lists[line[i + m] as int], line[i + m + 1])),
            #[trigger] costs[m],
        )
}

/// One row of costs for each node of the line.
pub open spec fn line_sums<A: Fn(u64, u64) -> u64>(
    sum: &A,
    lists: ArcLists,
    line: Seq<usize>,
    costs: Seq<Seq<u64>>,
) -> bool {
    &&& costs.len() == line.len()
    &&& forall|i: int| 0 <= i < line.len() ==> sums_along(sum, lists, line, i, #[trigger] costs[i])
}

/// One table of costs for each line.
pub open spec fn all_sums<A: Fn(u64, u64) -> u64>(
    sum: &A,
    lists: ArcLists,
    lines: Seq<Seq<usize>>,
    costs: Seq<Seq<Seq<u64>>>,
) -> bool {
    &&& costs.len() == lines.len()
    &&& forall|l: int| 0 <= l < lines.len() ==> line_sums(sum, lists, lines[l], #[trigger] costs[l])
}

/// `lists` with the arcs from node `i` of the line to the next `m` nodes.
pub open spec fn fanned(
    lists: ArcLists,
    undirected: bool,
    line: Seq<usize>,
    costs: Seq<u64>,
    i: int,
    m: nat,
) -> ArcLists
    decreases m,
{
    if m == 0 {
        lists
    } else {
        with_arc(
            fanned(lists, undirected, line, costs, i, (m - 1) as nat),
            undirected,
            line[i],
            line[i + m],
            costs[m - 1],
        )
    }
}

/// `lists` with the arcs from each of the first `i` nodes of the line to
/// every later node.
pub open spec fn line_expanded(
    lists: ArcLists,
    undirected: bool,
    line: Seq<usize>,
    costs: Seq<Seq<u64>>,
    i: nat,
) -> ArcLists
    decreases i,
{
    if i == 0 {
        lists
    } else {
        fanned(
            line_expanded(lists, undirected, line, costs, (i - 1) as nat),
            undirected,
            line,
            costs[i - 1],
            i - 1,
            costs[i - 1].len(),
        )
    }
}

/// The arc lists of a graph of `n` nodes with the arcs of the first `l`
/// lines, line by line.
pub open spec fn expanded(
    n: nat,
    undirected: bool,
    lines: Seq<Seq<usize>>,
    costs: Seq<Seq<Seq<u64>>>,
    l: nat,
) -> ArcLists
    decreases l,
{
    if l == 0 {
        Seq::new(n, |i: int| Seq::<(usize, u64)>::empty())
    } else {
        line_expanded(
            expanded(n, undirected, lines, costs, (l - 1) as nat),
            undirected,
            lines[l - 1],
            costs[l - 1],
            lines[l - 1].len(),
        )
    }
}

/// A graph without arcs, of the size and kind of `g`.
pub fn new_graph(g: &NetGraph) -> (out: NetGraph)
    ensures
        out.wf(),
        out.undirected() == g.undirected(),
        out.lists() == Seq::new(g.lists().len(), |i: int| Seq::<(usize, u64)>::empty()),
        out.nodes() == Seq::new(g.lists().len(), |i: int| 0u64),
{
    let nodes = g.node_count();
    if g.is_undirected() {
        NetGraph::new_undirect(nodes)
    } else {
        NetGraph::new_direct(nodes)
    }
}

/// Adds to `output` an arc from every node of the line to every later node
/// of it, with the cost of the way between them in `input`.
pub fn add_line_arcs<A: Fn(u64, u64) -> u64>(input: &NetGraph, output: &mut NetGraph, line: &[usize], sum: &A)
    requires
        old(output).wf(),
        old(output).lists().len() == input.lists().len(),
        line_in_graph(input.lists(), line@),
        forall|a: u64, b: u64| call_requires(sum, (a, b)),
    ensures
        final(output).wf(),
        final(output).lists().len() == old(output).lists().len(),
        final(output).nodes() == old(output).nodes(),
        final(output).undirected() == old(output).undirected(),
        exists|costs: Seq<Seq<u64>>|
            line_sums(sum, input.lists(), line@, costs) && final(output).lists() == line_expanded(
                old(output).lists(),
                old(output).undirected(),
                line@,
                costs,
                line@.len(),
            ),
{
    let ghost start = output.lists();
    let ghost undirected = output.undirected();
    let ghost lists = input.lists();
    let ghost mut costs: Seq<Seq<u64>> = Seq::empty();
    let n = line.len();
    let mut i: usize = 0;
    while i < n
        invariant
            i <= n,
            n == line@.len(),
            lists == input.lists(),
            line_in_graph(lists, line@),
            forall|a: u64, b: u64| call_requires(sum, (a, b)),
            output.wf(),
            output.lists().len() == lists.len(),
            output.nodes() == old(output).nodes(),
            output.undirected() == undirected,
            costs.len() == i,
            forall|s: int| 0 <= s < i ==> sums_along(sum, lists, line@, s, #[trigger] costs[s]),
            output.lists() == line_expanded(start, undirected, line@, costs, i as nat),
        decreases n - i,
    {
        let ghost row_start = output.lists();
        let ghost mut row: Seq<u64> = Seq::empty();
        let mut acc: u64 = ZERO;
        let mut j: usize = i + 1;
        while j < n
            invariant
                i < n,
                i + 1 <= j <= n,
                n == line@.len(),
                lists == input.lists(),
                line_in_graph(lists, line@),
                forall|a: u64, b: u64| call_requires(sum, (a, b)),
                output.wf(),
                output.lists().len() == lists.len(),
                output.nodes() == old(output).nodes(),
                output.undirected() == undirected,
                row.len() == j - i - 1,
                acc == carried(row, j - i - 1),
                forall|m: int|
                    0 <= m < row.len() ==> call_ensures(
                        sum,
                        (carried(row, m), arc_weight(lists[line@[i + m] as int], line@[i + m + 1])),
                        #[trigger] row[m],
                    ),
                output.lists() == fanned(row_start, undirected, line@, row, i as int, (j - i - 1) as nat),
            decreases n - j,
        {
            assert(line@[j - 1] < lists.len());
            assert(has_arc_to(lists[line@[j - 1] as int], line@[j - 1 + 1]));
            assert(line@[i as int] < lists.len());
            assert(line@[j as int] < lists.len());
            let w = input.cost(line[j - 1], line[j]);
            let ghost before_acc = acc;
            let ghost before_row = row;
            acc = sum(acc, w);
            output.add_new_arc(line[i], line[j], acc);
            proof {
                row = row.push(acc);
                let m = j - i - 1;
                assert(carried(row, m) == before_acc);
                assert forall|q: int| 0 <= q < row.len() implies call_ensures(
                    sum,
                    (carried(row, q), arc_weight(lists[line@[i + q] as int], line@[i + q + 1])),
                    #[trigger] row[q],
                ) by {
                    if q < m {
                        assert(row[q] == before_row[q]);
                        assert(carried(row, q) == carried(before_row, q));
                    }
                }
                lemma_fanned_prefix(row_start, undirected, line@, before_row, row, i as int, m as nat);
            }
            j = j + 1;
        }
        proof {
            let before_costs = costs;
            costs = costs.push(row);
            assert(sums_along(sum, lists, line@, i as int, row));
            assert forall|s: int| 0 <= s < i + 1 implies sums_along(
                sum,
                lists,
                line@,
                s,
                #[trigger] costs[s],
            ) by {
                if s < i {
                    assert(costs[s] == before_costs[s]);
                }
            }
            lemma_line_expanded_prefix(start, undirected, line@, before_costs, costs, i as nat);
        }
        i = i + 1;
    }
    proof {
        assert(line_sums(sum, lists, line@, costs));
    }
}

/// The arcs to the next `m` nodes depend on the first `m` costs alone.
proof fn lemma_fanned_prefix(
    lists: ArcLists,
    undirected: bool,
    line: Seq<usize>,
    costs_a: Seq<u64>,
    costs_b: Seq<u64>,
    i: int,
    m: nat,
)
    requires
        m <= costs_a.len(),
        m <= costs_b.len(),
        forall|k: int| 0 <= k < m ==> costs_a[k] == costs_b[k],
    ensures
        fanned(lists, undirected, line, costs_a, i, m) == fanned(lists, undirected, line, costs_b, i, m),
    decreases m,
{
    if m > 0 {
        lemma_fanned_prefix(lists, undirected, line, costs_a, costs_b, i, (m - 1) as nat);
    }
}

/// The arcs from the first `i` nodes depend on the first `i` rows of costs
/// alone.
proof fn lemma_line_expanded_prefix(
    lists: ArcLists,
    undirected: bool,
    line: Seq<usize>,
    costs_a: Seq<Seq<u64>>,
    costs_b: Seq<Seq<u64>>,
    i: nat,
)
    requires
        i <= costs_a.len(),
        i <= costs_b.len(),
        forall|k: int| 0 <= k < i ==> costs_a[k] == costs_b[k],
    ensures
        line_expanded(lists, undirected, line, costs_a, i) == line_expanded(
            lists,
            undirected,
            line,
            costs_b,
            i,
        ),
    decreases i,
{
    if i > 0 {
        lemma_line_expanded_prefix(lists, undirected, line, costs_a, costs_b, (i - 1) as nat);
    }
}

/// The arcs of the first `l` lines depend on the costs of these lines alone.
proof fn lemma_expanded_prefix(
    n: nat,
    undirected: bool,
    lines: Seq<Seq<usize>>,
    costs_a: Seq<Seq<Seq<u64>>>,
    costs_b: Seq<Seq<Seq<u64>>>,
    l: nat,
)
    requires
        l <= costs_a.len(),
        l <= costs_b.len(),
        forall|k: int| 0 <= k < l ==> costs_a[k] == costs_b[k],
    ensures
        expanded(n, undirected, lines, costs_a, l) == expanded(n, undirected, lines, costs_b, l),
    decreases l,
{
    if l > 0 {
        lemma_expanded_prefix(n, undirected, lines, costs_a, costs_b, (l - 1) as nat);
    }
}

/// An arc of weight `w` leads from node `u` to node `v`.
pub open spec fn has_arc_weighing(lists: ArcLists, u: usize, v: usize, w: u64) -> bool {
    u < lists.len() && exists|p: int|
        0 <= p < lists[u as int].len() && (#[trigger] lists[u as int][p]) == (v, w)
}

/// `long` starts with the arcs of `short`.
pub open spec fn extends(short: Seq<(usize, u64)>, long: Seq<(usize, u64)>) -> bool {
    &&& short.len() <= long.len()
    &&& forall|p: int| 0 <= p < short.len() ==> #[trigger] short[p] == long[p]
}

/// `after` has the nodes of `before` and, in each list, the arcs of `before`
/// at the front.
pub open spec fn keeps(before: ArcLists, after: ArcLists) -> bool {
    &&& after.len() == before.len()
    &&& forall|u: int| 0 <= u < before.len() ==> extends(#[trigger] before[u], after[u])
}

proof fn lemma_keeps_arc(before: ArcLists, after: ArcLists, u: usize, v: usize, w: u64)
    requires
        keeps(before, after),
        has_arc_weighing(before, u, v, w),
    ensures
        has_arc_weighing(after, u, v, w),
{
    let p = choose|p: int| 0 <= p < before[u as int].len() && (#[trigger] before[u as int][p]) == (v, w);
    assert(extends(before[u as int], after[u as int]));
    assert(after[u as int][p] == (v, w));
}

proof fn lemma_keeps_chain(a: ArcLists, b: ArcLists, c: ArcLists)
    requires
        keeps(a, b),
        keeps(b, c),
    ensures
        keeps(a, c),
{
    assert forall|u: int| 0 <= u < a.len() implies extends(#[trigger] a[u], c[u]) by {
        assert(extends(a[u], b[u]));
        assert(extends(b[u], c[u]));
        assert forall|p: int| 0 <= p < a[u].len() implies #[trigger] a[u][p] == c[u][p] by {
            assert(a[u][p] == b[u][p]);
            assert(b[u][p] == c[u][p]);
        }
    }
}

proof fn lemma_with_arc_keeps(lists: ArcLists, undirected: bool, src: usize, dst: usize, w: u64)
    requires
        src < lists.len(),
        dst < lists.len(),
    ensures
        keeps(lists, with_arc(lists, undirected, src, dst, w)),
        has_arc_weighing(with_arc(lists, undirected, src, dst, w), src, dst, w),
{
    let forward = lists.update(src as int, lists[src as int].push((dst, w)));
    let after = with_arc(lists, undirected, src, dst, w);
    let at = lists[src as int].len() as int;
    assert(forward[src as int][at] == (dst, w));
    assert(after[src as int][at] == (dst, w));
    assert forall|u: int| 0 <= u < lists.len() implies extends(#[trigger] lists[u], after[u]) by {
        assert forall|p: int| 0 <= p < lists[u].len() implies #[trigger] lists[u][p] == after[u][p] by {
            assert(forward[u][p] == lists[u][p]);
        }
    }
}

/// The nodes from position `i` of the line on are nodes of the graph.
pub open spec fn tail_below(line: Seq<usize>, i: int, n: nat) -> bool {
    forall|k: int| i <= k < line.len() ==> (#[trigger] line[k]) < n
}

proof fn lemma_fanned_keeps(
    lists: ArcLists,
    undirected: bool,
    line: Seq<usize>,
    costs: Seq<u64>,
    i: int,
    m: nat,
)
    requires
        0 <= i,
        i + m < line.len(),
        tail_below(line, i, lists.len()),
    ensures
        keeps(lists, fanned(lists, undirected, line, costs, i, m)),
    decreases m,
{
    if m > 0 {
        let before = fanned(lists, undirected, line, costs, i, (m - 1) as nat);
        lemma_fanned_keeps(lists, undirected, line, costs, i, (m - 1) as nat);
        assert(line[i] < lists.len());
        assert(line[i + m] < lists.len());
        lemma_with_arc_keeps(before, undirected, line[i], line[i + m], costs[m - 1]);
        lemma_keeps_chain(lists, before, fanned(lists, undirected, line, costs, i, m));
    }
}

proof fn lemma_fanned_has(
    lists: ArcLists,
    undirected: bool,
    line: Seq<usize>,
    costs: Seq<u64>,
    i: int,
    m: nat,
    q: nat,
)
    requires
        0 <= i,
        i + m < line.len(),
        1 <= q <= m,
        tail_below(line, i, lists.len()),
    ensures
        has_arc_weighing(
            fanned(lists, undirected, line, costs, i, m),
            line[i],
            line[i + q],
            costs[q - 1],
        ),
    decreases m,
{
    let before = fanned(lists, undirected, line, costs, i, (m - 1) as nat);
    let now = fanned(lists, undirected, line, costs, i, m);
    lemma_fanned_keeps(lists, undirected, line, costs, i, (m - 1) as nat);
    assert(line[i] < lists.len());
    assert(line[i + m] < lists.len());
    lemma_with_arc_keeps(before, undirected, line[i], line[i + m], costs[m - 1]);
    if q < m {
        lemma_fanned_has(lists, undirected, line, costs, i, (m - 1) as nat, q);
        lemma_keeps_arc(before, now, line[i], line[i + q], costs[q - 1]);
    }
}

/// Each row of costs has one entry for each later node of the line.
pub open spec fn one_per_pair(line: Seq<usize>, costs: Seq<Seq<u64>>) -> bool {
    &&& costs.len() == line.len()
    &&& forall|i: int| 0 <= i < line.len() ==> (#[trigger] costs[i]).len() == line.len() - 1 - i
}

proof fn lemma_line_expanded_keeps(
    lists: ArcLists,
    undirected: bool,
    line: Seq<usize>,
    costs: Seq<Seq<u64>>,
    upto: nat,
)
    requires
        upto <= line.len(),
        tail_below(line, 0, lists.len()),
        one_per_pair(line, costs),
    ensures
        keeps(lists, line_expanded(lists, undirected, line, costs, upto)),
    decreases upto,
{
    if upto > 0 {
        let before = line_expanded(lists, undirected, line, costs, (upto - 1) as nat);
        lemma_line_expanded_keeps(lists, undirected, line, costs, (upto - 1) as nat);
        assert(costs[upto - 1].len() == line.len() - 1 - (upto - 1));
        assert(tail_below(line, upto - 1, before.len()));
        lemma_fanned_keeps(before, undirected, line, costs[upto - 1], upto - 1, costs[upto - 1].len());
        lemma_keeps_chain(lists, before, line_expanded(lists, undirected, line, costs, upto));
    }
}

proof fn lemma_line_expanded_has(
    lists: ArcLists,
    undirected: bool,
    line: Seq<usize>,
    costs: Seq<Seq<u64>>,
    upto: nat,
    i: int,
    j: int,
)
    requires
        0 <= i < j < line.len(),
        i < upto <= line.len(),
        tail_below(line, 0, lists.len()),
        one_per_pair(line, costs),
    ensures
        has_arc_weighing(
            line_expanded(lists, undirected, line, costs, upto),
            line[i],
            line[j],
            costs[i][j - i - 1],
        ),
    decreases upto,
{
    let before = line_expanded(lists, undirected, line, costs, (upto - 1) as nat);
    let now = line_expanded(lists, undirected, line, costs, upto);
    lemma_line_expanded_keeps(lists, undirected, line, costs, (upto - 1) as nat);
    assert(costs[upto - 1].len() == line.len() - 1 - (upto - 1));
    assert(tail_below(line, upto - 1, before.len()));
    if i == upto - 1 {
        lemma_fanned_has(
            before,
            undirected,
            line,
            costs[i],
            i,
            costs[i].len(),
            (j - i) as nat,
        );
    } else {
        lemma_line_expanded_has(lists, undirected, line, costs, (upto - 1) as nat, i, j);
        lemma_fanned_keeps(before, undirected, line, costs[upto - 1], upto - 1, costs[upto - 1].len());
        lemma_keeps_arc(before, now, line[i], line[j], costs[i][j - i - 1]);
    }
}

/// Every line has its rows of costs, and all its nodes are nodes of the
/// graph.
pub open spec fn costs_fit(n: nat, lines: Seq<Seq<usize>>, costs: Seq<Seq<Seq<u64>>>) -> bool {
    &&& costs.len() == lines.len()
    &&& forall|l: int|
        0 <= l < lines.len() ==> one_per_pair(#[trigger] lines[l], costs[l]) && tail_below(lines[l], 0, n)
}

proof fn lemma_expanded_keeps(
    n: nat,
    undirected: bool,
    lines: Seq<Seq<usize>>,
    costs: Seq<Seq<Seq<u64>>>,
    from: nat,
    upto: nat,
)
    requires
        from <= upto <= lines.len(),
        costs_fit(n, lines, costs),
    ensures
        expanded(n, undirected, lines, costs, upto).len() == n,
        keeps(expanded(n, undirected, lines, costs, from), expanded(n, undirected, lines, costs, upto)),
    decreases upto,
{
    if upto > 0 {
        let before = expanded(n, undirected, lines, costs, (upto - 1) as nat);
        if from < upto {
            lemma_expanded_keeps(n, undirected, lines, costs, from, (upto - 1) as nat);
        } else {
            lemma_expanded_keeps(n, undirected, lines, costs, (upto - 1) as nat, (upto - 1) as nat);
        }
        assert(one_per_pair(lines[upto - 1], costs[upto - 1]));
        lemma_line_expanded_keeps(
            before,
            undirected,
            lines[upto - 1],
            costs[upto - 1],
            lines[upto - 1].len(),
        );
        if from < upto {
            lemma_keeps_chain(
                expanded(n, undirected, lines, costs, from),
                before,
                expanded(n, undirected, lines, costs, upto),
            );
        }
    }
}

/// After the expansion an arc leads from every node of a line to every later
/// node of it, and its weight is the cost of the way between them: what `sum`
/// gave for the cost of the way to the node before and the weight of the
/// first arc from there. The way to the next node starts from zero.
pub proof fn lemma_direct_path_arc<A: Fn(u64, u64) -> u64>(
    sum: &A,
    lists: ArcLists,
    undirected: bool,
    lines: Seq<Seq<usize>>,
    costs: Seq<Seq<Seq<u64>>>,
    l: int,
    i: int,
    j: int,
)
    requires
        lines_in_graph(lists, lines),
        all_sums(sum, lists, lines, costs),
        0 <= l < lines.len(),
        0 <= i < j < lines[l].len(),
    ensures
        has_arc_weighing(
            expanded(lists.len(), undirected, lines, costs, lines.len()),
            lines[l][i],
            lines[l][j],
            costs[l][i][j - i - 1],
        ),
        call_ensures(
            sum,
            (
                carried(costs[l][i], j - i - 1),
                arc_weight(lists[lines[l][j - 1] as int], lines[l][j]),
            ),
            costs[l][i][j - i - 1],
        ),
{
    let n = lists.len();
    assert(costs_fit(n, lines, costs)) by {
        assert forall|m: int| 0 <= m < lines.len() implies one_per_pair(#[trigger] lines[m], costs[m])
            && tail_below(lines[m], 0, n) by {
            assert(line_in_graph(lists, lines[m]));
            assert(line_sums(sum, lists, lines[m], costs[m]));
            assert forall|s: int| 0 <= s < lines[m].len() implies (#[trigger] costs[m][s]).len()
                == lines[m].len() - 1 - s by {
                assert(sums_along(sum, lists, lines[m], s, costs[m][s]));
            }
        }
    }
    let before = expanded(n, undirected, lines, costs, l as nat);
    let with_line = expanded(n, undirected, lines, costs, (l + 1) as nat);
    lemma_expanded_keeps(n, undirected, lines, costs, l as nat, l as nat);
    lemma_line_expanded_has(before, undirected, lines[l], costs[l], lines[l].len(), i, j);
    lemma_expanded_keeps(n, undirected, lines, costs, (l + 1) as nat, lines.len());
    lemma_keeps_arc(
        with_line,
        expanded(n, undirected, lines, costs, lines.len()),
        lines[l][i],
        lines[l][j],
        costs[l][i][j - i - 1],
    );
    assert(line_sums(sum, lists, lines[l], costs[l]));
    assert(sums_along(sum, lists, lines[l], i, costs[l][i]));
}

/// What `build_all_direct_path_graph` makes of `input` for the costs `costs`.
pub open spec fn direct_paths_of<A: Fn(u64, u64) -> u64>(
    sum: &A,
    input: &NetGraph,
    lines: Seq<Seq<usize>>,
    costs: Seq<Seq<Seq<u64>>>,
    out: &NetGraph,
) -> bool {
    &&& all_sums(sum, input.lists(), lines, costs)
    &&& out.lists() == expanded(input.lists().len(), input.undirected(), lines, costs, lines.len())
}

/// A new graph of the size and kind of `input`, with an arc from every node
/// of every line to every later node of that line.
pub fn build_all_direct_path_graph<A: Fn(u64, u64) -> u64>(input: NetGraph, lines: &Lines, sum: &A) -> (out:
    NetGraph)
    requires
        lines_in_graph(input.lists(), rows(lines@)),
        forall|a: u64, b: u64| call_requires(sum, (a, b)),
    ensures
        out.wf(),
        out.lists().len() == input.lists().len(),
        out.undirected() == input.undirected(),
        out.nodes() == Seq::new(input.lists().len(), |i: int| 0u64),
        exists|costs: Seq<Seq<Seq<u64>>>| direct_paths_of(sum, &input, rows(lines@), costs, &out),
{
    let mut output = new_graph(&input);
    let ghost lists = input.lists();
    let ghost undirected = input.undirected();
    let ghost ls = rows(lines@);
    let ghost mut costs: Seq<Seq<Seq<u64>>> = Seq::empty();
    let mut l: usize = 0;
    while l < lines.len()
        invariant
            l <= lines@.len(),
            lists == input.lists(),
            undirected == input.undirected(),
            ls == rows(lines@),
            lines_in_graph(lists, ls),
            forall|a: u64, b: u64| call_requires(sum, (a, b)),
            output.wf(),
            output.lists().len() == lists.len(),
            output.undirected() == undirected,
            output.nodes() == Seq::new(lists.len(), |i: int| 0u64),
            costs.len() == l,
            forall|k: int| 0 <= k < l ==> line_sums(sum, lists, ls[k], #[trigger] costs[k]),
            output.lists() == expanded(lists.len(), undirected, ls, costs, l as nat),
        decreases lines@.len() - l,
    {
        let ghost before = output.lists();
        assert(line_in_graph(lists, ls[l as int]));
        assert(ls[l as int] == lines@[l as int]@);
        add_line_arcs(&input, &mut output, lines[l].as_slice(), sum);
        proof {
            let row = choose|row: Seq<Seq<u64>>|
                line_sums(sum, lists, ls[l as int], row) && output.lists() == line_expanded(
                    before,
                    undirected,
                    ls[l as int],
                    row,
                    ls[l as int].len(),
                );
            let before_costs = costs;
            costs = costs.push(row);
            assert forall|k: int| 0 <= k < l + 1 implies line_sums(
                sum,
                lists,
                ls[k],
                #[trigger] costs[k],
            ) by {
                if k < l {
                    assert(costs[k] == before_costs[k]);
                }
            }
            lemma_expanded_prefix(lists.len(), undirected, ls, before_costs, costs, l as nat);
        }
        l = l + 1;
    }
    proof {
        assert(direct_paths_of(sum, &input, ls, costs, &output));
    }
    output
}

/// Replaces the network's graph by the graph of direct travel along its
/// lines. Lines and points stay; node weights start again at zero.
pub fn all_direct_path<A: Fn(u64, u64) -> u64>(net: Network, sum: &A) -> (out: Network)
    requires
        lines_in_graph(net.graph.lists(), rows(net.lines@)),
        forall|a: u64, b: u64| call_requires(sum, (a, b)),
    ensures
        out.lines == net.lines,
        out.points == net.points,
        out.graph.wf(),
        out.graph.lists().len() == net.graph.lists().len(),
        out.graph.undirected() == net.graph.undirected(),
        out.graph.nodes() == Seq::new(net.graph.lists().len(), |i: int| 0u64),
        exists|costs: Seq<Seq<Seq<u64>>>|
            direct_paths_of(sum, &net.graph, rows(net.lines@), costs, &out.graph),
{
    let Network { lines, points, graph } = net;
    let graph = build_all_direct_path_graph(graph, &lines, sum);
    Network { lines, points, graph }
}

} // verus!
