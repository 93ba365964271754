//! Whether every node of a graph can be reached from node zero.

use vstd::prelude::*;
use crate::graph::NetGraph;

verus! {

/// For each node, target and weight of each arc that leaves it.
pub type ArcLists = Seq<Seq<(usize, u64)>>;

/// An arc leads from node `a` to node `b`.
pub open spec fn has_arc(lists: ArcLists, a: int, b: int) -> bool {
    0 <= a < lists.len() && exists|k: int|
        0 <= k < lists[a].len() && (#[trigger] lists[a][k]).0 == b
}

/// `p` is a walk along arcs that starts at a node.
pub open spec fn is_path(lists: ArcLists, p: Seq<int>) -> bool {
    &&& p.len() >= 1
    &&& 0 <= p[0] < lists.len()
    &&& forall|k: int| 0 <= k < p.len() - 1 ==> has_arc(lists, #[trigger] p[k], p[k + 1])
}

/// Some walk along arcs leads from `from` to `to`.
pub open spec fn reachable(lists: ArcLists, from: int, to: int) -> bool {
    exists|p: Seq<int>| is_path(lists, p) && p[0] == from && p.last() == to
}

/// Every node can be reached from node zero. A graph without nodes is
/// connected.
pub open spec fn connected(lists: ArcLists) -> bool {
    forall|v: int| 0 <= v < lists.len() ==> reachable(lists, 0, v)
}

/// Each arc out of `v` leads to a node that is marked or waits on the stack.
pub open spec fn arcs_covered(lists: ArcLists, marked: Seq<bool>, stack: Seq<usize>, v: int, upto: int) -> bool {
    forall|k: int|
        0 <= k < upto ==> marked[(#[trigger] lists[v][k]).0 as int] || stack.contains(lists[v][k].0)
}

/// How many entries are still unmarked.
pub open spec fn unmarked(marked: Seq<bool>) -> nat
    decreases marked.len(),
{
    if marked.len() == 0 {
        0
    } else {
        unmarked(marked.drop_last()) + if marked.last() {
            0nat
        } else {
            1nat
        }
    }
}

proof fn lemma_mark(marked: Seq<bool>, i: int)
    requires
        0 <= i < marked.len(),
        !marked[i],
    ensures
        unmarked(marked.update(i, true)) + 1 == unmarked(marked),
    decreases marked.len(),
{
    let after = marked.update(i, true);
    if i == marked.len() - 1 {
        assert(after.drop_last() =~= marked.drop_last());
    } else {
        assert(after.drop_last() =~= marked.drop_last().update(i, true));
        lemma_mark(marked.drop_last(), i);
    }
}

proof fn lemma_extend(lists: ArcLists, from: int, mid: int, to: int)
    requires
        reachable(lists, from, mid),
        has_arc(lists, mid, to),
    ensures
        reachable(lists, from, to),
{
    let p = choose|p: Seq<int>| is_path(lists, p) && p[0] == from && p.last() == mid;
    let q = p.push(to);
    assert forall|k: int| 0 <= k < q.len() - 1 implies has_arc(lists, #[trigger] q[k], q[k + 1]) by {
        if k < p.len() - 1 {
            assert(has_arc(lists, p[k], p[k + 1]));
        }
    }
    assert(is_path(lists, q) && q[0] == from && q.last() == to);
}

proof fn lemma_start(lists: ArcLists)
    requires
        lists.len() > 0,
    ensures
        reachable(lists, 0, 0),
{
    let p = seq![0int];
    assert(is_path(lists, p) && p[0] == 0 && p.last() == 0);
}

/// A set of marks that holds the start and is closed along arcs holds every
/// node of a walk from the start.
proof fn lemma_closed_holds_walk(lists: ArcLists, marked: Seq<bool>, p: Seq<int>, k: int)
    requires
        marked.len() == lists.len(),
        crate::graph::targets_in_range(lists),
        is_path(lists, p),
        p[0] == 0,
        marked[0],
        forall|v: int|
            0 <= v < lists.len() && marked[v] ==> arcs_covered(
                lists,
                marked,
                Seq::<usize>::empty(),
                v,
                lists[v].len() as int,
            ),
        0 <= k < p.len(),
    ensures
        0 <= p[k] < lists.len(),
        marked[p[k]],
    decreases k,
{
    if k > 0 {
        lemma_closed_holds_walk(lists, marked, p, k - 1);
        let v = p[k - 1];
        assert(has_arc(lists, p[k - 1], p[k - 1 + 1]));
        let m = choose|m: int| 0 <= m < lists[v].len() && (#[trigger] lists[v][m]).0 == p[k];
        assert(arcs_covered(lists, marked, Seq::<usize>::empty(), v, lists[v].len() as int));
        assert(marked[lists[v][m].0 as int] || Seq::<usize>::empty().contains(lists[v][m].0));
    }
}

/// Depth-first search from node zero: for each node, whether it can be
/// reached.
pub fn depth_first_search(g: &NetGraph) -> (visited: Vec<bool>)
    requires
        g.wf(),
    ensures
        visited@.len() == g.lists().len(),
        forall|v: int| 0 <= v < visited@.len() ==> #[trigger] visited@[v] == reachable(g.lists(), 0, v),
{
    let n = g.node_count();
    if n == 0 {
        return Vec::new();
    }
    let ghost lists = g.lists();
    let mut marked: Vec<bool> = Vec::new();
    let mut i: usize = 0;
    while i < n
        invariant
            i <= n,
            marked@.len() == i,
            forall|v: int| 0 <= v < i ==> !marked@[v],
        decreases n - i,
    {
        marked.push(false);
        i = i + 1;
    }
    let mut stack: Vec<usize> = Vec::new();
    stack.push(0);
    proof {
        lemma_start(lists);
        assert(stack@.contains(0usize)) by {
            assert(stack@[0] == 0usize);
        }
    }
    while stack.len() > 0
        invariant
            n == lists.len(),
            n > 0,
            lists == g.lists(),
            g.wf(),
            marked@.len() == n,
            forall|s: int| 0 <= s < stack@.len() ==> stack@[s] < n && reachable(lists, 0, stack@[s] as int),
            forall|v: int| 0 <= v < n && marked@[v] ==> reachable(lists, 0, v),
            forall|v: int|
                0 <= v < n && marked@[v] ==> arcs_covered(
                    lists,
                    marked@,
                    stack@,
                    v,
                    lists[v].len() as int,
                ),
            marked@[0] || stack@.contains(0usize),
        decreases unmarked(marked@), stack@.len(),
    {
        let ghost stack0 = stack@;
        let ghost marked0 = marked@;
        let node = stack.pop().unwrap();
        assert(stack0 =~= stack@.push(node));
        assert forall|x: usize| stack0.contains(x) implies x == node || stack@.contains(x) by {
            let s = choose|s: int| 0 <= s < stack0.len() && stack0[s] == x;
            if s < stack@.len() {
                assert(stack@[s] == x);
            }
        }
        assert(stack0[stack0.len() - 1] == node);
        if !marked[node] {
            marked.set(node, true);
            proof {
                lemma_mark(marked0, node as int);
                assert forall|v: int| 0 <= v < n && marked0[v] implies arcs_covered(
                    lists,
                    marked@,
                    stack@,
                    v,
                    lists[v].len() as int,
                ) by {
                    assert(arcs_covered(lists, marked0, stack0, v, lists[v].len() as int));
                    assert forall|k: int| 0 <= k < lists[v].len() implies marked@[(
                    #[trigger] lists[v][k]).0 as int] || stack@.contains(lists[v][k].0) by {
                        let t = lists[v][k].0;
                        assert(marked0[t as int] || stack0.contains(t));
                    }
                }
            }
            let succ = g.successors(node);
            let mut k: usize = 0;
            while k < succ.len()
                invariant
                    n == lists.len(),
                    lists == g.lists(),
                    g.wf(),
                    node < n,
                    marked@.len() == n,
                    marked@ == marked0.update(node as int, true),
                    reachable(lists, 0, node as int),
                    k <= succ@.len(),
                    succ@.len() == lists[node as int].len(),
                    forall|m: int| 0 <= m < succ@.len() ==> succ@[m] == lists[node as int][m].0,
                    forall|s: int|
                        0 <= s < stack@.len() ==> stack@[s] < n && reachable(
                            lists,
                            0,
                            stack@[s] as int,
                        ),
                    forall|v: int|
                        0 <= v < n && marked0[v] ==> arcs_covered(
                            lists,
                            marked@,
                            stack@,
                            v,
                            lists[v].len() as int,
                        ),
                    arcs_covered(lists, marked@, stack@, node as int, k as int),
                    marked@[0] || stack@.contains(0usize),
                decreases succ@.len() - k,
            {
                let next = succ[k];
                let ghost stack1 = stack@;
                assert(lists[node as int][k as int].0 == next);
                assert(next < n);
                if !marked[next] {
                    stack.push(next);
                    proof {
                        assert(has_arc(lists, node as int, next as int));
                        lemma_extend(lists, 0, node as int, next as int);
                        assert(stack@[stack1.len() as int] == next);
                        assert forall|x: usize| stack1.contains(x) implies stack@.contains(x) by {
                            let s = choose|s: int| 0 <= s < stack1.len() && stack1[s] == x;
                            assert(stack@[s] == x);
                        }
                        assert forall|v: int| 0 <= v < n && marked0[v] implies arcs_covered(
                            lists,
                            marked@,
                            stack@,
                            v,
                            lists[v].len() as int,
                        ) by {
                            assert(arcs_covered(lists, marked@, stack1, v, lists[v].len() as int));
                        }
                        assert(arcs_covered(lists, marked@, stack1, node as int, k as int));
                    }
                }
                k = k + 1;
            }
            proof {
                assert forall|v: int| 0 <= v < n && marked@[v] implies arcs_covered(
                    lists,
                    marked@,
                    stack@,
                    v,
                    lists[v].len() as int,
                ) by {
                    if v != node as int {
                        assert(marked0[v]);
                    }
                }
            }
        } else {
            proof {
                assert forall|v: int| 0 <= v < n && marked@[v] implies arcs_covered(
                    lists,
                    marked@,
                    stack@,
                    v,
                    lists[v].len() as int,
                ) by {
                    assert(arcs_covered(lists, marked0, stack0, v, lists[v].len() as int));
                    assert forall|k: int| 0 <= k < lists[v].len() implies marked@[(
                    #[trigger] lists[v][k]).0 as int] || stack@.contains(lists[v][k].0) by {
                        let t = lists[v][k].0;
                        assert(marked0[t as int] || stack0.contains(t));
                    }
                }
            }
        }
    }
    proof {
        assert(stack@ =~= Seq::<usize>::empty());
        assert(marked@[0]);
        assert forall|v: int| 0 <= v < n implies #[trigger] marked@[v] == reachable(lists, 0, v) by {
            if reachable(lists, 0, v) {
                let p = choose|p: Seq<int>| is_path(lists, p) && p[0] == 0 && p.last() == v;
                lemma_closed_holds_walk(lists, marked@, p, p.len() - 1);
            }
        }
    }
    marked
}

/// Whether every flag is set.
pub fn all_reached(visited: &Vec<bool>) -> (all: bool)
    ensures
        all == (forall|u: int| 0 <= u < visited@.len() ==> visited@[u]),
{
    let n = visited.len();
    let mut all = true;
    let mut v: usize = 0;
    while v < n
        invariant
            v <= n,
            n == visited@.len(),
            all == (forall|u: int| 0 <= u < v ==> visited@[u]),
        decreases n - v,
    {
        if !visited[v] {
            all = false;
        }
        v = v + 1;
    }
    all
}

/// Whether every node can be reached from node zero.
pub fn is_connected(g: &NetGraph) -> (r: bool)
    requires
        g.wf(),
    ensures
        r == connected(g.lists()),
{
    let visited = depth_first_search(g);
    let all = all_reached(&visited);
    proof {
        if all {
            assert forall|v: int| 0 <= v < g.lists().len() implies reachable(g.lists(), 0, v) by {
                assert(visited@[v]);
            }
        } else {
            let u = choose|u: int| 0 <= u < visited@.len() && !visited@[u];
            assert(!reachable(g.lists(), 0, u));
        }
    }
    all
}

} // verus!
