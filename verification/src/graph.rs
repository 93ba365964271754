//! The network's graph: an adjacency-list graph of the `simplegraph` crate whose
//! node and arc weights are bit patterns of reals.

use vstd::prelude::*;

verus! {

/// A weighted graph on nodes numbered from zero, kept as one list of outgoing
/// arcs per node.
#[verifier::external_body]
pub struct NetGraph {
    inner: simplegraph::AdjList<u64>,
}

/// The outgoing arcs of every node, each as its target and its weight, in the
/// order in which they were added.
pub uninterp spec fn graph_lists(g: &NetGraph) -> Seq<Seq<(usize, u64)>>;

/// The weight of every node.
pub uninterp spec fn graph_nodes(g: &NetGraph) -> Seq<u64>;

/// Whether the graph was made undirected.
pub uninterp spec fn graph_undirected(g: &NetGraph) -> bool;

/// The arc lists after one arc from `src` to `dst` has been added: the arc is
/// appended to the list of `src`, and in an undirected graph its mirror image
/// is then appended to the list of `dst`.
pub open spec fn with_arc(
    lists: Seq<Seq<(usize, u64)>>,
    undirected: bool,
    src: usize,
    dst: usize,
    w: u64,
) -> Seq<Seq<(usize, u64)>> {
    let forward = lists.update(src as int, lists[src as int].push((dst, w)));
    if undirected {
        forward.update(dst as int, forward[dst as int].push((src, w)))
    } else {
        forward
    }
}

/// Every arc ends at a node of the graph.
pub open spec fn targets_in_range(lists: Seq<Seq<(usize, u64)>>) -> bool {
    forall|i: int, k: int|
        0 <= i < lists.len() && 0 <= k < lists[i].len() ==> (#[trigger] lists[i][k]).0
            < lists.len()
}

/// Whether `list` holds an arc to `dst`.
pub open spec fn has_arc_to(list: Seq<(usize, u64)>, dst: usize) -> bool {
    exists|k: int| 0 <= k < list.len() && (#[trigger] list[k]).0 == dst
}

/// Whether position `k` holds the first arc of `list` that leads to `dst`.
pub open spec fn is_first_arc_to(list: Seq<(usize, u64)>, dst: usize, k: int) -> bool {
    &&& 0 <= k < list.len()
    &&& list[k].0 == dst
    &&& forall|m: int| 0 <= m < k ==> (#[trigger] list[m]).0 != dst
}

/// Whether `w` is the weight of the first arc of `list` that leads to `dst`.
pub open spec fn is_first_weight_to(list: Seq<(usize, u64)>, dst: usize, w: u64) -> bool {
    exists|k: int| is_first_arc_to(list, dst, k) && w == (#[trigger] list[k]).1
}

/// The weight of the first arc of `list` that leads to `dst`.
pub open spec fn arc_weight(list: Seq<(usize, u64)>, dst: usize) -> u64 {
    list[choose|k: int| is_first_arc_to(list, dst, k)].1
}

/// The first arc to a node is one arc, so its weight is one weight.
pub proof fn lemma_first_weight(list: Seq<(usize, u64)>, dst: usize, w: u64)
    requires
        is_first_weight_to(list, dst, w),
    ensures
        w == arc_weight(list, dst),
{
    let k = choose|k: int| is_first_arc_to(list, dst, k) && w == (#[trigger] list[k]).1;
    let c = choose|c: int| is_first_arc_to(list, dst, c);
    assert(is_first_arc_to(list, dst, k));
    if k < c {
        assert(list[k].0 != dst);
    }
    if c < k {
        assert(list[c].0 != dst);
    }
}

/// The arcs of the first `n` nodes as triples of source, target and weight,
/// node by node.
pub open spec fn flat_arcs(lists: Seq<Seq<(usize, u64)>>, n: nat) -> Seq<(usize, usize, u64)>
    decreases n,
{
    if n == 0 {
        Seq::empty()
    } else {
        flat_arcs(lists, (n - 1) as nat) + Seq::new(
            lists[n - 1].len(),
            |k: int| ((n - 1) as usize, lists[n - 1][k].0, lists[n - 1][k].1),
        )
    }
}

/// Calls `AdjList::new_direct`: a directed graph of `node_count` nodes of
/// weight zero, without arcs.
#[verifier::external_body]
fn raw_new_direct(node_count: usize) -> (g: NetGraph)
    ensures
        graph_lists(&g) == Seq::new(node_count as nat, |i: int| Seq::<(usize, u64)>::empty()),
        graph_nodes(&g) == Seq::new(node_count as nat, |i: int| 0u64),
        !graph_undirected(&g),
{
    NetGraph { inner: simplegraph::AdjList::new_direct(node_count) }
}

/// Calls `AdjList::new_undirect`: an undirected graph of `node_count` nodes of
/// weight zero, without arcs.
#[verifier::external_body]
fn raw_new_undirect(node_count: usize) -> (g: NetGraph)
    ensures
        graph_lists(&g) == Seq::new(node_count as nat, |i: int| Seq::<(usize, u64)>::empty()),
        graph_nodes(&g) == Seq::new(node_count as nat, |i: int| 0u64),
        graph_undirected(&g),
{
    NetGraph { inner: simplegraph::AdjList::new_undirect(node_count) }
}

/// Calls `GetGraphType::graph_type`, which hands back the kind the graph was
/// made with.
#[verifier::external_body]
fn raw_is_undirected(g: &NetGraph) -> (r: bool)
    ensures
        r == graph_undirected(g),
{
    match simplegraph::GetGraphType::graph_type(&g.inner) {
        simplegraph::GraphType::Undirect => true,
        simplegraph::GraphType::Direct => false,
    }
}

/// Calls `GraphVisitor::node_count`. The crate keeps one weight and one arc
/// list per node, both made when the graph is made and never resized.
#[verifier::external_body]
fn raw_node_count(g: &NetGraph) -> (n: usize)
    ensures
        n == graph_lists(g).len(),
        n == graph_nodes(g).len(),
{
    simplegraph::GraphVisitor::node_count(&&g.inner)
}

/// Calls `Graph::add_new_arc`, which appends to the list of `src` and, in an
/// undirected graph, to that of `dst` as well. It indexes both lists
/// unchecked, so both ends must be nodes.
#[verifier::external_body]
fn raw_add_new_arc(g: &mut NetGraph, src: usize, dst: usize, w: u64)
    requires
        src < graph_lists(old(g)).len(),
        dst < graph_lists(old(g)).len(),
    ensures
        graph_lists(final(g)) == with_arc(
            graph_lists(old(g)),
            graph_undirected(old(g)),
            src,
            dst,
            w,
        ),
        graph_nodes(final(g)) == graph_nodes(old(g)),
        graph_undirected(final(g)) == graph_undirected(old(g)),
{
    simplegraph::Graph::add_new_arc(&mut g.inner, src, dst, w)
}

/// Calls `AdjList::successor_iterator` and collects target and weight of each
/// arc that leaves `node`, in list order.
#[verifier::external_body]
fn raw_out_arcs(g: &NetGraph, node: usize) -> (arcs: Vec<(usize, u64)>)
    requires
        node < graph_lists(g).len(),
    ensures
        arcs@ == graph_lists(g)[node as int],
{
    g.inner.successor_iterator(node).map(|(_, dst, w)| (dst, w)).collect()
}

/// Calls `ArcCost::cost`, which hands back the weight of the first arc in the
/// list of `src` that leads to `dst`, and panics where there is none.
#[verifier::external_body]
fn raw_cost(g: &NetGraph, src: usize, dst: usize) -> (w: u64)
    requires
        src < graph_lists(g).len(),
        has_arc_to(graph_lists(g)[src as int], dst),
    ensures
        is_first_weight_to(graph_lists(g)[src as int], dst, w),
{
    simplegraph::path_cost::ArcCost::cost(&&g.inner, src, dst)
}

/// Calls `AdjList::node_iterator` and collects the weights, node by node.
#[verifier::external_body]
fn raw_node_weights(g: &NetGraph) -> (weights: Vec<u64>)
    ensures
        weights@ == graph_nodes(g),
{
    g.inner.node_iterator().map(|(_, w)| w).collect()
}

/// Calls `Graph::update_all_nodes_weight`, which replaces the weight of node
/// `i` by what the callback gives for `i`; the callback reads `weights[i]`.
#[verifier::external_body]
fn raw_set_node_weights(g: &mut NetGraph, weights: &Vec<u64>)
    requires
        weights@.len() == graph_nodes(old(g)).len(),
    ensures
        graph_nodes(final(g)) == weights@,
        graph_lists(final(g)) == graph_lists(old(g)),
        graph_undirected(final(g)) == graph_undirected(old(g)),
{
    simplegraph::Graph::update_all_nodes_weight(&mut g.inner, |i, _| weights[i])
}

impl NetGraph {
    /// The outgoing arcs of every node.
    pub open spec fn lists(&self) -> Seq<Seq<(usize, u64)>> {
        graph_lists(self)
    }

    /// The weight of every node.
    pub open spec fn nodes(&self) -> Seq<u64> {
        graph_nodes(self)
    }

    /// Whether every arc has its mirror image.
    pub open spec fn undirected(&self) -> bool {
        graph_undirected(self)
    }

    /// One weight per arc list, and every arc ends at a node.
    pub open spec fn wf(&self) -> bool {
        &&& self.nodes().len() == self.lists().len()
        &&& targets_in_range(self.lists())
    }

    /// A directed graph of `node_count` nodes of weight zero, without arcs.
    pub fn new_direct(node_count: usize) -> (g: Self)
        ensures
            g.wf(),
            !g.undirected(),
            g.lists() == Seq::new(node_count as nat, |i: int| Seq::<(usize, u64)>::empty()),
            g.nodes() == Seq::new(node_count as nat, |i: int| 0u64),
    {
        raw_new_direct(node_count)
    }

    /// An undirected graph of `node_count` nodes of weight zero, without
    /// arcs.
    pub fn new_undirect(node_count: usize) -> (g: Self)
        ensures
            g.wf(),
            g.undirected(),
            g.lists() == Seq::new(node_count as nat, |i: int| Seq::<(usize, u64)>::empty()),
            g.nodes() == Seq::new(node_count as nat, |i: int| 0u64),
    {
        raw_new_undirect(node_count)
    }

    /// Whether the graph was made undirected.
    pub fn is_undirected(&self) -> (r: bool)
        ensures
            r == self.undirected(),
    {
        raw_is_undirected(self)
    }

    /// The number of nodes.
    pub fn node_count(&self) -> (n: usize)
        ensures
            n == self.lists().len(),
            n == self.nodes().len(),
    {
        raw_node_count(self)
    }

    /// Adds an arc from `src` to `dst`, and its mirror image where the graph
    /// is undirected.
    pub fn add_new_arc(&mut self, src: usize, dst: usize, w: u64)
        requires
            src < old(self).lists().len(),
            dst < old(self).lists().len(),
        ensures
            final(self).lists() == with_arc(
                old(self).lists(),
                old(self).undirected(),
                src,
                dst,
                w,
            ),
            final(self).lists().len() == old(self).lists().len(),
            final(self).nodes() == old(self).nodes(),
            final(self).undirected() == old(self).undirected(),
            old(self).wf() ==> final(self).wf(),
    {
        raw_add_new_arc(self, src, dst, w);
        proof {
            lemma_with_arc_in_range(old(self).lists(), old(self).undirected(), src, dst, w);
        }
    }

    /// Adds an arc of weight zero.
    pub fn add_new_default_arc(&mut self, src: usize, dst: usize)
        requires
            src < old(self).lists().len(),
            dst < old(self).lists().len(),
        ensures
            final(self).lists() == with_arc(
                old(self).lists(),
                old(self).undirected(),
                src,
                dst,
                0,
            ),
            final(self).lists().len() == old(self).lists().len(),
            final(self).nodes() == old(self).nodes(),
            final(self).undirected() == old(self).undirected(),
            old(self).wf() ==> final(self).wf(),
    {
        self.add_new_arc(src, dst, 0)
    }

    /// Target and weight of each arc that leaves `node`.
    pub fn out_arcs(&self, node: usize) -> (arcs: Vec<(usize, u64)>)
        requires
            node < self.lists().len(),
        ensures
            arcs@ == self.lists()[node as int],
    {
        raw_out_arcs(self, node)
    }

    /// The nodes that an arc from `node` leads to, one entry per arc.
    pub fn successors(&self, node: usize) -> (succ: Vec<usize>)
        requires
            node < self.lists().len(),
        ensures
            succ@.len() == self.lists()[node as int].len(),
            forall|k: int| 0 <= k < succ@.len() ==> succ@[k] == self.lists()[node as int][k].0,
    {
        let arcs = raw_out_arcs(self, node);
        let mut succ: Vec<usize> = Vec::new();
        let mut k: usize = 0;
        while k < arcs.len()
            invariant
                k <= arcs@.len(),
                succ@.len() == k,
                forall|m: int| 0 <= m < k ==> succ@[m] == arcs@[m].0,
            decreases arcs@.len() - k,
        {
            succ.push(arcs[k].0);
            k = k + 1;
        }
        succ
    }

    /// Every arc as source, target and weight, node by node.
    pub fn arcs(&self) -> (all: Vec<(usize, usize, u64)>)
        ensures
            all@ == flat_arcs(self.lists(), self.lists().len()),
    {
        let n = raw_node_count(self);
        let mut all: Vec<(usize, usize, u64)> = Vec::new();
        let mut i: usize = 0;
        while i < n
            invariant
                n == self.lists().len(),
                i <= n,
                all@ == flat_arcs(self.lists(), i as nat),
            decreases n - i,
        {
            let arcs = raw_out_arcs(self, i);
            let ghost before = all@;
            let mut k: usize = 0;
            while k < arcs.len()
                invariant
                    k <= arcs@.len(),
                    i < n,
                    arcs@ == self.lists()[i as int],
                    all@ == before + Seq::new(
                        k as nat,
                        |m: int| (i, self.lists()[i as int][m].0, self.lists()[i as int][m].1),
                    ),
                decreases arcs@.len() - k,
            {
                all.push((i, arcs[k].0, arcs[k].1));
                k = k + 1;
                assert(all@ =~= before + Seq::new(
                    k as nat,
                    |m: int| (i, self.lists()[i as int][m].0, self.lists()[i as int][m].1),
                ));
            }
            i = i + 1;
        }
        all
    }

    /// The weight of the first arc from `src` to `dst`.
    pub fn cost(&self, src: usize, dst: usize) -> (w: u64)
        requires
            src < self.lists().len(),
            has_arc_to(self.lists()[src as int], dst),
        ensures
            w == arc_weight(self.lists()[src as int], dst),
    {
        let w = raw_cost(self, src, dst);
        proof {
            lemma_first_weight(self.lists()[src as int], dst, w);
        }
        w
    }

    /// The weight of every node, node by node.
    pub fn node_weights(&self) -> (weights: Vec<u64>)
        ensures
            weights@ == self.nodes(),
    {
        raw_node_weights(self)
    }

    /// Replaces the weight of every node; arcs stay as they are.
    pub fn set_node_weights(&mut self, weights: &Vec<u64>)
        requires
            weights@.len() == old(self).nodes().len(),
        ensures
            final(self).nodes() == weights@,
            final(self).lists() == old(self).lists(),
            final(self).undirected() == old(self).undirected(),
            old(self).wf() ==> final(self).wf(),
    {
        raw_set_node_weights(self, weights)
    }
}

/// Adding an arc between two nodes keeps the number of lists and keeps every
/// target in range.
pub proof fn lemma_with_arc_in_range(
    lists: Seq<Seq<(usize, u64)>>,
    undirected: bool,
    src: usize,
    dst: usize,
    w: u64,
)
    requires
        src < lists.len(),
        dst < lists.len(),
    ensures
        with_arc(lists, undirected, src, dst, w).len() == lists.len(),
        targets_in_range(lists) ==> targets_in_range(with_arc(lists, undirected, src, dst, w)),
{
    let forward = lists.update(src as int, lists[src as int].push((dst, w)));
    let after = with_arc(lists, undirected, src, dst, w);
    if targets_in_range(lists) {
        assert forall|i: int, k: int| 0 <= i < forward.len() && 0 <= k < forward[i].len() implies (
        #[trigger] forward[i][k]).0 < forward.len() by {
            if i == src as int && k == lists[i].len() {
            } else {
                assert(forward[i][k] == lists[i][k]);
            }
        }
        assert forall|i: int, k: int| 0 <= i < after.len() && 0 <= k < after[i].len() implies (
        #[trigger] after[i][k]).0 < after.len() by {
            if undirected && i == dst as int && k == forward[i].len() {
            } else {
                assert(after[i][k] == forward[i][k]);
            }
        }
    }
}

} // verus!
