//! Waiting times at the stations: every node's weight drawn anew from one
//! distribution.

use vstd::prelude::*;
use crate::build_graph::Network;
use crate::graph::NetGraph;

verus! {

/// Why no distribution can be made from a configuration.
#[derive(Clone, Copy, Debug, PartialEq, Eq, Structural)]
pub enum WaitTimeError {
    /// The mean is not positive.
    MeanTooSmall,
    /// The dispersion is negative or not finite.
    BadVariance,
}

/// Mean and coefficient of variation of the waiting time, as bit patterns.
pub struct StationWaitTimeConfig {
    pub mean: u64,
    pub variance: u64,
}

impl StationWaitTimeConfig {
    /// The sampler that `lognormal` makes for this configuration, or its
    /// reason for making none.
    pub fn new_lognormal<W: Fn() -> u64, L: Fn(u64, u64) -> Result<W, WaitTimeError>>(
        &self,
        lognormal: &L,
    ) -> (r: Result<W, WaitTimeError>)
        requires
            call_requires(lognormal, (self.mean, self.variance)),
        ensures
            call_ensures(lognormal, (self.mean, self.variance), r),
    {
        lognormal(self.mean, self.variance)
    }
}

/// What `apply_wait_times` does to a graph: nothing where no distribution can
/// be made, and else it gives every node a weight drawn from the
/// distribution and leaves the arcs alone.
pub open spec fn wait_times_applied<W: Fn() -> u64, L: Fn(u64, u64) -> Result<W, WaitTimeError>>(
    conf: &StationWaitTimeConfig,
    lognormal: &L,
    before: &NetGraph,
    after: &NetGraph,
    r: Result<(), WaitTimeError>,
) -> bool {
    &&& after.lists() == before.lists()
    &&& after.undirected() == before.undirected()
    &&& match r {
        Ok(_) => exists|distr: W| #[trigger]
            call_ensures(lognormal, (conf.mean, conf.variance), Ok(distr)) && drawn_from(
                &distr,
                after.nodes(),
            ) && after.nodes().len() == before.nodes().len(),
        Err(e) => call_ensures(lognormal, (conf.mean, conf.variance), Err::<W, WaitTimeError>(e))
            && after.nodes() == before.nodes(),
    }
}

/// Every weight is a draw from `distr`.
pub open spec fn drawn_from<W: Fn() -> u64>(distr: &W, weights: Seq<u64>) -> bool {
    forall|i: int| 0 <= i < weights.len() ==> call_ensures(distr, (), #[trigger] weights[i])
}

/// Every sampler that `lognormal` makes can be asked for a draw.
pub open spec fn samplers_callable<W: Fn() -> u64, L: Fn(u64, u64) -> Result<W, WaitTimeError>>(
    lognormal: &L,
) -> bool {
    &&& forall|mean: u64, cv: u64| call_requires(lognormal, (mean, cv))
    &&& forall|mean: u64, cv: u64, distr: W| #[trigger]
        call_ensures(lognormal, (mean, cv), Ok(distr)) ==> call_requires(distr, ())
}

/// Gives every node of the graph a weight drawn from the configured
/// distribution.
pub fn apply_wait_times<W: Fn() -> u64, L: Fn(u64, u64) -> Result<W, WaitTimeError>>(
    graph: &mut NetGraph,
    conf: &StationWaitTimeConfig,
    lognormal: &L,
) -> (r: Result<(), WaitTimeError>)
    requires
        samplers_callable(lognormal),
    ensures
        wait_times_applied(conf, lognormal, old(graph), final(graph), r),
        old(graph).wf() ==> final(graph).wf(),
{
    match conf.new_lognormal(lognormal) {
        Ok(distr) => {
            let n = graph.node_count();
            let mut weights: Vec<u64> = Vec::new();
            let mut i: usize = 0;
            while i < n
                invariant
                    i <= n,
                    call_requires(distr, ()),
                    weights@.len() == i,
                    forall|k: int| 0 <= k < i ==> call_ensures(distr, (), #[trigger] weights@[k]),
                decreases n - i,
            {
                weights.push(distr());
                i = i + 1;
            }
            graph.set_node_weights(&weights);
            proof {
                assert(drawn_from(&distr, graph.nodes()));
                assert(call_ensures(lognormal, (conf.mean, conf.variance), Ok(distr)));
            }
            Ok(())
        },
        Err(e) => Err(e),
    }
}

/// Gives every node of the network a weight drawn from the configured
/// distribution; lines, points and arcs stay as they are. Fails before any
/// draw where the configuration allows no distribution.
pub fn add_wait_time<W: Fn() -> u64, L: Fn(u64, u64) -> Result<W, WaitTimeError>>(
    net: Network,
    conf: &StationWaitTimeConfig,
    lognormal: &L,
) -> (r: Result<Network, WaitTimeError>)
    requires
        samplers_callable(lognormal),
    ensures
        match r {
            Ok(out) => {
                &&& out.lines == net.lines
                &&& out.points == net.points
                &&& wait_times_applied(conf, lognormal, &net.graph, &out.graph, Ok(()))
                &&& net.graph.wf() ==> out.graph.wf()
            },
            Err(e) => call_ensures(lognormal, (conf.mean, conf.variance), Err::<W, WaitTimeError>(e)),
        },
{
    let mut net = net;
    match apply_wait_times(&mut net.graph, conf, lognormal) {
        Ok(_) => Ok(net),
        Err(e) => Err(e),
    }
}

} // verus!
