//! Building a network from random curves, with a bounded number of trials.

use vstd::prelude::*;
use crate::bezier_point_factory::{always_accepts, BezierPointFactory, BezierPoints, FactoryConfig};
use crate::build_graph::{build_network as assemble_network, network_of, Network};
use crate::build_lines::{lemma_assigned_lines, paired, rows};
use crate::check_connected_graph::connected;
use crate::intersections::{
    cross_pairs,
    finished,
    found_by,
    make_intersection_lists,
    none_empty_through,
    recorded,
    with_ends,
    Intersections,
};
use crate::make_curves::{curves_made, make_curves};
use crate::node_locations::{counts_suffice, generate_node_lists, node_lists_of};
use crate::point_factory::Pt;

verus! {

/// The default budget of trials.
pub const DEFAULT_TRIALS: usize = 100;

/// The default number of networks to build.
pub const DEFAULT_COUNT: usize = 1;

/// The number of trials where none is configured.
pub fn get_default_trials() -> (r: usize)
    ensures
        r == 100,
{
    DEFAULT_TRIALS
}

/// The number of networks to build where none is configured.
pub fn get_default_count() -> (r: usize)
    ensures
        r == 1,
{
    DEFAULT_COUNT
}

/// What a run is configured with. Lengths are bit patterns; `lines` holds
/// the number of nodes that each line shall have.
pub struct Configuration {
    pub width: u64,
    pub height: u64,
    pub origin_distance: u64,
    pub points_distance: u64,
    pub lines: Vec<usize>,
    pub trials: usize,
    pub count: usize,
}

impl Configuration {
    /// The part of the configuration that the point factory needs.
    pub fn make_factory_config(&self) -> (c: FactoryConfig)
        ensures
            c.center_radius == self.origin_distance,
            c.point_radius == self.points_distance,
            c.size_x == self.width,
            c.size_y == self.height,
    {
        FactoryConfig {
            center_radius: self.origin_distance,
            point_radius: self.points_distance,
            size_x: self.width,
            size_y: self.height,
        }
    }
}

/// Counts down the trials that are left.
pub struct TrialCounter {
    count: usize,
}

impl TrialCounter {
    /// The number of trials that are left.
    pub closed spec fn remaining(&self) -> nat {
        self.count as nat
    }

    /// A counter with a budget of `count` trials.
    pub fn new(count: usize) -> (c: Self)
        ensures
            c.remaining() == count,
    {
        Self { count }
    }

    /// Takes one trial from the budget; false where none is left.
    pub fn run(&mut self) -> (r: bool)
        ensures
            r == (old(self).remaining() > 0),
            r ==> final(self).remaining() == old(self).remaining() - 1,
            !r ==> final(self).remaining() == 0,
    {
        if self.count > 0 {
            self.count -= 1;
            true
        } else {
            false
        }
    }
}

/// The budget of trials was used up without a connected network.
#[derive(Clone, Copy, Debug, PartialEq, Eq, Structural)]
pub struct TrialsExhausted {
    /// How many trials were made.
    pub trials: usize,
}

/// The numeric work that the builder leaves to its caller. All reals go in
/// and out as bit patterns.
pub struct Kernels<U, A, M, I, S, E, D> {
    /// A random number between two bounds.
    pub uniform: U,
    /// Whether a candidate point may stand at its distance from another
    /// point, for a radius.
    pub accept: A,
    /// The curve with the given four points.
    pub make_curve: M,
    /// The parameters at which two curves cross, as pairs: first that of the
    /// first curve.
    pub intersect: I,
    /// The parameters to put between two neighbouring crossing parameters of
    /// a curve that still lacks the given number of nodes.
    pub subdivide: S,
    /// The point of a curve at a parameter.
    pub eval: E,
    /// The distance of two points.
    pub dist: D,
}

/// Every kernel can be called on every input.
pub open spec fn callable<
    C,
    U: Fn(u64, u64) -> u64,
    A: Fn(Pt, Pt, u64) -> bool,
    M: Fn(BezierPoints) -> C,
    I: Fn(&C, &C) -> Vec<(u64, u64)>,
    S: Fn(u64, u64, usize) -> Vec<u64>,
    E: Fn(&C, u64) -> Pt,
    D: Fn(Pt, Pt) -> u64,
>(k: &Kernels<U, A, M, I, S, E, D>) -> bool {
    &&& forall|a: u64, b: u64| call_requires(k.uniform, (a, b))
    &&& forall|p: Pt, q: Pt, radius: u64| call_requires(k.accept, (p, q, radius))
    &&& forall|b: BezierPoints| call_requires(k.make_curve, (b,))
    &&& forall|a: &C, b: &C| call_requires(k.intersect, (a, b))
    &&& forall|a: u64, b: u64, rem: usize| call_requires(k.subdivide, (a, b, rem))
    &&& forall|c: &C, t: u64| call_requires(k.eval, (c, t))
    &&& forall|a: Pt, b: Pt| call_requires(k.dist, (a, b))
}

/// One trial and what came of it: curves from the end points placed since
/// `first`, the crossings `found` for each pair of them, and then
///  - nothing, where a curve crosses no other, or where a curve has more
///    crossing parameters between its ends than the line shall have nodes;
///  - else the network assembled from the node parameters `nodes`, with the
///    points `pts` and the segment weights `weights`, where that network is
///    connected, and nothing where it is not.
pub open spec fn attempt_trace<
    C,
    U: Fn(u64, u64) -> u64,
    A: Fn(Pt, Pt, u64) -> bool,
    M: Fn(BezierPoints) -> C,
    I: Fn(&C, &C) -> Vec<(u64, u64)>,
    S: Fn(u64, u64, usize) -> Vec<u64>,
    E: Fn(&C, u64) -> Pt,
    D: Fn(Pt, Pt) -> u64,
>(
    factory: &BezierPointFactory,
    first: int,
    k: &Kernels<U, A, M, I, S, E, D>,
    lines: Seq<usize>,
    curves: Seq<C>,
    found: Seq<Vec<(u64, u64)>>,
    pieces: Seq<Seq<Vec<u64>>>,
    nodes: Seq<Seq<u64>>,
    pts: Seq<Pt>,
    weights: Seq<Seq<u64>>,
    r: Option<Network>,
) -> bool {
    let n = curves.len();
    let rec = recorded(n, cross_pairs(n), rows(found), found.len());
    let direct = Seq::new(n, |l: int| with_ends(rec.direct[l]));
    &&& n == lines.len()
    &&& curves_made(factory, &k.uniform, &k.accept, &k.make_curve, first, curves)
    &&& found_by(&k.intersect, curves, cross_pairs(n), found)
    &&& if !none_empty_through(rec.direct, n - 1) {
        r is None
    } else if !counts_suffice(direct, lines, n as int) {
        r is None
    } else {
        &&& node_lists_of(&k.subdivide, direct, lines, pieces, nodes)
        &&& network_of(curves, nodes, rec.inverse, &k.eval, &k.dist, pts, weights, r)
    }
}

/// Some trial with the factory in the given state came out as `r`.
pub open spec fn attempted<
    C,
    U: Fn(u64, u64) -> u64,
    A: Fn(Pt, Pt, u64) -> bool,
    M: Fn(BezierPoints) -> C,
    I: Fn(&C, &C) -> Vec<(u64, u64)>,
    S: Fn(u64, u64, usize) -> Vec<u64>,
    E: Fn(&C, u64) -> Pt,
    D: Fn(Pt, Pt) -> u64,
>(
    factory: &BezierPointFactory,
    first: int,
    k: &Kernels<U, A, M, I, S, E, D>,
    lines: Seq<usize>,
    r: Option<Network>,
) -> bool {
    exists|
        curves: Seq<C>,
        found: Seq<Vec<(u64, u64)>>,
        pieces: Seq<Seq<Vec<u64>>>,
        nodes: Seq<Seq<u64>>,
        pts: Seq<Pt>,
        weights: Seq<Seq<u64>>,
    | #[trigger]
        attempt_trace(factory, first, k, lines, curves, found, pieces, nodes, pts, weights, r)
}

/// A copy of the counts.
fn copy_counts(lines: &[usize]) -> (counts: Vec<usize>)
    ensures
        counts@ == lines@,
{
    let mut counts: Vec<usize> = Vec::new();
    let mut i: usize = 0;
    while i < lines.len()
        invariant
            i <= lines@.len(),
            counts@ == lines@.take(i as int),
        decreases lines@.len() - i,
    {
        counts.push(lines[i]);
        i = i + 1;
        assert(counts@ =~= lines@.take(i as int));
    }
    assert(lines@.take(lines@.len() as int) =~= lines@);
    counts
}

/// One trial: a curve for each line, their crossings, the node parameters
/// of each line, and the network assembled from them. Nothing where an end
/// point could not be placed, where a curve crosses no other, where a curve
/// has more crossings than its line shall have nodes, or where the network
/// is not connected.
pub fn try_build_network<
    C,
    U: Fn(u64, u64) -> u64,
    A: Fn(Pt, Pt, u64) -> bool,
    M: Fn(BezierPoints) -> C,
    I: Fn(&C, &C) -> Vec<(u64, u64)>,
    S: Fn(u64, u64, usize) -> Vec<u64>,
    E: Fn(&C, u64) -> Pt,
    D: Fn(Pt, Pt) -> u64,
>(
    bpf: &mut BezierPointFactory,
    lines: &[usize],
    max_attempts: usize,
    k: &Kernels<U, A, M, I, S, E, D>,
) -> (r: Option<Network>)
    requires
        callable::<C, U, A, M, I, S, E, D>(k),
    ensures
        final(bpf).orig_factory.same_config(&old(bpf).orig_factory),
        match r {
            Some(net) => {
                &&& net.wf()
                &&& net.graph.undirected()
                &&& connected(net.graph.lists())
                &&& net.lines@.len() == lines@.len()
                &&& attempted::<C, U, A, M, I, S, E, D>(
                    final(bpf),
                    old(bpf).placed().len() as int,
                    k,
                    lines@,
                    r,
                )
            },
            None => max_attempts > 0 && always_accepts(&k.accept) ==> attempted::<C, U, A, M, I, S, E, D>(
                final(bpf),
                old(bpf).placed().len() as int,
                k,
                lines@,
                r,
            ),
        },
{
    let ghost first = bpf.placed().len() as int;
    let curves = match make_curves(
        bpf,
        lines.len(),
        max_attempts,
        &k.uniform,
        &k.accept,
        &k.make_curve,
    ) {
        Some(curves) => curves,
        None => {
            return None;
        },
    };
    let ghost n = curves@.len();
    let made = make_intersection_lists(curves.as_slice(), &k.intersect);
    let ghost found = choose|found: Seq<Vec<(u64, u64)>>|
        found_by(&k.intersect, curves@, cross_pairs(n), found) && finished(
            n,
            recorded(n, cross_pairs(n), rows(found), found.len()),
            made,
        );
    let ghost rec = recorded(n, cross_pairs(n), rows(found), found.len());
    let ghost direct = Seq::new(n, |l: int| with_ends(rec.direct[l]));
    let inter = match made {
        Some(inter) => inter,
        None => {
            proof {
                assert(attempt_trace(
                    &*bpf,
                    first,
                    k,
                    lines@,
                    curves@,
                    found,
                    Seq::empty(),
                    Seq::empty(),
                    Seq::empty(),
                    Seq::empty(),
                    None,
                ));
            }
            return None;
        },
    };
    let Intersections { direct_intersections, inverse_intersections } = inter;
    let counts = copy_counts(lines);
    proof {
        assert(rows(direct_intersections@) == direct);
        assert(direct.len() == n);
    }
    let listed = generate_node_lists(direct_intersections, counts, &k.subdivide);
    let nodes = match listed {
        Some(nodes) => nodes,
        None => {
            proof {
                assert(paired(n, lines@.len()) == n);
                assert(!counts_suffice(direct, lines@, n as int));
                assert(none_empty_through(rec.direct, n - 1));
                assert(attempt_trace(
                    &*bpf,
                    first,
                    k,
                    lines@,
                    curves@,
                    found,
                    Seq::empty(),
                    Seq::empty(),
                    Seq::empty(),
                    Seq::empty(),
                    None,
                ));
            }
            return None;
        },
    };
    let ghost pieces = choose|pieces: Seq<Seq<Vec<u64>>>|
        node_lists_of(&k.subdivide, direct, lines@, pieces, rows(nodes@));
    let result = assemble_network(
        curves.as_slice(),
        nodes.as_slice(),
        &inverse_intersections,
        &k.eval,
        &k.dist,
    );
    proof {
        let (pts, weights) = choose|pts: Seq<Pt>, weights: Seq<Seq<u64>>|
            network_of(curves@, rows(nodes@), rec.inverse, &k.eval, &k.dist, pts, weights, result);
        assert(attempt_trace(
            &*bpf,
            first,
            k,
            lines@,
            curves@,
            found,
            pieces,
            rows(nodes@),
            pts,
            weights,
            result,
        ));
        if result is Some {
            lemma_assigned_lines(rows(nodes@), rec.inverse, n, paired(n, rows(nodes@).len()), 0);
            assert(rows((result->0).lines@).len() == n);
        }
    }
    result
}

/// The outcome of no trial is a network, whatever the factory holds.
pub open spec fn never_succeeds<
    C,
    U: Fn(u64, u64) -> u64,
    A: Fn(Pt, Pt, u64) -> bool,
    M: Fn(BezierPoints) -> C,
    I: Fn(&C, &C) -> Vec<(u64, u64)>,
    S: Fn(u64, u64, usize) -> Vec<u64>,
    E: Fn(&C, u64) -> Pt,
    D: Fn(Pt, Pt) -> u64,
>(k: &Kernels<U, A, M, I, S, E, D>, lines: Seq<usize>) -> bool {
    forall|factory: BezierPointFactory, first: int, net: Network|
        !#[trigger] attempted::<C, U, A, M, I, S, E, D>(&factory, first, k, lines, Some(net))
}

/// Tries up to `trials` times to build a connected network, each time from
/// new curves, and hands back the first that stands. After a failed trial
/// the factory forgets the points it placed.
pub fn build_network<
    C,
    U: Fn(u64, u64) -> u64,
    A: Fn(Pt, Pt, u64) -> bool,
    M: Fn(BezierPoints) -> C,
    I: Fn(&C, &C) -> Vec<(u64, u64)>,
    S: Fn(u64, u64, usize) -> Vec<u64>,
    E: Fn(&C, u64) -> Pt,
    D: Fn(Pt, Pt) -> u64,
>(
    factory_config: &FactoryConfig,
    trials: usize,
    lines: &[usize],
    max_attempts: usize,
    k: &Kernels<U, A, M, I, S, E, D>,
) -> (r: Result<Network, TrialsExhausted>)
    requires
        callable::<C, U, A, M, I, S, E, D>(k),
    ensures
        match r {
            Ok(net) => {
                &&& trials > 0
                &&& net.wf()
                &&& net.graph.undirected()
                &&& connected(net.graph.lists())
                &&& net.lines@.len() == lines@.len()
                &&& exists|factory: BezierPointFactory| #[trigger]
                    attempted::<C, U, A, M, I, S, E, D>(&factory, 0, k, lines@, Some(net))
            },
            Err(e) => {
                &&& e.trials == trials
                &&& trials > 0 && max_attempts > 0 && always_accepts(&k.accept) ==> exists|
                    factory: BezierPointFactory,
                | #[trigger] attempted::<C, U, A, M, I, S, E, D>(&factory, 0, k, lines@, None)
            },
        },
        never_succeeds::<C, U, A, M, I, S, E, D>(k, lines@) ==> r is Err,
{
    let mut bezier_points_factory = BezierPointFactory::new(factory_config);
    let mut counter = TrialCounter::new(trials);
    let mut made: usize = 0;
    while counter.run()
        invariant
            callable::<C, U, A, M, I, S, E, D>(k),
            made + counter.remaining() == trials,
            bezier_points_factory.placed() == Seq::<Pt>::empty(),
            made > 0 && max_attempts > 0 && always_accepts(&k.accept) ==> exists|
                factory: BezierPointFactory,
            | #[trigger] attempted::<C, U, A, M, I, S, E, D>(&factory, 0, k, lines@, None),
        decreases counter.remaining(),
    {
        made = made + 1;
        let attempt = try_build_network(&mut bezier_points_factory, lines, max_attempts, k);
        proof {
            if attempt is None && max_attempts > 0 && always_accepts(&k.accept) {
                assert(attempted::<C, U, A, M, I, S, E, D>(
                    &bezier_points_factory,
                    0,
                    k,
                    lines@,
                    None,
                ));
            }
        }
        match attempt {
            Some(output) => {
                proof {
                    assert(attempted::<C, U, A, M, I, S, E, D>(
                        &bezier_points_factory,
                        0,
                        k,
                        lines@,
                        Some(output),
                    ));
                }
                return Ok(output);
            },
            None => {},
        }
        bezier_points_factory.reset();
    }
    Err(TrialsExhausted { trials: made })
}

} // verus!
