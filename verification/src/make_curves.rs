//! One curve for each line, each from four freshly placed points.

use vstd::prelude::*;
use crate::bezier_point_factory::{always_accepts, BezierPointFactory, BezierPoints};
use crate::point_factory::Pt;

verus! {

/// Curve `c` is what `make` gave for four points of the factory, whose end
/// points are `placed[at]` and `placed[at + 1]`.
pub open spec fn curve_made<C, U: Fn(u64, u64) -> u64, A: Fn(Pt, Pt, u64) -> bool, M: Fn(BezierPoints) -> C>(
    factory: &BezierPointFactory,
    uniform: &U,
    accept: &A,
    make: &M,
    placed: Seq<Pt>,
    at: int,
    c: C,
) -> bool {
    exists|b: BezierPoints| #[trigger]
        call_ensures(make, (b,), c) && b.start == placed[at] && b.end == placed[at + 1]
            && factory.made(uniform, accept, placed.take(at), b)
}

/// Every curve was made from the next two of the end points placed since
/// `first`.
pub open spec fn curves_made<C, U: Fn(u64, u64) -> u64, A: Fn(Pt, Pt, u64) -> bool, M: Fn(BezierPoints) -> C>(
    factory: &BezierPointFactory,
    uniform: &U,
    accept: &A,
    make: &M,
    first: int,
    curves: Seq<C>,
) -> bool {
    &&& factory.placed().len() == first + 2 * curves.len()
    &&& forall|k: int|
        0 <= k < curves.len() ==> curve_made(
            factory,
            uniform,
            accept,
            make,
            factory.placed(),
            first + 2 * k,
            #[trigger] curves[k],
        )
}

/// A curve from four new points of the factory. Nothing where an end point
/// could not be placed.
pub fn make_curve<C, U: Fn(u64, u64) -> u64, A: Fn(Pt, Pt, u64) -> bool, M: Fn(BezierPoints) -> C>(
    point_factory: &mut BezierPointFactory,
    max_attempts: usize,
    uniform: &U,
    accept: &A,
    make: &M,
) -> (r: Option<C>)
    requires
        forall|a: u64, b: u64| call_requires(uniform, (a, b)),
        forall|p: Pt, q: Pt, radius: u64| call_requires(accept, (p, q, radius)),
        forall|b: BezierPoints| call_requires(make, (b,)),
    ensures
        final(point_factory).orig_factory.same_config(&old(point_factory).orig_factory),
        match r {
            Some(c) => {
                &&& final(point_factory).placed().len() == old(point_factory).placed().len() + 2
                &&& final(point_factory).placed().take(old(point_factory).placed().len() as int)
                    == old(point_factory).placed()
                &&& curve_made(
                    old(point_factory),
                    uniform,
                    accept,
                    make,
                    final(point_factory).placed(),
                    old(point_factory).placed().len() as int,
                    c,
                )
            },
            None => true,
        },
        max_attempts > 0 && always_accepts(accept) ==> r is Some,
{
    let ghost before = point_factory.placed();
    match point_factory.get_bezier_points(max_attempts, uniform, accept) {
        Some(points) => {
            let c = make(points);
            proof {
                let after = point_factory.placed();
                assert(after.take(before.len() as int) =~= before);
                assert(call_ensures(make, (points,), c));
            }
            Some(c)
        },
        None => None,
    }
}

/// `count` curves, made one after the other. Nothing where an end point
/// could not be placed.
pub fn make_curves<C, U: Fn(u64, u64) -> u64, A: Fn(Pt, Pt, u64) -> bool, M: Fn(BezierPoints) -> C>(
    pf: &mut BezierPointFactory,
    count: usize,
    max_attempts: usize,
    uniform: &U,
    accept: &A,
    make: &M,
) -> (r: Option<Vec<C>>)
    requires
        forall|a: u64, b: u64| call_requires(uniform, (a, b)),
        forall|p: Pt, q: Pt, radius: u64| call_requires(accept, (p, q, radius)),
        forall|b: BezierPoints| call_requires(make, (b,)),
    ensures
        final(pf).orig_factory.same_config(&old(pf).orig_factory),
        match r {
            Some(curves) => {
                &&& curves@.len() == count
                &&& final(pf).placed().take(old(pf).placed().len() as int) == old(pf).placed()
                &&& curves_made(
                    final(pf),
                    uniform,
                    accept,
                    make,
                    old(pf).placed().len() as int,
                    curves@,
                )
            },
            None => true,
        },
        max_attempts > 0 && always_accepts(accept) ==> r is Some,
{
    let ghost first = pf.placed().len() as int;
    let mut curves: Vec<C> = Vec::new();
    let mut k: usize = 0;
    while k < count
        invariant
            k <= count,
            forall|a: u64, b: u64| call_requires(uniform, (a, b)),
            forall|p: Pt, q: Pt, radius: u64| call_requires(accept, (p, q, radius)),
            forall|b: BezierPoints| call_requires(make, (b,)),
            first == old(pf).placed().len(),
            pf.orig_factory.same_config(&old(pf).orig_factory),
            curves@.len() == k,
            pf.placed().take(first) == old(pf).placed(),
            curves_made(&*pf, uniform, accept, make, first, curves@),
        decreases count - k,
    {
        let ghost before = *pf;
        let ghost made_before = curves@;
        match make_curve(pf, max_attempts, uniform, accept, make) {
            Some(c) => {
                curves.push(c);
                proof {
                    let placed = pf.placed();
                    assert(placed.take(first) =~= before.placed().take(first));
                    assert forall|j: int| 0 <= j < curves@.len() implies curve_made(
                        &*pf,
                        uniform,
                        accept,
                        make,
                        placed,
                        first + 2 * j,
                        #[trigger] curves@[j],
                    ) by {
                        if j < k {
                            assert(curves@[j] == made_before[j]);
                            assert(curve_made(
                                &before,
                                uniform,
                                accept,
                                make,
                                before.placed(),
                                first + 2 * j,
                                made_before[j],
                            ));
                            let b = choose|b: BezierPoints| #[trigger]
                                call_ensures(make, (b,), made_before[j]) && b.start
                                    == before.placed()[first + 2 * j] && b.end == before.placed()[first
                                    + 2 * j + 1] && before.made(
                                    uniform,
                                    accept,
                                    before.placed().take(first + 2 * j),
                                    b,
                                );
                            assert(placed.take(before.placed().len() as int)[first + 2 * j]
                                == placed[first + 2 * j]);
                            assert(placed.take(before.placed().len() as int)[first + 2 * j + 1]
                                == placed[first + 2 * j + 1]);
                            assert(placed.take(first + 2 * j) =~= before.placed().take(first + 2 * j));
                            assert(call_ensures(make, (b,), curves@[j]) && b.start == placed[first + 2
                                * j] && b.end == placed[first + 2 * j + 1] && pf.made(
                                uniform,
                                accept,
                                placed.take(first + 2 * j),
                                b,
                            ));
                        } else {
                            let b = choose|b: BezierPoints| #[trigger]
                                call_ensures(make, (b,), c) && b.start == placed[first + 2 * j] && b.end
                                    == placed[first + 2 * j + 1] && before.made(
                                    uniform,
                                    accept,
                                    placed.take(first + 2 * j),
                                    b,
                                );
                            assert(call_ensures(make, (b,), curves@[j]) && b.start == placed[first + 2
                                * j] && b.end == placed[first + 2 * j + 1] && pf.made(
                                uniform,
                                accept,
                                placed.take(first + 2 * j),
                                b,
                            ));
                        }
                    }
                }
            },
            None => {
                return None;
            },
        }
        k = k + 1;
    }
    Some(curves)
}

} // verus!
