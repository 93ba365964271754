//! Random end points and control points for the curves. End points keep away
//! from the origin and from each other: a candidate stays only if the
//! acceptance test passes against the origin and against every end point
//! placed before.

use vstd::prelude::*;
use crate::float_bits::{float_lt, lt, neg, negated, ZERO};
use crate::point_factory::Pt;
use crate::rand_utils::{drawn_in, rand_point};

verus! {

/// The four points of a cubic curve.
#[derive(Clone, Copy, Debug)]
pub struct BezierPoints {
    pub start: Pt,
    pub end: Pt,
    pub ctrl_1: Pt,
    pub ctrl_2: Pt,
}

/// Bit patterns of the two radii and of the half width and half height of
/// the area in which end points are placed.
#[derive(Clone, Copy, Debug)]
pub struct FactoryConfig {
    pub center_radius: u64,
    pub point_radius: u64,
    pub size_x: u64,
    pub size_y: u64,
}

/// The smaller of the two first, by the order of the reals.
pub open spec fn ordered(t: (u64, u64)) -> (u64, u64) {
    if float_lt(t.0, t.1) {
        (t.0, t.1)
    } else {
        (t.1, t.0)
    }
}

/// The two numbers with the smaller first; as given where neither is less.
pub fn min_max(t: (u64, u64)) -> (r: (u64, u64))
    ensures
        r == ordered(t),
{
    let (a, b) = t;
    if lt(a, b) {
        (a, b)
    } else {
        (b, a)
    }
}

/// The sides of the rectangle that has `p` and `q` as opposite corners: its
/// range on the `x` axis, then its range on the `y` axis.
pub fn get_bounds(p: (u64, u64), q: (u64, u64)) -> (r: ((u64, u64), (u64, u64)))
    ensures
        r.0 == ordered((p.0, q.0)),
        r.1 == ordered((p.1, q.1)),
{
    let (x1, y1) = p;
    let (x2, y2) = q;
    let x_range = min_max((x1, x2));
    let y_range = min_max((y1, y2));
    (x_range, y_range)
}

/// Whether `accept` lets `p` stand at its distance from `q`.
pub fn accpet_distance<A: Fn(Pt, Pt, u64) -> bool>(p: Pt, q: Pt, radius: u64, accept: &A) -> (r: bool)
    requires
        call_requires(accept, (p, q, radius)),
    ensures
        call_ensures(accept, (p, q, radius), r),
{
    accept(p, q, radius)
}

/// Whether `accept` lets `pt` stand at its distance from the origin.
pub fn accept_radius<A: Fn(Pt, Pt, u64) -> bool>(pt: Pt, radius: u64, accept: &A) -> (r: bool)
    requires
        call_requires(accept, (pt, (ZERO, ZERO), radius)),
    ensures
        call_ensures(accept, (pt, (ZERO, ZERO), radius), r),
{
    accpet_distance(pt, (ZERO, ZERO), radius, accept)
}

/// `accept` let `pt` stand against each of `others`.
pub open spec fn clears<A: Fn(Pt, Pt, u64) -> bool>(accept: &A, pt: Pt, others: Seq<Pt>, radius: u64) -> bool {
    forall|k: int| 0 <= k < others.len() ==> call_ensures(accept, (pt, #[trigger] others[k], radius), true)
}

/// `accept` turned `pt` down against one of `others`.
pub open spec fn blocked<A: Fn(Pt, Pt, u64) -> bool>(accept: &A, pt: Pt, others: Seq<Pt>, radius: u64) -> bool {
    exists|k: int| 0 <= k < others.len() && call_ensures(accept, (pt, #[trigger] others[k], radius), false)
}

/// `accept` never turns a candidate down.
pub open spec fn always_accepts<A: Fn(Pt, Pt, u64) -> bool>(accept: &A) -> bool {
    forall|p: Pt, q: Pt, radius: u64, r: bool| #[trigger] call_ensures(accept, (p, q, radius), r) ==> r
}

/// Places end points one after the other and remembers them.
pub struct OriginPointFactory {
    pub center_radius: u64,
    pub point_radius: u64,
    pub size_x: u64,
    pub size_y: u64,
    pub points: Vec<Pt>,
}

impl OriginPointFactory {
    /// The radii and the area stay as they were.
    pub open spec fn same_config(&self, other: &Self) -> bool {
        &&& self.center_radius == other.center_radius
        &&& self.point_radius == other.point_radius
        &&& self.size_x == other.size_x
        &&& self.size_y == other.size_y
    }

    /// `pt` was drawn in the area, from `-size` to `size` on each axis.
    pub open spec fn drew<U: Fn(u64, u64) -> u64>(&self, uniform: &U, pt: Pt) -> bool {
        drawn_in(uniform, (negated(self.size_x), self.size_x), (negated(self.size_y), self.size_y), pt)
    }

    /// `accept` let `pt` stand against the origin and against every point of
    /// `placed`.
    pub open spec fn settled<A: Fn(Pt, Pt, u64) -> bool>(&self, accept: &A, pt: Pt, placed: Seq<Pt>) -> bool {
        &&& call_ensures(accept, (pt, (ZERO, ZERO), self.center_radius), true)
        &&& clears(accept, pt, placed, self.point_radius)
    }

    /// `accept` turned `pt` down against the origin or against a point of
    /// `placed`.
    pub open spec fn turned_down<A: Fn(Pt, Pt, u64) -> bool>(&self, accept: &A, pt: Pt, placed: Seq<Pt>) -> bool {
        ||| call_ensures(accept, (pt, (ZERO, ZERO), self.center_radius), false)
        ||| blocked(accept, pt, placed, self.point_radius)
    }

    /// Some candidate was drawn in the area and turned down.
    pub open spec fn refused<U: Fn(u64, u64) -> u64, A: Fn(Pt, Pt, u64) -> bool>(
        &self,
        uniform: &U,
        accept: &A,
    ) -> bool {
        exists|pt: Pt| self.drew(uniform, pt) && #[trigger] self.turned_down(accept, pt, self.points@)
    }

    /// A factory that has placed no point yet.
    pub fn new(center_radius: u64, point_radius: u64, size_x: u64, size_y: u64) -> (f: Self)
        ensures
            f.center_radius == center_radius,
            f.point_radius == point_radius,
            f.size_x == size_x,
            f.size_y == size_y,
            f.points@ == Seq::<Pt>::empty(),
    {
        Self { center_radius, point_radius, size_x, size_y, points: Vec::new() }
    }

    /// Draws candidates until one stands, at most `max_attempts` of them;
    /// the one that stands is remembered.
    pub fn next_point<U: Fn(u64, u64) -> u64, A: Fn(Pt, Pt, u64) -> bool>(
        &mut self,
        max_attempts: usize,
        uniform: &U,
        accept: &A,
    ) -> (r: Option<Pt>)
        requires
            forall|a: u64, b: u64| call_requires(uniform, (a, b)),
            forall|p: Pt, q: Pt, radius: u64| call_requires(accept, (p, q, radius)),
        ensures
            final(self).same_config(old(self)),
            match r {
                Some(pt) => {
                    &&& final(self).points@ == old(self).points@.push(pt)
                    &&& old(self).drew(uniform, pt)
                    &&& old(self).settled(accept, pt, old(self).points@)
                },
                None => {
                    &&& final(self).points@ == old(self).points@
                    &&& max_attempts > 0 ==> old(self).refused(uniform, accept)
                },
            },
            max_attempts == 0 ==> r is None,
            max_attempts > 0 && always_accepts(accept) ==> r is Some,
    {
        let mut left = max_attempts;
        while left > 0
            invariant
                forall|a: u64, b: u64| call_requires(uniform, (a, b)),
                forall|p: Pt, q: Pt, radius: u64| call_requires(accept, (p, q, radius)),
                *self == *old(self),
                left <= max_attempts,
                left < max_attempts ==> self.refused(uniform, accept),
            decreases left,
        {
            let pt = self.rand_point(uniform);
            if self.valid_point(pt, accept) {
                self.points.push(pt);
                return Some(pt);
            }
            proof {
                assert(self.drew(uniform, pt) && self.turned_down(accept, pt, self.points@));
            }
            left = left - 1;
        }
        proof {
            if max_attempts > 0 && always_accepts(accept) {
                let pt = choose|pt: Pt|
                    self.drew(uniform, pt) && #[trigger] self.turned_down(accept, pt, self.points@);
                if blocked(accept, pt, self.points@, self.point_radius) {
                    let k = choose|k: int|
                        0 <= k < self.points@.len() && call_ensures(
                            accept,
                            (pt, #[trigger] self.points@[k], self.point_radius),
                            false,
                        );
                }
            }
        }
        None
    }

    /// A candidate drawn in the area.
    pub fn rand_point<U: Fn(u64, u64) -> u64>(&self, uniform: &U) -> (pt: Pt)
        requires
            forall|a: u64, b: u64| call_requires(uniform, (a, b)),
        ensures
            self.drew(uniform, pt),
    {
        let x_range = (neg(self.size_x), self.size_x);
        let y_range = (neg(self.size_y), self.size_y);
        rand_point(x_range, y_range, uniform)
    }

    /// Whether `pt` may stand: first against the origin, then against the
    /// placed points.
    pub fn valid_point<A: Fn(Pt, Pt, u64) -> bool>(&self, pt: Pt, accept: &A) -> (r: bool)
        requires
            forall|p: Pt, q: Pt, radius: u64| call_requires(accept, (p, q, radius)),
        ensures
            r ==> self.settled(accept, pt, self.points@),
            !r ==> self.turned_down(accept, pt, self.points@),
    {
        self.accept_radius(pt, accept) && self.accept_position(pt, accept)
    }

    /// Whether `pt` may stand at its distance from the origin.
    pub fn accept_radius<A: Fn(Pt, Pt, u64) -> bool>(&self, pt: Pt, accept: &A) -> (r: bool)
        requires
            forall|p: Pt, q: Pt, radius: u64| call_requires(accept, (p, q, radius)),
        ensures
            call_ensures(accept, (pt, (ZERO, ZERO), self.center_radius), r),
    {
        accept_radius(pt, self.center_radius, accept)
    }

    /// Tests `pt` against the placed points in order, up to the first that
    /// turns it down.
    pub fn accept_position<A: Fn(Pt, Pt, u64) -> bool>(&self, pt: Pt, accept: &A) -> (r: bool)
        requires
            forall|p: Pt, q: Pt, radius: u64| call_requires(accept, (p, q, radius)),
        ensures
            r ==> clears(accept, pt, self.points@, self.point_radius),
            !r ==> blocked(accept, pt, self.points@, self.point_radius),
    {
        let mut k: usize = 0;
        while k < self.points.len()
            invariant
                k <= self.points@.len(),
                forall|p: Pt, q: Pt, radius: u64| call_requires(accept, (p, q, radius)),
                forall|j: int|
                    0 <= j < k ==> call_ensures(
                        accept,
                        (pt, #[trigger] self.points@[j], self.point_radius),
                        true,
                    ),
            decreases self.points@.len() - k,
        {
            if !accpet_distance(pt, self.points[k], self.point_radius, accept) {
                assert(call_ensures(accept, (pt, self.points@[k as int], self.point_radius), false));
                return false;
            }
            k = k + 1;
        }
        true
    }
}

/// Draws control points in the rectangle spanned by two end points.
pub struct ControlPointFactory {
    pub x_range: (u64, u64),
    pub y_range: (u64, u64),
}

impl ControlPointFactory {
    /// The factory for the rectangle that has `p` and `q` as opposite
    /// corners.
    pub fn new(p: Pt, q: Pt) -> (f: Self)
        ensures
            f.x_range == ordered((p.0, q.0)),
            f.y_range == ordered((p.1, q.1)),
    {
        let (x_range, y_range) = get_bounds(p, q);
        Self { x_range, y_range }
    }

    /// A point drawn in the rectangle.
    pub fn next_point<U: Fn(u64, u64) -> u64>(&self, uniform: &U) -> (pt: Pt)
        requires
            forall|a: u64, b: u64| call_requires(uniform, (a, b)),
        ensures
            drawn_in(uniform, self.x_range, self.y_range, pt),
    {
        rand_point(self.x_range, self.y_range, uniform)
    }
}

/// Makes the four points of one curve after the other.
pub struct BezierPointFactory {
    pub orig_factory: OriginPointFactory,
}

impl BezierPointFactory {
    /// The end points placed since the factory was made or reset.
    pub open spec fn placed(&self) -> Seq<Pt> {
        self.orig_factory.points@
    }

    /// The four points `b` were made by this factory with `placed` end
    /// points before them: both ends drawn in the area and let stand, the
    /// second also against the first, and both control points drawn in the
    /// rectangle between the ends.
    pub open spec fn made<U: Fn(u64, u64) -> u64, A: Fn(Pt, Pt, u64) -> bool>(
        &self,
        uniform: &U,
        accept: &A,
        placed: Seq<Pt>,
        b: BezierPoints,
    ) -> bool {
        &&& self.orig_factory.drew(uniform, b.start)
        &&& self.orig_factory.settled(accept, b.start, placed)
        &&& self.orig_factory.drew(uniform, b.end)
        &&& self.orig_factory.settled(accept, b.end, placed.push(b.start))
        &&& drawn_in(
            uniform,
            ordered((b.start.0, b.end.0)),
            ordered((b.start.1, b.end.1)),
            b.ctrl_1,
        )
        &&& drawn_in(
            uniform,
            ordered((b.start.0, b.end.0)),
            ordered((b.start.1, b.end.1)),
            b.ctrl_2,
        )
    }

    /// A factory for the configured area and radii.
    pub fn new(config: &FactoryConfig) -> (f: Self)
        ensures
            f.orig_factory.center_radius == config.center_radius,
            f.orig_factory.point_radius == config.point_radius,
            f.orig_factory.size_x == config.size_x,
            f.orig_factory.size_y == config.size_y,
            f.placed() == Seq::<Pt>::empty(),
    {
        let orig_factory = OriginPointFactory::new(
            config.center_radius,
            config.point_radius,
            config.size_x,
            config.size_y,
        );
        Self { orig_factory }
    }

    /// Forgets the end points placed so far.
    pub fn reset(&mut self)
        ensures
            final(self).orig_factory.same_config(&old(self).orig_factory),
            final(self).placed() == Seq::<Pt>::empty(),
    {
        self.orig_factory.points = Vec::new();
    }

    /// Two end points and two control points for one curve. Nothing where an
    /// end point could not be placed within `max_attempts` candidates; an end
    /// point that was placed before that stays remembered.
    pub fn get_bezier_points<U: Fn(u64, u64) -> u64, A: Fn(Pt, Pt, u64) -> bool>(
        &mut self,
        max_attempts: usize,
        uniform: &U,
        accept: &A,
    ) -> (r: Option<BezierPoints>)
        requires
            forall|a: u64, b: u64| call_requires(uniform, (a, b)),
            forall|p: Pt, q: Pt, radius: u64| call_requires(accept, (p, q, radius)),
        ensures
            final(self).orig_factory.same_config(&old(self).orig_factory),
            match r {
                Some(b) => {
                    &&& final(self).placed() == old(self).placed().push(b.start).push(b.end)
                    &&& old(self).made(uniform, accept, old(self).placed(), b)
                },
                None => {
                    ||| final(self).placed() == old(self).placed()
                    ||| final(self).placed().drop_last() == old(self).placed()
                        && final(self).placed().len() > 0
                },
            },
            max_attempts == 0 ==> r is None,
            max_attempts > 0 && always_accepts(accept) ==> r is Some,
    {
        let start = match self.orig_factory.next_point(max_attempts, uniform, accept) {
            Some(pt) => pt,
            None => {
                return None;
            },
        };
        let end = match self.orig_factory.next_point(max_attempts, uniform, accept) {
            Some(pt) => pt,
            None => {
                assert(self.placed().drop_last() =~= old(self).placed());
                return None;
            },
        };
        let ctl_factory = ControlPointFactory::new(start, end);
        let ctrl_1 = ctl_factory.next_point(uniform);
        let ctrl_2 = ctl_factory.next_point(uniform);
        Some(BezierPoints { start, end, ctrl_1, ctrl_2 })
    }
}

} // verus!
