//! Random points of a rectangle.

use vstd::prelude::*;
use crate::point_factory::Pt;

verus! {

/// `pt` is a draw of `uniform` for each of the two ranges.
pub open spec fn drawn_in<U: Fn(u64, u64) -> u64>(
    uniform: &U,
    range_x: (u64, u64),
    range_y: (u64, u64),
    pt: Pt,
) -> bool {
    &&& call_ensures(uniform, (range_x.0, range_x.1), pt.0)
    &&& call_ensures(uniform, (range_y.0, range_y.1), pt.1)
}

/// A number that `uniform` draws between the two ends of `range`.
pub fn random_in_range<U: Fn(u64, u64) -> u64>(range: (u64, u64), uniform: &U) -> (r: u64)
    requires
        call_requires(uniform, (range.0, range.1)),
    ensures
        call_ensures(uniform, (range.0, range.1), r),
{
    let (min, max) = range;
    uniform(min, max)
}

/// A point whose coordinates `uniform` draws in the two ranges, first `x` and
/// then `y`.
pub fn rand_point<U: Fn(u64, u64) -> u64>(range_x: (u64, u64), range_y: (u64, u64), uniform: &U) -> (pt: Pt)
    requires
        forall|a: u64, b: u64| call_requires(uniform, (a, b)),
    ensures
        drawn_in(uniform, range_x, range_y, pt),
{
    let x = random_in_range(range_x, uniform);
    let y = random_in_range(range_y, uniform);
    (x, y)
}

} // verus!
