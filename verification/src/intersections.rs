//! Where the curves cross: for each curve the parameters of its crossings, in
//! ascending order between its two ends, and for each crossing the curve that
//! is met there.

use vstd::prelude::*;
use crate::build_lines::{crossings_name_curves, rows, Crossings};
use crate::float_bits::{float_lt, is_nan, lemma_not_lt_transitive, lt, ONE, ZERO};
use crate::float_table::FloatMatrix;

verus! {

/// The crossings of a set of curves.
pub struct Intersections {
    /// For each curve, the parameters at which it crosses another curve.
    pub direct_intersections: Vec<Vec<u64>>,
    /// For each curve and each such parameter, the other curve and a
    /// parameter of it.
    pub inverse_intersections: FloatMatrix<(usize, u64)>,
}

/// The pairs `(a, b)` with `a < b < n` in which `a < i`, followed by the
/// pairs `(i, b)` with `b < j`; each group in ascending order.
pub open spec fn cross_prefix(n: nat, i: nat, j: nat) -> Seq<(usize, usize)>
    decreases i, j,
{
    if j > i + 1 {
        cross_prefix(n, i, (j - 1) as nat).push((i as usize, (j - 1) as usize))
    } else if i > 0 {
        cross_prefix(n, (i - 1) as nat, n)
    } else {
        Seq::empty()
    }
}

/// Every pair `(a, b)` with `a < b < n`, ordered by `a` and then by `b`.
pub open spec fn cross_pairs(n: nat) -> Seq<(usize, usize)> {
    cross_prefix(n, n, 0)
}

/// What is known of the crossings at some moment.
pub struct Record {
    pub direct: Seq<Seq<u64>>,
    pub inverse: Crossings,
}

/// Nothing recorded yet, for `n` curves.
pub open spec fn no_crossings(n: nat) -> Record {
    Record {
        direct: Seq::new(n, |l: int| Seq::<u64>::empty()),
        inverse: Seq::new(n, |l: int| Map::<u64, (usize, u64)>::empty()),
    }
}

/// Recording that curve `i` at `t1` meets curve `j` at `t2`. The entry for
/// `(j, t2)` names `(i, t1)`; the entry for `(i, t1)` names curve `j` with
/// the parameter `t1`.
pub open spec fn with_crossing(r: Record, i: usize, j: usize, t1: u64, t2: u64) -> Record {
    let first = r.direct.update(i as int, r.direct[i as int].push(t1));
    let direct = first.update(j as int, first[j as int].push(t2));
    let back = r.inverse.update(j as int, r.inverse[j as int].insert(t2, (i, t1)));
    let inverse = back.update(i as int, back[i as int].insert(t1, (j, t1)));
    Record { direct, inverse }
}

/// Recording the first `q` crossings found between curves `i` and `j`.
pub open spec fn with_crossings(r: Record, i: usize, j: usize, found: Seq<(u64, u64)>, q: nat) -> Record
    decreases q,
{
    if q == 0 {
        r
    } else {
        with_crossing(
            with_crossings(r, i, j, found, (q - 1) as nat),
            i,
            j,
            found[q - 1].0,
            found[q - 1].1,
        )
    }
}

/// The record for `n` curves after the crossings found for the first `p`
/// pairs of curves have been recorded, pair by pair.
pub open spec fn recorded(n: nat, pairs: Seq<(usize, usize)>, found: Seq<Seq<(u64, u64)>>, p: nat) -> Record
    decreases p,
{
    if p == 0 {
        no_crossings(n)
    } else {
        with_crossings(
            recorded(n, pairs, found, (p - 1) as nat),
            pairs[p - 1].0,
            pairs[p - 1].1,
            found[p - 1],
            found[p - 1].len(),
        )
    }
}

/// `s` with `x` put in behind the last element that is not greater than `x`.
pub open spec fn inserted(s: Seq<u64>, x: u64) -> Seq<u64>
    decreases s.len(),
{
    if s.len() > 0 && float_lt(x, s.last()) {
        inserted(s.drop_last(), x).push(s.last())
    } else {
        s.push(x)
    }
}

/// The elements of `s` put in one by one: ascending, with equal elements in
/// the order in which they came.
pub open spec fn sorted(s: Seq<u64>) -> Seq<u64>
    decreases s.len(),
{
    if s.len() == 0 {
        Seq::empty()
    } else {
        inserted(sorted(s.drop_last()), s.last())
    }
}

/// No element is greater than a later one.
pub open spec fn ascending(s: Seq<u64>) -> bool {
    forall|a: int, b: int| 0 <= a < b < s.len() ==> !float_lt(s[b], s[a])
}

/// Every element is a number.
pub open spec fn all_numbers(s: Seq<u64>) -> bool {
    forall|k: int| 0 <= k < s.len() ==> !is_nan(#[trigger] s[k])
}

/// None of the lists up to and including list `l` is empty.
pub open spec fn none_empty_through(lists: Seq<Seq<u64>>, l: int) -> bool {
    forall|m: int| 0 <= m <= l && m < lists.len() ==> (#[trigger] lists[m]).len() > 0
}

/// A crossing list between its two ends: the list with the parameters of
/// both ends added, in ascending order.
pub open spec fn with_ends(list: Seq<u64>) -> Seq<u64> {
    sorted(list.push(ZERO).push(ONE))
}

proof fn lemma_inserted_at(s: Seq<u64>, x: u64, pos: int)
    requires
        0 <= pos <= s.len(),
        forall|k: int| pos <= k < s.len() ==> float_lt(x, #[trigger] s[k]),
        pos == 0 || !float_lt(x, s[pos - 1]),
    ensures
        inserted(s, x) == s.take(pos).push(x) + s.skip(pos),
    decreases s.len() - pos,
{
    if pos == s.len() {
        assert(s.take(pos) =~= s);
        assert(s.take(pos).push(x) + s.skip(pos) =~= s.push(x));
    } else {
        let rest = s.drop_last();
        assert(float_lt(x, s[s.len() - 1]));
        lemma_inserted_at(rest, x, pos);
        assert(rest.take(pos) =~= s.take(pos));
        assert((rest.take(pos).push(x) + rest.skip(pos)).push(s.last()) =~= s.take(pos).push(x)
            + s.skip(pos));
    }
}

/// Putting an element into an ascending run of numbers leaves it ascending and
/// adds that one element.
pub proof fn lemma_inserted(s: Seq<u64>, x: u64)
    ensures
        inserted(s, x).len() == s.len() + 1,
        inserted(s, x).to_multiset() == s.to_multiset().insert(x),
        all_numbers(s) && !is_nan(x) ==> all_numbers(inserted(s, x)),
        all_numbers(s) && !is_nan(x) && ascending(s) ==> ascending(inserted(s, x)),
    decreases s.len(),
{
    if s.len() > 0 && float_lt(x, s.last()) {
        let rest = s.drop_last();
        let inner = inserted(rest, x);
        lemma_inserted(rest, x);
        assert(s =~= rest.push(s.last()));
        vstd::seq_lib::to_multiset_build(rest, s.last());
        vstd::seq_lib::to_multiset_build(inner, s.last());
        assert(inserted(s, x).to_multiset() =~= s.to_multiset().insert(x));
        if all_numbers(s) && !is_nan(x) {
            assert(all_numbers(rest)) by {
                assert forall|k: int| 0 <= k < rest.len() implies !is_nan(#[trigger] rest[k]) by {
                    assert(rest[k] == s[k]);
                }
            }
            let out = inserted(s, x);
            assert(all_numbers(out)) by {
                assert forall|k: int| 0 <= k < out.len() implies !is_nan(#[trigger] out[k]) by {
                    if k < inner.len() {
                        assert(out[k] == inner[k]);
                    } else {
                        assert(out[k] == s[s.len() - 1]);
                    }
                }
            }
            if ascending(s) {
                assert(ascending(rest)) by {
                    assert forall|a: int, b: int| 0 <= a < b < rest.len() implies !float_lt(
                        rest[b],
                        rest[a],
                    ) by {
                        assert(!float_lt(s[b], s[a]));
                    }
                }
                lemma_inner_below(rest, x, s.last());
                assert forall|a: int, b: int| 0 <= a < b < out.len() implies !float_lt(
                    out[b],
                    out[a],
                ) by {
                    if b < inner.len() {
                        assert(!float_lt(inner[b], inner[a]));
                    } else {
                        assert(out[b] == s.last());
                        assert(out[a] == inner[a]);
                    }
                }
            }
        }
    } else {
        vstd::seq_lib::to_multiset_build(s, x);
        if all_numbers(s) && !is_nan(x) {
            let out = s.push(x);
            assert forall|k: int| 0 <= k < out.len() implies !is_nan(#[trigger] out[k]) by {
                if k < s.len() {
                    assert(out[k] == s[k]);
                }
            }
            if ascending(s) {
                assert forall|a: int, b: int| 0 <= a < b < out.len() implies !float_lt(
                    out[b],
                    out[a],
                ) by {
                    if b < s.len() {
                        assert(!float_lt(s[b], s[a]));
                    } else {
                        assert(!float_lt(x, s[s.len() - 1]));
                        if a < s.len() - 1 {
                            assert(!float_lt(s[s.len() - 1], s[a]));
                            lemma_not_lt_transitive(s[a], s[s.len() - 1], x);
                        }
                    }
                }
            }
        }
    }
}

/// Where nothing in an ascending run `s` is greater than `top`, and `x` is
/// less than `top`, nothing in `s` with `x` put in is greater than `top`.
proof fn lemma_inner_below(s: Seq<u64>, x: u64, top: u64)
    requires
        all_numbers(s),
        !is_nan(x),
        !is_nan(top),
        float_lt(x, top),
        forall|k: int| 0 <= k < s.len() ==> !float_lt(top, #[trigger] s[k]),
    ensures
        forall|k: int| 0 <= k < inserted(s, x).len() ==> !float_lt(top, #[trigger] inserted(s, x)[k]),
    decreases s.len(),
{
    if s.len() > 0 && float_lt(x, s.last()) {
        let rest = s.drop_last();
        assert(all_numbers(rest)) by {
            assert forall|k: int| 0 <= k < rest.len() implies !is_nan(#[trigger] rest[k]) by {
                assert(rest[k] == s[k]);
            }
        }
        assert forall|k: int| 0 <= k < rest.len() implies !float_lt(top, #[trigger] rest[k]) by {
            assert(rest[k] == s[k]);
        }
        lemma_inner_below(rest, x, top);
        let inner = inserted(rest, x);
        let out = inserted(s, x);
        assert forall|k: int| 0 <= k < out.len() implies !float_lt(top, #[trigger] out[k]) by {
            if k < inner.len() {
                assert(out[k] == inner[k]);
            } else {
                assert(out[k] == s[s.len() - 1]);
            }
        }
    } else {
        let out = s.push(x);
        assert forall|k: int| 0 <= k < out.len() implies !float_lt(top, #[trigger] out[k]) by {
            if k < s.len() {
                assert(out[k] == s[k]);
            }
        }
    }
}

/// Sorting keeps every element, as often as it occurs, and puts numbers in
/// ascending order.
pub proof fn lemma_sorted(s: Seq<u64>)
    ensures
        sorted(s).len() == s.len(),
        sorted(s).to_multiset() == s.to_multiset(),
        all_numbers(s) ==> all_numbers(sorted(s)) && ascending(sorted(s)),
    decreases s.len(),
{
    if s.len() == 0 {
        assert(sorted(s) =~= s);
    } else {
        let rest = s.drop_last();
        lemma_sorted(rest);
        lemma_inserted(sorted(rest), s.last());
        assert(s =~= rest.push(s.last()));
        vstd::seq_lib::to_multiset_build(rest, s.last());
        if all_numbers(s) {
            assert(all_numbers(rest)) by {
                assert forall|k: int| 0 <= k < rest.len() implies !is_nan(#[trigger] rest[k]) by {
                    assert(rest[k] == s[k]);
                }
            }
            assert(!is_nan(s[s.len() - 1]));
        }
    }
}

/// Puts `x` into `v` behind the last element that is not greater than it.
fn insert_sorted(v: &mut Vec<u64>, x: u64)
    ensures
        final(v)@ == inserted(old(v)@, x),
{
    let ghost before = v@;
    v.push(x);
    let mut pos: usize = v.len() - 1;
    while pos > 0 && lt(x, v[pos - 1])
        invariant
            pos <= before.len(),
            v@.len() == before.len() + 1,
            v@ == before.take(pos as int).push(x) + before.skip(pos as int),
            forall|k: int| pos <= k < before.len() ==> float_lt(x, #[trigger] before[k]),
        decreases pos,
    {
        let prev = v[pos - 1];
        assert(prev == before[pos - 1]);
        v.set(pos, prev);
        v.set(pos - 1, x);
        pos = pos - 1;
        assert(v@ =~= before.take(pos as int).push(x) + before.skip(pos as int));
    }
    proof {
        if pos > 0 {
            assert(v@[pos - 1] == before[pos - 1]);
        }
        lemma_inserted_at(before, x, pos as int);
    }
}

/// Sorts the list in place.
pub fn sort_floats(v: &mut Vec<u64>)
    ensures
        final(v)@ == sorted(old(v)@),
{
    let mut out: Vec<u64> = Vec::new();
    let mut k: usize = 0;
    assert(old(v)@.take(0) =~= Seq::<u64>::empty());
    while k < v.len()
        invariant
            v@ == old(v)@,
            k <= v@.len(),
            out@ == sorted(v@.take(k as int)),
        decreases v@.len() - k,
    {
        insert_sorted(&mut out, v[k]);
        k = k + 1;
        proof {
            assert(v@.take(k as int).drop_last() =~= v@.take(k - 1));
        }
    }
    assert(v@.take(k as int) =~= v@);
    *v = out;
}

/// Every pair of indices below `len`, smaller index first, ordered by the
/// first index and then by the second.
pub fn all_cross_iterator(len: usize) -> (pairs: Vec<(usize, usize)>)
    ensures
        pairs@ == cross_pairs(len as nat),
        forall|p: int| 0 <= p < pairs@.len() ==> (#[trigger] pairs@[p]).0 < pairs@[p].1 < len,
{
    let mut pairs: Vec<(usize, usize)> = Vec::new();
    let mut i: usize = 0;
    while i < len
        invariant
            i <= len,
            pairs@ == cross_prefix(len as nat, i as nat, 0),
            forall|p: int| 0 <= p < pairs@.len() ==> (#[trigger] pairs@[p]).0 < pairs@[p].1 < len,
        decreases len - i,
    {
        let mut j: usize = i + 1;
        while j < len
            invariant
                i < len,
                i + 1 <= j <= len,
                pairs@ == cross_prefix(len as nat, i as nat, j as nat),
                forall|p: int| 0 <= p < pairs@.len() ==> (#[trigger] pairs@[p]).0 < pairs@[p].1 < len,
            decreases len - j,
        {
            pairs.push((i, j));
            j = j + 1;
        }
        i = i + 1;
    }
    pairs
}

/// Records the crossings found between curves `i` and `j`, in the order
/// found.
pub fn push_intersections(
    direct_intersections: &mut Vec<Vec<u64>>,
    inverse_intersections: &mut FloatMatrix<(usize, u64)>,
    i: usize,
    j: usize,
    inters: &Vec<(u64, u64)>,
)
    requires
        i < old(direct_intersections)@.len(),
        j < old(direct_intersections)@.len(),
        old(inverse_intersections)@.len() == old(direct_intersections)@.len(),
    ensures
        (Record { direct: rows(final(direct_intersections)@), inverse: final(inverse_intersections)@ })
            == with_crossings(
            (Record { direct: rows(old(direct_intersections)@), inverse: old(inverse_intersections)@ }),
            i,
            j,
            inters@,
            inters@.len(),
        ),
        final(direct_intersections)@.len() == old(direct_intersections)@.len(),
        final(inverse_intersections)@.len() == old(inverse_intersections)@.len(),
{
    let ghost start = Record {
        direct: rows(direct_intersections@),
        inverse: inverse_intersections@,
    };
    let ghost n = direct_intersections@.len();
    let mut q: usize = 0;
    while q < inters.len()
        invariant
            q <= inters@.len(),
            i < n,
            j < n,
            direct_intersections@.len() == n,
            inverse_intersections@.len() == n,
            (Record { direct: rows(direct_intersections@), inverse: inverse_intersections@ })
                == with_crossings(start, i, j, inters@, q as nat),
        decreases inters@.len() - q,
    {
        let (t1, t2) = inters[q];
        let ghost before = Record {
            direct: rows(direct_intersections@),
            inverse: inverse_intersections@,
        };
        let ghost d0 = direct_intersections@;
        direct_intersections[i].push(t1);
        let ghost d1 = direct_intersections@;
        direct_intersections[j].push(t2);
        inverse_intersections.insert(j, t2, (i, t1));
        inverse_intersections.insert(i, t1, (j, t1));
        q = q + 1;
        proof {
            let after = with_crossing(before, i, j, t1, t2);
            assert(rows(d1) =~= before.direct.update(i as int, before.direct[i as int].push(t1)));
            assert(rows(direct_intersections@) =~= after.direct);
            assert(inverse_intersections@ == after.inverse);
        }
    }
}

/// The two ends are numbers, and the start is not behind the end.
pub proof fn lemma_ends()
    ensures
        !is_nan(ZERO),
        !is_nan(ONE),
        float_lt(ZERO, ONE),
{
    assert(0u64 & 0x7FFF_FFFF_FFFF_FFFFu64 == 0) by (bit_vector);
    assert(0x3FF0_0000_0000_0000u64 & 0x7FFF_FFFF_FFFF_FFFFu64 == 0x3FF0_0000_0000_0000u64)
        by (bit_vector);
    assert(0u64 & 0x8000_0000_0000_0000u64 == 0) by (bit_vector);
    assert(0x3FF0_0000_0000_0000u64 & 0x8000_0000_0000_0000u64 == 0) by (bit_vector);
}

/// A crossing list between its two ends holds the parameters of the list and
/// of both ends, each as often as it occurs, and is ascending where the list
/// holds numbers only.
pub proof fn lemma_with_ends(list: Seq<u64>)
    ensures
        with_ends(list).len() == list.len() + 2,
        with_ends(list).to_multiset() == list.to_multiset().insert(ZERO).insert(ONE),
        with_ends(list).contains(ZERO),
        with_ends(list).contains(ONE),
        all_numbers(list) ==> all_numbers(with_ends(list)) && ascending(with_ends(list)),
{
    let full = list.push(ZERO).push(ONE);
    lemma_sorted(full);
    lemma_ends();
    vstd::seq_lib::to_multiset_build(list, ZERO);
    vstd::seq_lib::to_multiset_build(list.push(ZERO), ONE);
    vstd::seq_lib::to_multiset_contains(with_ends(list), ZERO);
    vstd::seq_lib::to_multiset_contains(with_ends(list), ONE);
    if all_numbers(list) {
        assert forall|k: int| 0 <= k < full.len() implies !is_nan(#[trigger] full[k]) by {
            if k < list.len() {
                assert(full[k] == list[k]);
            }
        }
    }
}

/// Adds both ends to every crossing list and sorts it, list by list, and
/// stops with `None` at the first list that is empty.
pub fn sort_all(lists: &mut Vec<Vec<u64>>) -> (r: Option<()>)
    ensures
        final(lists)@.len() == old(lists)@.len(),
        r is Some <==> none_empty_through(rows(old(lists)@), old(lists)@.len() - 1),
        forall|l: int|
            0 <= l < old(lists)@.len() ==> #[trigger] rows(final(lists)@)[l] == (if none_empty_through(
                rows(old(lists)@),
                l,
            ) {
                with_ends(rows(old(lists)@)[l])
            } else {
                rows(old(lists)@)[l]
            }),
{
    let ghost before = rows(lists@);
    let n = lists.len();
    let mut l: usize = 0;
    while l < n
        invariant
            l <= n,
            n == lists@.len(),
            before == rows(old(lists)@),
            before.len() == n,
            none_empty_through(before, l - 1),
            forall|m: int| 0 <= m < l ==> #[trigger] rows(lists@)[m] == with_ends(before[m]),
            forall|m: int| l <= m < n ==> #[trigger] rows(lists@)[m] == before[m],
        decreases n - l,
    {
        let ghost current = rows(lists@);
        if lists[l].len() == 0 {
            proof {
                assert(current[l as int] == before[l as int]);
                assert(!none_empty_through(before, n - 1));
                assert forall|m: int| 0 <= m < n implies #[trigger] rows(lists@)[m] == (
                if none_empty_through(before, m) {
                    with_ends(before[m])
                } else {
                    before[m]
                }) by {
                    if m >= l {
                        assert(!none_empty_through(before, m));
                    }
                }
            }
            return None;
        }
        let mut list: Vec<u64> = Vec::new();
        std::mem::swap(&mut list, &mut lists[l]);
        list.push(ZERO);
        list.push(ONE);
        sort_floats(&mut list);
        std::mem::swap(&mut list, &mut lists[l]);
        proof {
            assert(current[l as int] == before[l as int]);
            assert forall|m: int| 0 <= m < l + 1 implies #[trigger] rows(lists@)[m] == with_ends(
                before[m],
            ) by {
                if m < l {
                    assert(rows(lists@)[m] == current[m]);
                }
            }
            assert forall|m: int| l + 1 <= m < n implies #[trigger] rows(lists@)[m] == before[m] by {
                assert(rows(lists@)[m] == current[m]);
            }
        }
        l = l + 1;
    }
    Some(())
}

/// What `make_intersection_lists` hands back for the record `rec` of all
/// crossings of `n` curves: every list between its ends, or nothing where a
/// curve crosses no other.
pub open spec fn finished(n: nat, rec: Record, r: Option<Intersections>) -> bool {
    &&& rec.direct.len() == n
    &&& match r {
        Some(out) => {
            &&& none_empty_through(rec.direct, rec.direct.len() - 1)
            &&& rows(out.direct_intersections@) == Seq::new(
                rec.direct.len(),
                |l: int| with_ends(rec.direct[l]),
            )
            &&& out.inverse_intersections@ == rec.inverse
        },
        None => !none_empty_through(rec.direct, rec.direct.len() - 1),
    }
}

/// All crossings of the curves, as `intersect` finds them for each pair: for
/// each curve its crossing parameters in ascending order between `0.0` and
/// `1.0`, and for each crossing the curve that is met. Nothing where some
/// curve crosses no other.
pub fn make_intersection_lists<C, I: Fn(&C, &C) -> Vec<(u64, u64)>>(curves: &[C], intersect: &I) -> (r:
    Option<Intersections>)
    requires
        forall|a: &C, b: &C| call_requires(intersect, (a, b)),
    ensures
        match r {
            Some(out) => {
                &&& out.direct_intersections@.len() == curves@.len()
                &&& out.inverse_intersections@.len() == curves@.len()
                &&& crossings_name_curves(out.inverse_intersections@, curves@.len() as nat)
            },
            None => true,
        },
        exists|found: Seq<Vec<(u64, u64)>>|
            found_by(intersect, curves@, cross_pairs(curves@.len() as nat), found) && finished(
                curves@.len() as nat,
                recorded(
                    curves@.len() as nat,
                    cross_pairs(curves@.len() as nat),
                    rows(found),
                    found.len(),
                ),
                r,
            ),
{
    let output = find_all_intersections(curves, intersect);
    let ghost found = choose|found: Seq<Vec<(u64, u64)>>|
        found_by(intersect, curves@, cross_pairs(curves@.len() as nat), found) && (Record {
            direct: rows(output.direct_intersections@),
            inverse: output.inverse_intersections@,
        }) == recorded(
            curves@.len() as nat,
            cross_pairs(curves@.len() as nat),
            rows(found),
            found.len(),
        );
    let ghost rec = recorded(
        curves@.len() as nat,
        cross_pairs(curves@.len() as nat),
        rows(found),
        found.len(),
    );
    let Intersections { direct_intersections, inverse_intersections } = output;
    let mut direct_intersections = direct_intersections;
    match sort_all(&mut direct_intersections) {
        Some(_) => {
            let out = Intersections { direct_intersections, inverse_intersections };
            proof {
                assert forall|l: int| 0 <= l < rec.direct.len() implies rows(
                    out.direct_intersections@,
                )[l] == with_ends(rec.direct[l]) by {
                    assert(none_empty_through(rec.direct, l));
                }
                assert(rows(out.direct_intersections@) =~= Seq::new(
                    rec.direct.len(),
                    |l: int| with_ends(rec.direct[l]),
                ));
                assert(finished(curves@.len() as nat, rec, Some(out)));
            }
            Some(out)
        },
        None => {
            proof {
                assert(finished(curves@.len() as nat, rec, None));
            }
            None
        },
    }
}

/// Each entry of `found` is what `intersect` gave for the pair of curves at
/// the same position of `pairs`.
pub open spec fn found_by<C, I: Fn(&C, &C) -> Vec<(u64, u64)>>(
    intersect: &I,
    curves: Seq<C>,
    pairs: Seq<(usize, usize)>,
    found: Seq<Vec<(u64, u64)>>,
) -> bool {
    &&& found.len() == pairs.len()
    &&& forall|p: int|
        0 <= p < pairs.len() ==> call_ensures(
            intersect,
            (&curves[pairs[p].0 as int], &curves[pairs[p].1 as int]),
            #[trigger] found[p],
        )
}

/// Asks `intersect` for the crossings of every pair of curves, pair by pair,
/// and records them.
pub fn find_all_intersections<C, I: Fn(&C, &C) -> Vec<(u64, u64)>>(curves: &[C], intersect: &I) -> (r:
    Intersections)
    requires
        forall|a: &C, b: &C| call_requires(intersect, (a, b)),
    ensures
        r.direct_intersections@.len() == curves@.len(),
        r.inverse_intersections@.len() == curves@.len(),
        crossings_name_curves(r.inverse_intersections@, curves@.len() as nat),
        exists|found: Seq<Vec<(u64, u64)>>|
            found_by(intersect, curves@, cross_pairs(curves@.len() as nat), found) && (Record {
                direct: rows(r.direct_intersections@),
                inverse: r.inverse_intersections@,
            }) == recorded(
                curves@.len() as nat,
                cross_pairs(curves@.len() as nat),
                rows(found),
                found.len(),
            ),
{
    let n = curves.len();
    let mut direct_intersections: Vec<Vec<u64>> = Vec::new();
    let mut l: usize = 0;
    while l < n
        invariant
            l <= n,
            direct_intersections@.len() == l,
            forall|k: int| 0 <= k < l ==> (#[trigger] direct_intersections@[k])@ == Seq::<u64>::empty(),
        decreases n - l,
    {
        direct_intersections.push(Vec::new());
        l = l + 1;
    }
    let mut inverse_intersections: FloatMatrix<(usize, u64)> = FloatMatrix::new(n);
    let pairs = all_cross_iterator(n);
    let ghost mut found: Seq<Vec<(u64, u64)>> = Seq::empty();
    let mut p: usize = 0;
    proof {
        assert(rows(direct_intersections@) =~= no_crossings(n as nat).direct);
        assert(inverse_intersections@ =~= no_crossings(n as nat).inverse);
    }
    while p < pairs.len()
        invariant
            n == curves@.len(),
            p <= pairs@.len(),
            pairs@ == cross_pairs(n as nat),
            forall|k: int| 0 <= k < pairs@.len() ==> (#[trigger] pairs@[k]).0 < pairs@[k].1 < n,
            forall|a: &C, b: &C| call_requires(intersect, (a, b)),
            direct_intersections@.len() == n,
            inverse_intersections@.len() == n,
            crossings_name_curves(inverse_intersections@, n as nat),
            found.len() == p,
            forall|k: int|
                0 <= k < p ==> call_ensures(
                    intersect,
                    (&curves@[pairs@[k].0 as int], &curves@[pairs@[k].1 as int]),
                    #[trigger] found[k],
                ),
            (Record { direct: rows(direct_intersections@), inverse: inverse_intersections@ })
                == recorded(n as nat, pairs@, rows(found), p as nat),
        decreases pairs@.len() - p,
    {
        let (i, j) = pairs[p];
        assert(pairs@[p as int].0 < pairs@[p as int].1 < n);
        let inters = intersect(&curves[i], &curves[j]);
        let ghost before = Record {
            direct: rows(direct_intersections@),
            inverse: inverse_intersections@,
        };
        let ghost old_found = found;
        push_intersections(&mut direct_intersections, &mut inverse_intersections, i, j, &inters);
        proof {
            found = found.push(inters);
            assert(rows(found)[p as int] == inters@);
            lemma_recorded_prefix(n as nat, pairs@, rows(old_found), rows(found), p as nat);
            lemma_crossings_name_curves(before, i, j, inters@, inters@.len(), n as nat);
        }
        p = p + 1;
    }
    proof {
        assert(found_by(intersect, curves@, cross_pairs(n as nat), found));
    }
    Intersections { direct_intersections, inverse_intersections }
}

/// The smaller index of a pair comes first, both are below `n`, and the
/// pairs are ordered by their first index.
pub open spec fn pairs_ordered(pairs: Seq<(usize, usize)>, n: nat) -> bool {
    &&& forall|p: int| 0 <= p < pairs.len() ==> (#[trigger] pairs[p]).0 < pairs[p].1 < n
    &&& forall|a: int, b: int|
        0 <= a <= b < pairs.len() ==> (#[trigger] pairs[a]).0 <= (#[trigger] pairs[b]).0
}

proof fn lemma_cross_prefix(n: nat, i: nat, j: nat)
    requires
        n <= usize::MAX,
        i <= n,
        j <= n,
    ensures
        pairs_ordered(cross_prefix(n, i, j), n),
        forall|p: int| 0 <= p < cross_prefix(n, i, j).len() ==> (#[trigger] cross_prefix(n, i, j)[p]).0 <= i,
    decreases i, j,
{
    let now = cross_prefix(n, i, j);
    if j > i + 1 {
        let before = cross_prefix(n, i, (j - 1) as nat);
        lemma_cross_prefix(n, i, (j - 1) as nat);
        assert forall|p: int| 0 <= p < now.len() implies (#[trigger] now[p]).0 < now[p].1 < n && now[p].0
            <= i by {
            if p < before.len() {
                assert(now[p] == before[p]);
            }
        }
        assert forall|a: int, b: int| 0 <= a <= b < now.len() implies (#[trigger] now[a]).0 <= (
        #[trigger] now[b]).0 by {
            if b < before.len() {
                assert(now[a] == before[a] && now[b] == before[b]);
            } else if a < before.len() {
                assert(now[a] == before[a]);
            }
        }
    } else if i > 0 {
        lemma_cross_prefix(n, (i - 1) as nat, n);
    }
}

/// The pairs of curves are asked in the order of their first curve.
pub proof fn lemma_cross_pairs_ordered(n: nat)
    requires
        n <= usize::MAX,
    ensures
        pairs_ordered(cross_pairs(n), n),
{
    lemma_cross_prefix(n, n, 0);
}

proof fn lemma_crossings_keep_later(
    r: Record,
    i: usize,
    j: usize,
    found: Seq<(u64, u64)>,
    q: nat,
    c: int,
    t: u64,
)
    requires
        i < j < r.inverse.len(),
        0 <= c < r.inverse.len(),
        j != c,
        q <= found.len(),
        r.inverse[c].contains_key(t),
        r.inverse[c][t].0 > c,
    ensures
        with_crossings(r, i, j, found, q).inverse.len() == r.inverse.len(),
        with_crossings(r, i, j, found, q).inverse[c].contains_key(t),
        with_crossings(r, i, j, found, q).inverse[c][t].0 > c,
    decreases q,
{
    if q > 0 {
        lemma_crossings_keep_later(r, i, j, found, (q - 1) as nat, c, t);
    }
}

proof fn lemma_crossings_name_later(r: Record, i: usize, j: usize, found: Seq<(u64, u64)>, q: nat, at: int)
    requires
        i < j < r.inverse.len(),
        q <= found.len(),
        0 <= at < q,
    ensures
        with_crossings(r, i, j, found, q).inverse.len() == r.inverse.len(),
        with_crossings(r, i, j, found, q).inverse[i as int].contains_key(found[at].0),
        with_crossings(r, i, j, found, q).inverse[i as int][found[at].0].0 > i,
    decreases q,
{
    let before = with_crossings(r, i, j, found, (q - 1) as nat);
    if at < q - 1 {
        lemma_crossings_name_later(r, i, j, found, (q - 1) as nat, at);
    } else {
        if q > 1 {
            lemma_crossings_name_later(r, i, j, found, (q - 1) as nat, 0);
        }
        assert(before.inverse.len() == r.inverse.len());
    }
}

proof fn lemma_recorded_len(n: nat, pairs: Seq<(usize, usize)>, found: Seq<Seq<(u64, u64)>>, p: nat)
    requires
        pairs_ordered(pairs, n),
        p <= pairs.len(),
        p <= found.len(),
    ensures
        recorded(n, pairs, found, p).inverse.len() == n,
    decreases p,
{
    if p > 0 {
        lemma_recorded_len(n, pairs, found, (p - 1) as nat);
        let before = recorded(n, pairs, found, (p - 1) as nat);
        assert(pairs[p - 1].0 < pairs[p - 1].1 < n);
        if found[p - 1].len() > 0 {
            lemma_crossings_name_later(
                before,
                pairs[p - 1].0,
                pairs[p - 1].1,
                found[p - 1],
                found[p - 1].len(),
                0,
            );
        }
    }
}

/// What is recorded for a crossing parameter of the first curve of a pair
/// names a later curve, whatever is recorded afterwards.
pub proof fn lemma_first_names_later(
    n: nat,
    pairs: Seq<(usize, usize)>,
    found: Seq<Seq<(u64, u64)>>,
    p: nat,
    pair: int,
    at: int,
)
    requires
        pairs_ordered(pairs, n),
        p <= pairs.len(),
        p <= found.len(),
        0 <= pair < p,
        0 <= at < found[pair].len(),
    ensures
        recorded(n, pairs, found, p).inverse[pairs[pair].0 as int].contains_key(found[pair][at].0),
        recorded(n, pairs, found, p).inverse[pairs[pair].0 as int][found[pair][at].0].0
            > pairs[pair].0,
    decreases p,
{
    let before = recorded(n, pairs, found, (p - 1) as nat);
    let i = pairs[p - 1].0;
    let j = pairs[p - 1].1;
    lemma_recorded_len(n, pairs, found, (p - 1) as nat);
    assert(pairs[p - 1].0 < pairs[p - 1].1 < n);
    if pair == p - 1 {
        lemma_crossings_name_later(before, i, j, found[p - 1], found[p - 1].len(), at);
    } else {
        lemma_first_names_later(n, pairs, found, (p - 1) as nat, pair, at);
        assert(pairs[pair].0 <= pairs[p - 1].0);
        assert(pairs[pair].0 < pairs[pair].1 < n);
        lemma_crossings_keep_later(
            before,
            i,
            j,
            found[p - 1],
            found[p - 1].len(),
            pairs[pair].0 as int,
            found[pair][at].0,
        );
    }
}

/// The record of the first `p` pairs depends on what was found for these
/// pairs alone.
proof fn lemma_recorded_prefix(
    n: nat,
    pairs: Seq<(usize, usize)>,
    found_a: Seq<Seq<(u64, u64)>>,
    found_b: Seq<Seq<(u64, u64)>>,
    p: nat,
)
    requires
        p <= found_a.len(),
        p <= found_b.len(),
        forall|k: int| 0 <= k < p ==> found_a[k] == found_b[k],
    ensures
        recorded(n, pairs, found_a, p) == recorded(n, pairs, found_b, p),
    decreases p,
{
    if p > 0 {
        lemma_recorded_prefix(n, pairs, found_a, found_b, (p - 1) as nat);
    }
}

/// Recording crossings between two of `n` curves keeps one entry per curve and
/// names none but these curves.
proof fn lemma_crossings_name_curves(r: Record, i: usize, j: usize, found: Seq<(u64, u64)>, q: nat, n: nat)
    requires
        i < n,
        j < n,
        r.inverse.len() == n,
        crossings_name_curves(r.inverse, n),
        q <= found.len(),
    ensures
        with_crossings(r, i, j, found, q).inverse.len() == n,
        crossings_name_curves(with_crossings(r, i, j, found, q).inverse, n),
    decreases q,
{
    if q > 0 {
        lemma_crossings_name_curves(r, i, j, found, (q - 1) as nat, n);
        let before = with_crossings(r, i, j, found, (q - 1) as nat);
        let after = with_crossings(r, i, j, found, q);
        assert forall|l: int, t: u64|
            0 <= l < after.inverse.len() && after.inverse[l].contains_key(t) implies (
        #[trigger] after.inverse[l][t]).0 < n by {
            if before.inverse[l].contains_key(t) && before.inverse[l][t] == after.inverse[l][t] {
                assert(before.inverse[l][t].0 < n);
            }
        }
    }
}

} // verus!
