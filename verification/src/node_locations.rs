//! The node parameters of each curve: its crossing parameters, with the gaps
//! between them subdivided.

use vstd::prelude::*;
use crate::build_lines::{paired, rows};
use crate::float_bits::float_lt;
use crate::lines_to_graph::segments;

verus! {

/// The parameters behind the first `g` gaps of `inter`: for each gap the
/// parameters put into it, then the parameter that ends it.
pub open spec fn joined(inter: Seq<u64>, pieces: Seq<Seq<u64>>, g: nat) -> Seq<u64>
    decreases g,
{
    if g == 0 {
        Seq::empty()
    } else {
        (joined(inter, pieces, (g - 1) as nat) + pieces[g - 1]).push(inter[g as int])
    }
}

/// Each piece is what `subdivide` gave for the two ends of its gap and the
/// number of nodes that are still to be placed on the curve.
pub open spec fn subdivided_by<S: Fn(u64, u64, usize) -> Vec<u64>>(
    subdivide: &S,
    inter: Seq<u64>,
    rem: usize,
    pieces: Seq<Vec<u64>>,
) -> bool {
    &&& pieces.len() == segments(inter.len())
    &&& forall|g: int|
        0 <= g < pieces.len() ==> call_ensures(
            subdivide,
            (inter[g], inter[g + 1], rem),
            #[trigger] pieces[g],
        )
}

/// What `generate_node` hands back for the pieces `pieces`.
pub open spec fn nodes_of<S: Fn(u64, u64, usize) -> Vec<u64>>(
    subdivide: &S,
    inter: Seq<u64>,
    count: usize,
    pieces: Seq<Vec<u64>>,
    out: Seq<u64>,
) -> bool {
    &&& inter.len() <= count
    &&& subdivided_by(subdivide, inter, (count - inter.len()) as usize, pieces)
    &&& out == joined(inter, rows(pieces), segments(inter.len()))
}

/// The length of the joined parameters: one for each gap, and what was put
/// into the gaps.
pub open spec fn joined_len(pieces: Seq<Seq<u64>>, g: nat) -> nat
    decreases g,
{
    if g == 0 {
        0
    } else {
        joined_len(pieces, (g - 1) as nat) + pieces[g - 1].len() + 1
    }
}

/// The node parameters are as many as the gaps and what was put into them.
pub proof fn lemma_joined_len(inter: Seq<u64>, pieces: Seq<Seq<u64>>, g: nat)
    ensures
        joined(inter, pieces, g).len() == joined_len(pieces, g),
    decreases g,
{
    if g > 0 {
        lemma_joined_len(inter, pieces, (g - 1) as nat);
    }
}

/// The joined parameters of the first `g` gaps depend on the pieces of these
/// gaps alone.
proof fn lemma_joined_prefix(inter: Seq<u64>, pieces_a: Seq<Seq<u64>>, pieces_b: Seq<Seq<u64>>, g: nat)
    requires
        g <= pieces_a.len(),
        g <= pieces_b.len(),
        forall|k: int| 0 <= k < g ==> pieces_a[k] == pieces_b[k],
    ensures
        joined(inter, pieces_a, g) == joined(inter, pieces_b, g),
    decreases g,
{
    if g > 0 {
        lemma_joined_prefix(inter, pieces_a, pieces_b, (g - 1) as nat);
    }
}

/// Every element is less than each later one.
pub open spec fn strictly_ascending(s: Seq<u64>) -> bool {
    forall|a: int, b: int| 0 <= a < b < s.len() ==> float_lt(#[trigger] s[a], #[trigger] s[b])
}

/// Every element lies behind `low` and not behind `high`.
pub open spec fn within(s: Seq<u64>, low: u64, high: u64) -> bool {
    forall|k: int| 0 <= k < s.len() ==> behind(low, #[trigger] s[k], high)
}

/// `x` is greater than `low` and at most `high`.
pub open spec fn behind(low: u64, x: u64, high: u64) -> bool {
    float_lt(low, x) && (float_lt(x, high) || x == high)
}

/// Every element lies strictly between `low` and `high`.
pub open spec fn inside(s: Seq<u64>, low: u64, high: u64) -> bool {
    forall|k: int| 0 <= k < s.len() ==> float_lt(low, #[trigger] s[k]) && float_lt(s[k], high)
}

/// Each piece is strictly ascending and lies strictly inside its gap.
pub open spec fn pieces_fit(inter: Seq<u64>, pieces: Seq<Seq<u64>>, g: nat) -> bool {
    forall|q: int|
        0 <= q < g ==> strictly_ascending(#[trigger] pieces[q]) && inside(
            pieces[q],
            inter[q],
            inter[q + 1],
        )
}

/// Where the crossing parameters are strictly ascending and every piece is
/// strictly ascending inside its gap, the node parameters are strictly
/// ascending, greater than the first crossing parameter and at most the last.
pub proof fn lemma_joined_ascending(inter: Seq<u64>, pieces: Seq<Seq<u64>>, g: nat)
    requires
        g < inter.len(),
        g <= pieces.len(),
        strictly_ascending(inter),
        pieces_fit(inter, pieces, g),
    ensures
        strictly_ascending(joined(inter, pieces, g)),
        within(joined(inter, pieces, g), inter[0], inter[g as int]),
    decreases g,
{
    let now = joined(inter, pieces, g);
    if g > 0 {
        let before = joined(inter, pieces, (g - 1) as nat);
        let piece = pieces[g - 1];
        let low = inter[g - 1];
        let high = inter[g as int];
        assert(pieces_fit(inter, pieces, (g - 1) as nat));
        lemma_joined_ascending(inter, pieces, (g - 1) as nat);
        assert(strictly_ascending(piece) && inside(piece, low, high));
        assert(float_lt(low, high));
        assert(g - 1 == 0 || float_lt(inter[0], low));
        assert forall|k: int| 0 <= k < now.len() implies behind(inter[0], #[trigger] now[k], high) by {
            if k < before.len() {
                assert(now[k] == before[k]);
                assert(behind(inter[0], before[k], low));
            } else if k < before.len() + piece.len() {
                assert(now[k] == piece[k - before.len()]);
                assert(float_lt(low, piece[k - before.len()]));
            } else {
                assert(now[k] == high);
            }
        }
        assert forall|a: int, b: int| 0 <= a < b < now.len() implies float_lt(
            #[trigger] now[a],
            #[trigger] now[b],
        ) by {
            if b < before.len() {
                assert(now[a] == before[a] && now[b] == before[b]);
            } else {
                if b < before.len() + piece.len() {
                    assert(now[b] == piece[b - before.len()]);
                    assert(float_lt(low, piece[b - before.len()]));
                } else {
                    assert(now[b] == high);
                }
                if a < before.len() {
                    assert(now[a] == before[a]);
                    assert(behind(inter[0], before[a], low));
                } else {
                    assert(now[a] == piece[a - before.len()]);
                    assert(float_lt(piece[a - before.len()], high));
                    if b < before.len() + piece.len() {
                        assert(float_lt(piece[a - before.len()], piece[b - before.len()]));
                    }
                }
            }
        }
    }
}

/// The node parameters of one curve with crossing parameters `inter`: behind
/// each parameter but the first, what `subdivide` puts into the gap before it
/// and then the parameter itself. Nothing where the curve has more crossing
/// parameters than it shall have nodes.
pub fn generate_node<S: Fn(u64, u64, usize) -> Vec<u64>>(inter: Vec<u64>, count: usize, subdivide: &S) -> (r:
    Option<Vec<u64>>)
    requires
        forall|a: u64, b: u64, rem: usize| call_requires(subdivide, (a, b, rem)),
    ensures
        r is Some <==> inter@.len() <= count,
        match r {
            Some(out) => exists|pieces: Seq<Vec<u64>>|
                #[trigger] nodes_of(subdivide, inter@, count, pieces, out@),
            None => true,
        },
{
    if count < inter.len() {
        return None;
    }
    let rem = count - inter.len();
    let mut output: Vec<u64> = Vec::new();
    let ghost mut pieces: Seq<Vec<u64>> = Seq::empty();
    let gaps = if inter.len() == 0 {
        0
    } else {
        inter.len() - 1
    };
    let mut g: usize = 0;
    while g < gaps
        invariant
            g <= gaps,
            gaps == segments(inter@.len()),
            forall|a: u64, b: u64, rem: usize| call_requires(subdivide, (a, b, rem)),
            pieces.len() == g,
            forall|k: int|
                0 <= k < g ==> call_ensures(
                    subdivide,
                    (inter@[k], inter@[k + 1], rem),
                    #[trigger] pieces[k],
                ),
            output@ == joined(inter@, rows(pieces), g as nat),
        decreases gaps - g,
    {
        let prev = inter[g];
        let curr = inter[g + 1];
        let piece = subdivide(prev, curr, rem);
        let ghost before = output@;
        let ghost before_pieces = pieces;
        let mut k: usize = 0;
        while k < piece.len()
            invariant
                k <= piece@.len(),
                output@ == before + piece@.take(k as int),
            decreases piece@.len() - k,
        {
            output.push(piece[k]);
            k = k + 1;
            assert(output@ =~= before + piece@.take(k as int));
        }
        output.push(curr);
        proof {
            assert(piece@.take(piece@.len() as int) =~= piece@);
            pieces = pieces.push(piece);
            assert(rows(pieces)[g as int] == piece@);
            lemma_joined_prefix(inter@, rows(before_pieces), rows(pieces), g as nat);
        }
        g = g + 1;
    }
    proof {
        assert(subdivided_by(subdivide, inter@, rem, pieces));
        assert(nodes_of(subdivide, inter@, count, pieces, output@));
    }
    let result = Some(output);
    proof {
        assert(nodes_of(subdivide, inter@, count, pieces, (result->0)@));
    }
    result
}

/// Every paired curve has at most as many crossing parameters as it shall
/// have nodes.
pub open spec fn counts_suffice(inters: Seq<Seq<u64>>, counts: Seq<usize>, m: int) -> bool {
    forall|l: int| 0 <= l < m ==> (#[trigger] inters[l]).len() <= counts[l]
}

/// What `generate_node_lists` hands back for the pieces `pieces`.
pub open spec fn node_lists_of<S: Fn(u64, u64, usize) -> Vec<u64>>(
    subdivide: &S,
    inters: Seq<Seq<u64>>,
    counts: Seq<usize>,
    pieces: Seq<Seq<Vec<u64>>>,
    out: Seq<Seq<u64>>,
) -> bool {
    &&& out.len() == paired(inters.len(), counts.len())
    &&& pieces.len() == out.len()
    &&& forall|l: int|
        0 <= l < out.len() ==> nodes_of(subdivide, inters[l], counts[l], pieces[l], #[trigger] out[l])
}

/// The node parameters of every curve that has a node count, curve by curve.
/// Nothing where some curve has more crossing parameters than it shall have
/// nodes.
pub fn generate_node_lists<S: Fn(u64, u64, usize) -> Vec<u64>>(
    inters: Vec<Vec<u64>>,
    counts: Vec<usize>,
    subdivide: &S,
) -> (r: Option<Vec<Vec<u64>>>)
    requires
        forall|a: u64, b: u64, rem: usize| call_requires(subdivide, (a, b, rem)),
    ensures
        r is Some <==> counts_suffice(
            rows(inters@),
            counts@,
            paired(inters@.len(), counts@.len()) as int,
        ),
        match r {
            Some(out) => exists|pieces: Seq<Seq<Vec<u64>>>|
                node_lists_of(subdivide, rows(inters@), counts@, pieces, rows(out@)),
            None => true,
        },
{
    let m = if counts.len() < inters.len() {
        counts.len()
    } else {
        inters.len()
    };
    let ghost given = rows(inters@);
    assert(given.len() == inters@.len());
    let mut lists = inters;
    let mut output: Vec<Vec<u64>> = Vec::new();
    let ghost mut pieces: Seq<Seq<Vec<u64>>> = Seq::empty();
    let mut l: usize = 0;
    while l < m
        invariant
            l <= m,
            m == paired(given.len(), counts@.len()),
            given == rows(inters@),
            lists@.len() == given.len(),
            forall|k: int| l <= k < given.len() ==> #[trigger] rows(lists@)[k] == given[k],
            forall|a: u64, b: u64, rem: usize| call_requires(subdivide, (a, b, rem)),
            counts_suffice(given, counts@, l as int),
            output@.len() == l,
            pieces.len() == l,
            forall|k: int|
                0 <= k < l ==> nodes_of(
                    subdivide,
                    given[k],
                    counts@[k],
                    pieces[k],
                    #[trigger] rows(output@)[k],
                ),
        decreases m - l,
    {
        let ghost current = rows(lists@);
        let mut inter: Vec<u64> = Vec::new();
        std::mem::swap(&mut inter, &mut lists[l]);
        proof {
            assert(current[l as int] == given[l as int]);
            assert forall|k: int| l + 1 <= k < given.len() implies #[trigger] rows(lists@)[k]
                == given[k] by {
                assert(rows(lists@)[k] == current[k]);
            }
        }
        let ghost before = output@;
        let ghost before_pieces = pieces;
        let made = generate_node(inter, counts[l], subdivide);
        match made {
            Some(nodes) => {
                proof {
                    let piece = choose|piece: Seq<Vec<u64>>|
                        nodes_of(subdivide, given[l as int], counts@[l as int], piece, nodes@);
                    pieces = pieces.push(piece);
                }
                output.push(nodes);
                proof {
                    assert forall|k: int| 0 <= k < l + 1 implies nodes_of(
                        subdivide,
                        given[k],
                        counts@[k],
                        pieces[k],
                        #[trigger] rows(output@)[k],
                    ) by {
                        if k < l {
                            assert(rows(output@)[k] == rows(before)[k]);
                            assert(pieces[k] == before_pieces[k]);
                        }
                    }
                }
            },
            None => {
                proof {
                    assert(!(given[l as int].len() <= counts@[l as int]));
                    assert(!counts_suffice(given, counts@, m as int));
                }
                return None;
            },
        }
        l = l + 1;
    }
    let result = Some(output);
    proof {
        assert(node_lists_of(subdivide, given, counts@, pieces, rows((result->0)@)));
    }
    result
}

} // verus!
