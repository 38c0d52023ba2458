//! The capture table: for each board position, the neighbor combinations a
//! capture move may remove, in a fixed generation order.
//!
//! Neighbors are the orthogonally adjacent cells of the 3x3 grid: corners
//! have 2 neighbors, edge cells 3, the center 4. A position's combinations
//! are all its 2-element neighbor subsets, then (with at least 3 neighbors)
//! all 3-element subsets, then (center only) the single 4-element subset,
//! each listed in neighbor-index order.

use vstd::prelude::*;

verus! {

/// One position's capture combinations; each combination lists the neighbor
/// positions it would clear.
pub struct CaptureSet {
    pub combos: Vec<Vec<usize>>,
}

/// The capture combinations of position `pos`, in generation order: pairs in
/// neighbor-index order, then triples, then the full quadruple at the center.
pub open spec fn combos_at(pos: int) -> Seq<Seq<usize>>
    recommends
        0 <= pos < 9,
{
    if pos == 0 {
        seq![seq![1usize, 3]]
    } else if pos == 1 {
        seq![seq![0usize, 2], seq![0usize, 4], seq![2usize, 4], seq![0usize, 2, 4]]
    } else if pos == 2 {
        seq![seq![1usize, 5]]
    } else if pos == 3 {
        seq![seq![0usize, 4], seq![0usize, 6], seq![4usize, 6], seq![0usize, 4, 6]]
    } else if pos == 4 {
        seq![
            seq![1usize, 3],
            seq![1usize, 5],
            seq![1usize, 7],
            seq![3usize, 5],
            seq![3usize, 7],
            seq![5usize, 7],
            seq![1usize, 3, 5],
            seq![1usize, 3, 7],
            seq![1usize, 5, 7],
            seq![3usize, 5, 7],
            seq![1usize, 3, 5, 7],
        ]
    } else if pos == 5 {
        seq![seq![2usize, 4], seq![2usize, 8], seq![4usize, 8], seq![2usize, 4, 8]]
    } else if pos == 6 {
        seq![seq![3usize, 7]]
    } else if pos == 7 {
        seq![seq![4usize, 6], seq![4usize, 8], seq![6usize, 8], seq![4usize, 6, 8]]
    } else {
        seq![seq![5usize, 7]]
    }
}

/// The combinations of one position agree, element for element, with their
/// specification.
pub open spec fn combos_match(cs: Seq<Vec<usize>>, model: Seq<Seq<usize>>) -> bool {
    cs.len() == model.len() && forall|i: int| 0 <= i < cs.len() ==> (#[trigger] cs[i])@ == model[i]
}

/// The whole table agrees with `combos_at` at every position.
pub open spec fn table_matches(t: Seq<CaptureSet>) -> bool {
    t.len() == 9 && forall|p: int| 0 <= p < 9 ==> combos_match((#[trigger] t[p]).combos@, combos_at(p))
}

/// Every capture combination names 2 to 4 distinct in-range positions.
pub proof fn lemma_combos_at_wf(pos: int, i: int)
    requires
        0 <= pos < 9,
        0 <= i < combos_at(pos).len(),
    ensures
        2 <= combos_at(pos)[i].len() <= 4,
        forall|k: int| 0 <= k < combos_at(pos)[i].len() ==> (#[trigger] combos_at(pos)[i][k]) < 9,
{
}

/// The table's completeness counts: the center's 4 neighbors give
/// 6 pairs + 4 triples + 1 quadruple = 11 combinations, a 3-neighbor edge
/// position 3 pairs + 1 triple = 4, a 2-neighbor corner the single pair.
pub proof fn lemma_capture_table_sizes()
    ensures
        combos_at(4).len() == 11,
        forall|p: int| p == 1 || p == 3 || p == 5 || p == 7 ==> (#[trigger] combos_at(p)).len() == 4,
        forall|p: int| p == 0 || p == 2 || p == 6 || p == 8 ==> (#[trigger] combos_at(p)).len() == 1,
{
    assert(combos_at(1).len() == 4);
    assert(combos_at(3).len() == 4);
    assert(combos_at(5).len() == 4);
    assert(combos_at(7).len() == 4);
    assert(combos_at(0).len() == 1);
    assert(combos_at(2).len() == 1);
    assert(combos_at(6).len() == 1);
    assert(combos_at(8).len() == 1);
}

fn pair(a: usize, b: usize) -> (r: Vec<usize>)
    ensures
        r@ == seq![a, b],
{
    let mut v: Vec<usize> = Vec::new();
    v.push(a);
    v.push(b);
    proof {
        assert(v@ =~= seq![a, b]);
    }
    v
}

fn triple(a: usize, b: usize, c: usize) -> (r: Vec<usize>)
    ensures
        r@ == seq![a, b, c],
{
    let mut v: Vec<usize> = Vec::new();
    v.push(a);
    v.push(b);
    v.push(c);
    proof {
        assert(v@ =~= seq![a, b, c]);
    }
    v
}

fn corner_set(a: usize, b: usize) -> (r: CaptureSet)
    ensures
        combos_match(r.combos@, seq![seq![a, b]]),
{
    let mut combos: Vec<Vec<usize>> = Vec::new();
    combos.push(pair(a, b));
    CaptureSet { combos }
}

fn edge_set(a: usize, b: usize, c: usize) -> (r: CaptureSet)
    ensures
        combos_match(r.combos@, seq![seq![a, b], seq![a, c], seq![b, c], seq![a, b, c]]),
{
    let mut combos: Vec<Vec<usize>> = Vec::new();
    combos.push(pair(a, b));
    combos.push(pair(a, c));
    combos.push(pair(b, c));
    combos.push(triple(a, b, c));
    CaptureSet { combos }
}

fn center_set() -> (r: CaptureSet)
    ensures
        combos_match(r.combos@, combos_at(4)),
{
    let mut combos: Vec<Vec<usize>> = Vec::new();
    combos.push(pair(1, 3));
    combos.push(pair(1, 5));
    combos.push(pair(1, 7));
    combos.push(pair(3, 5));
    combos.push(pair(3, 7));
    combos.push(pair(5, 7));
    combos.push(triple(1, 3, 5));
    combos.push(triple(1, 3, 7));
    combos.push(triple(1, 5, 7));
    combos.push(triple(3, 5, 7));
    let mut quad: Vec<usize> = Vec::new();
    quad.push(1);
    quad.push(3);
    quad.push(5);
    quad.push(7);
    proof {
        assert(quad@ =~= seq![1usize, 3, 5, 7]);
    }
    combos.push(quad);
    CaptureSet { combos }
}

/// Builds the capture table for all nine positions.
pub fn precompute_captures() -> (table: Vec<CaptureSet>)
    ensures
        table_matches(table@),
{
    let mut table: Vec<CaptureSet> = Vec::new();
    table.push(corner_set(1, 3));
    table.push(edge_set(0, 2, 4));
    table.push(corner_set(1, 5));
    table.push(edge_set(0, 4, 6));
    table.push(center_set());
    table.push(edge_set(2, 4, 8));
    table.push(corner_set(3, 7));
    table.push(edge_set(4, 6, 8));
    table.push(corner_set(5, 7));
    table
}

} // verus!
