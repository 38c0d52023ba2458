//! The per-depth frontier: a mapping from board state to the number of move
//! sequences ("ways") that reach it, kept as an association list with
//! pairwise-distinct keys and counts reduced modulo `MODULUS`.

use vstd::prelude::*;

use crate::codec::MODULUS;

verus! {

/// One frontier of the search: each entry pairs a board state with its
/// path-count at the current depth.
pub struct Frontier {
    pub entries: Vec<(u32, u32)>,
}

impl View for Frontier {
    type V = Seq<(u32, u32)>;

    open spec fn view(&self) -> Seq<(u32, u32)> {
        self.entries@
    }
}

/// No two entries share a board state: states are keys.
pub open spec fn keys_distinct(s: Seq<(u32, u32)>) -> bool {
    forall|i: int, j: int| 0 <= i < j < s.len() ==> s[i].0 != s[j].0
}

/// Every stored path-count is already reduced modulo `MODULUS`.
pub open spec fn counts_reduced(s: Seq<(u32, u32)>) -> bool {
    forall|i: int| 0 <= i < s.len() ==> (#[trigger] s[i]).1 < MODULUS
}

/// Well-formedness of a frontier: distinct state keys, reduced counts.
pub open spec fn frontier_wf(s: Seq<(u32, u32)>) -> bool {
    keys_distinct(s) && counts_reduced(s)
}

/// Modular addition of two path-counts.
pub open spec fn add_mod(a: u32, b: u32) -> u32 {
    (((a + b) % (MODULUS as int))) as u32
}

/// The frontier after merging `ways` paths leading to `state`: if `state` is
/// already present its count grows by `ways` modulo `MODULUS`, otherwise
/// `(state, ways % MODULUS)` is appended.
pub open spec fn merged(s: Seq<(u32, u32)>, state: u32, ways: u32) -> Seq<(u32, u32)>
    decreases s.len(),
{
    if s.len() == 0 {
        seq![(state, (ways as int % (MODULUS as int)) as u32)]
    } else if s[0].0 == state {
        seq![(state, add_mod(s[0].1, ways))] + s.subrange(1, s.len() as int)
    } else {
        seq![s[0]] + merged(s.subrange(1, s.len() as int), state, ways)
    }
}

proof fn lemma_merged_found(s: Seq<(u32, u32)>, state: u32, ways: u32, i: int)
    requires
        0 <= i < s.len(),
        s[i].0 == state,
        forall|j: int| 0 <= j < i ==> s[j].0 != state,
    ensures
        merged(s, state, ways) == s.update(i, (state, add_mod(s[i].1, ways))),
    decreases s.len(),
{
    if i == 0 {
        assert(merged(s, state, ways) =~= s.update(0, (state, add_mod(s[0].1, ways))));
    } else {
        let tail = s.subrange(1, s.len() as int);
        lemma_merged_found(tail, state, ways, i - 1);
        assert(merged(s, state, ways) =~= s.update(i, (state, add_mod(s[i].1, ways))));
    }
}

proof fn lemma_merged_absent(s: Seq<(u32, u32)>, state: u32, ways: u32)
    requires
        forall|j: int| 0 <= j < s.len() ==> s[j].0 != state,
    ensures
        merged(s, state, ways) == s.push((state, (ways as int % (MODULUS as int)) as u32)),
    decreases s.len(),
{
    if s.len() == 0 {
        assert(merged(s, state, ways) =~= s.push((state, (ways as int % (MODULUS as int)) as u32)));
    } else {
        let tail = s.subrange(1, s.len() as int);
        lemma_merged_absent(tail, state, ways);
        assert(merged(s, state, ways) =~= s.push((state, (ways as int % (MODULUS as int)) as u32)));
    }
}

impl Frontier {
    /// An empty frontier.
    pub fn new() -> (r: Frontier)
        ensures
            r@ == Seq::<(u32, u32)>::empty(),
    {
        let r = Frontier { entries: Vec::new() };
        proof {
            assert(r@ =~= Seq::<(u32, u32)>::empty());
        }
        r
    }
}

/// Merges `ways` incoming paths to `state` into the frontier: an existing
/// entry's count is increased modulo `MODULUS`, a missing state is inserted
/// with its count reduced modulo `MODULUS`.
pub fn add_to_map(dp: &mut Frontier, state: u32, ways: u32)
    requires
        frontier_wf(old(dp)@),
    ensures
        final(dp)@ == merged(old(dp)@, state, ways),
        frontier_wf(final(dp)@),
{
    let n = dp.entries.len();
    let mut i: usize = 0;
    while i < n
        invariant
            n == dp.entries.len(),
            i <= n,
            dp@ == old(dp)@,
            frontier_wf(dp@),
            forall|j: int| 0 <= j < i ==> dp@[j].0 != state,
        decreases n - i,
    {
        if dp.entries[i].0 == state {
            let c = dp.entries[i].1;
            let merged_count = (((c as u64) + (ways as u64)) % (MODULUS as u64)) as u32;
            dp.entries[i] = (state, merged_count);
            proof {
                lemma_merged_found(old(dp)@, state, ways, i as int);
                assert(dp@ == old(dp)@.update(i as int, (state, add_mod(c, ways))));
            }
            return;
        }
        i += 1;
    }
    dp.entries.push((state, ways % MODULUS));
    proof {
        lemma_merged_absent(old(dp)@, state, ways);
    }
}

} // verus!
