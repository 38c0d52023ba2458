//! The transition function and the depth-bounded search driver.
//!
//! From a state and an empty position, every capture combination whose
//! neighbors are all occupied and sum to at most the capture threshold
//! produces its own successor state; if none qualifies, a default token of
//! value 1 is placed instead. The driver expands a frontier of states level
//! by level, merging path-counts modulo `MODULUS`, and folds each terminal
//! state into the checksum weighted by its path-count.

use vstd::prelude::*;

use crate::captures::CaptureSet;
use crate::captures::combos_at;
use crate::captures::lemma_combos_at_wf;
use crate::captures::precompute_captures;
use crate::captures::table_matches;
use crate::codec::MODULUS;
use crate::codec::cell;
use crate::codec::get_cell;
use crate::codec::hash_board;
use crate::codec::hash_of;
use crate::codec::is_full;
use crate::codec::set_cell;
use crate::codec::spec_is_full;
use crate::codec::spec_set_cell;
use crate::frontier::Frontier;
use crate::frontier::add_to_map;
use crate::frontier::frontier_wf;
use crate::frontier::merged;

verus! {

/// A capture may remove a combination only when the removed values sum to at
/// most this threshold.
pub const CAPTURE_THRESHOLD: u32 = 6;

/// Every neighbor named by the combination is occupied.
pub open spec fn combo_valid(state: u32, combo: Seq<usize>) -> bool {
    forall|k: int| 0 <= k < combo.len() ==> cell(state, (#[trigger] combo[k]) as int) != 0
}

/// The sum of the cell values at the combination's positions.
pub open spec fn combo_sum(state: u32, combo: Seq<usize>) -> int
    decreases combo.len(),
{
    if combo.len() == 0 {
        0
    } else {
        combo_sum(state, combo.drop_last()) + cell(state, combo.last() as int)
    }
}

/// The combination triggers a capture: all neighbors occupied and their sum
/// within the threshold.
pub open spec fn combo_capturing(state: u32, combo: Seq<usize>) -> bool {
    combo_valid(state, combo) && combo_sum(state, combo) <= CAPTURE_THRESHOLD
}

/// The state after clearing the first `n` positions of the combination.
pub open spec fn zero_prefix(state: u32, combo: Seq<usize>, n: int) -> u32
    decreases n,
{
    if n <= 0 {
        state
    } else {
        spec_set_cell(zero_prefix(state, combo, n - 1), combo[n - 1] as int, 0)
    }
}

/// The successor state of a capture: the combination's cells cleared and the
/// originating empty cell set to their former sum.
pub open spec fn apply_combo(state: u32, pos: int, combo: Seq<usize>) -> u32 {
    spec_set_cell(
        zero_prefix(state, combo, combo.len() as int),
        pos,
        combo_sum(state, combo) as u32,
    )
}

/// The frontier after merging the successors of the first `n` capture
/// combinations of position `pos`, each with path-count `ways`.
pub open spec fn transition_merge(
    dp: Seq<(u32, u32)>,
    state: u32,
    ways: u32,
    pos: int,
    n: int,
) -> Seq<(u32, u32)>
    decreases n,
{
    if n <= 0 {
        dp
    } else {
        let prev = transition_merge(dp, state, ways, pos, n - 1);
        if combo_capturing(state, combos_at(pos)[n - 1]) {
            merged(prev, apply_combo(state, pos, combos_at(pos)[n - 1]), ways)
        } else {
            prev
        }
    }
}

/// Some capture combination of `pos` triggers in `state`.
pub open spec fn has_capture(state: u32, pos: int) -> bool {
    exists|i: int| 0 <= i < combos_at(pos).len() && combo_capturing(state, combos_at(pos)[i])
}

/// The frontier after expanding one empty position of one state: every
/// triggering combination contributes its own successor, and a state without
/// any triggering combination contributes the single default placement of
/// value 1.
pub open spec fn spec_transitions(
    dp: Seq<(u32, u32)>,
    state: u32,
    ways: u32,
    pos: int,
) -> Seq<(u32, u32)> {
    if has_capture(state, pos) {
        transition_merge(dp, state, ways, pos, combos_at(pos).len() as int)
    } else {
        merged(dp, spec_set_cell(state, pos, 1), ways)
    }
}

/// When no capture combination of `pos` triggers, expanding `pos` yields
/// exactly one successor: the input state with `pos` set to 1, carrying the
/// full incoming path-count unchanged.
pub proof fn lemma_default_placement(state: u32, ways: u32, pos: int)
    requires
        0 <= pos < 9,
        ways < MODULUS,
        !has_capture(state, pos),
    ensures
        spec_transitions(Seq::<(u32, u32)>::empty(), state, ways, pos) == seq![
            (spec_set_cell(state, pos, 1), ways),
        ],
{
    let out = merged(Seq::<(u32, u32)>::empty(), spec_set_cell(state, pos, 1), ways);
    assert(out =~= seq![(spec_set_cell(state, pos, 1), ways)]);
}

/// Expands one empty position of one frontier state, merging every successor
/// into the next depth's frontier with path-count `ways`.
pub fn process_transitions(
    state: u32,
    ways: u32,
    pos: usize,
    next_dp: &mut Frontier,
    capture_sets: &Vec<CaptureSet>,
)
    requires
        pos < 9,
        cell(state, pos as int) == 0,
        ways < MODULUS,
        frontier_wf(old(next_dp)@),
        table_matches(capture_sets@),
    ensures
        final(next_dp)@ == spec_transitions(old(next_dp)@, state, ways, pos as int),
        frontier_wf(final(next_dp)@),
{
    let mut captured = false;
    let combos = &capture_sets[pos].combos;
    let ncombos = combos.len();
    let mut ci: usize = 0;
    while ci < ncombos
        invariant
            pos < 9,
            ways < MODULUS,
            ncombos == combos@.len(),
            ci <= ncombos,
            combos@.len() == combos_at(pos as int).len(),
            forall|i: int| 0 <= i < ncombos ==> (#[trigger] combos@[i])@ == combos_at(pos as int)[i],
            next_dp@ == transition_merge(old(next_dp)@, state, ways, pos as int, ci as int),
            frontier_wf(next_dp@),
            captured == exists|i: int|
                0 <= i < ci && combo_capturing(state, combos_at(pos as int)[i]),
            !captured ==> next_dp@ == old(next_dp)@,
        decreases ncombos - ci,
    {
        let combo = &combos[ci];
        proof {
            lemma_combos_at_wf(pos as int, ci as int);
        }
        let clen = combo.len();
        let mut sum: u32 = 0;
        let mut valid = true;
        let mut k: usize = 0;
        while k < clen && valid
            invariant
                clen == combo@.len(),
                combo@ == combos_at(pos as int)[ci as int],
                0 <= ci < combos_at(pos as int).len(),
                0 <= pos < 9,
                clen <= 4,
                k <= clen,
                forall|j: int| 0 <= j < clen ==> (#[trigger] combo@[j]) < 9,
                valid ==> sum == combo_sum(state, combo@.subrange(0, k as int)),
                valid ==> forall|j: int| 0 <= j < k ==> cell(state, (#[trigger] combo@[j]) as int)
                    != 0,
                valid ==> sum <= 7 * (k as int),
                !valid ==> !combo_valid(state, combo@),
            decreases clen - k,
        {
            let val = get_cell(state, combo[k]);
            if val == 0 {
                valid = false;
            } else {
                proof {
                    assert(combo@.subrange(0, k as int + 1).drop_last() =~= combo@.subrange(
                        0,
                        k as int,
                    ));
                    assert(combo@.subrange(0, k as int + 1).last() == combo@[k as int]);
                }
                sum = sum + val;
            }
            k += 1;
        }
        if valid {
            proof {
                assert(combo@.subrange(0, clen as int) =~= combo@);
            }
        }
        if valid && sum <= CAPTURE_THRESHOLD {
            captured = true;
            let mut new_state = state;
            let mut m: usize = 0;
            while m < clen
                invariant
                    clen == combo@.len(),
                    m <= clen,
                    forall|j: int| 0 <= j < clen ==> (#[trigger] combo@[j]) < 9,
                    new_state == zero_prefix(state, combo@, m as int),
                decreases clen - m,
            {
                new_state = set_cell(new_state, combo[m], 0);
                m += 1;
            }
            new_state = set_cell(new_state, pos, sum);
            assert(new_state == apply_combo(state, pos as int, combo@));
            add_to_map(next_dp, new_state, ways);
        } else {
            proof {
                assert(!combo_capturing(state, combos_at(pos as int)[ci as int]));
            }
        }
        ci += 1;
    }
    if captured {
        assert(has_capture(state, pos as int));
    } else {
        let new_state = set_cell(state, pos, 1);
        assert(!has_capture(state, pos as int));
        add_to_map(next_dp, new_state, ways);
    }
}

/// The frontier after expanding the first `p` positions of one state: each
/// empty position contributes its transitions, occupied positions contribute
/// nothing.
pub open spec fn expand_positions(
    dp: Seq<(u32, u32)>,
    state: u32,
    ways: u32,
    p: int,
) -> Seq<(u32, u32)>
    decreases p,
{
    if p <= 0 {
        dp
    } else {
        let prev = expand_positions(dp, state, ways, p - 1);
        if cell(state, p - 1) == 0 {
            spec_transitions(prev, state, ways, p - 1)
        } else {
            prev
        }
    }
}

/// One level of the search over the first `n` frontier entries: a terminal
/// entry (final depth reached, or board full) folds `ways * hash_of(state)`
/// into the checksum modulo `MODULUS`; any other entry expands all of its
/// empty positions into the next frontier. Returns the next frontier and the
/// checksum so far.
pub open spec fn process_level(
    cur: Seq<(u32, u32)>,
    n: int,
    last: bool,
    next: Seq<(u32, u32)>,
    acc: int,
) -> (Seq<(u32, u32)>, int)
    decreases n,
{
    if n <= 0 {
        (next, acc)
    } else {
        let pr = process_level(cur, n - 1, last, next, acc);
        let state = cur[n - 1].0;
        let ways = cur[n - 1].1;
        if last || spec_is_full(state) {
            (pr.0, (pr.1 + ways * hash_of(state)) % (MODULUS as int))
        } else {
            (expand_positions(pr.0, state, ways, 9), pr.1)
        }
    }
}

/// The checksum after running the remaining levels of the search: the current
/// frontier is processed with `depth_left` further levels to go; at
/// `depth_left == 0` every entry is terminal and the accumulated checksum is
/// the answer.
pub open spec fn run_levels(cur: Seq<(u32, u32)>, depth_left: nat, acc: int) -> int
    decreases depth_left,
{
    let pr = process_level(cur, cur.len() as int, depth_left == 0, Seq::empty(), acc);
    if depth_left == 0 {
        pr.1
    } else {
        run_levels(pr.0, (depth_left - 1) as nat, pr.1)
    }
}

/// The checksum of the whole search: start from the initial board with one
/// path, run `max_depth + 1` levels, fold every terminal state.
pub open spec fn spec_solve(max_depth: nat, init_state: u32) -> int {
    run_levels(seq![(init_state, 1u32)], max_depth, 0)
}

/// Runs the depth-bounded search and returns the checksum, which is always
/// in `[0, MODULUS)` whatever the depth and the initial board.
pub fn solve(max_depth: usize, init_state: u32) -> (r: u32)
    ensures
        r as int == spec_solve(max_depth as nat, init_state),
        r < MODULUS,
{
    let table = precompute_captures();
    let mut cur = Frontier::new();
    cur.entries.push((init_state, 1));
    proof {
        assert(cur@ =~= seq![(init_state, 1u32)]);
    }
    let mut result: u32 = 0;
    let mut d: usize = 0;
    loop
        invariant
            d <= max_depth,
            frontier_wf(cur@),
            result < MODULUS,
            table_matches(table@),
            run_levels(cur@, (max_depth - d) as nat, result as int) == spec_solve(
                max_depth as nat,
                init_state,
            ),
        decreases max_depth - d,
    {
        let last = d == max_depth;
        let mut next = Frontier::new();
        let n = cur.entries.len();
        let ghost cur0 = cur@;
        let ghost res0 = result as int;
        let mut i: usize = 0;
        while i < n
            invariant
                n == cur.entries.len(),
                i <= n,
                cur@ == cur0,
                frontier_wf(cur@),
                table_matches(table@),
                next@ == process_level(cur0, i as int, last, Seq::<(u32, u32)>::empty(), res0).0,
                result as int == process_level(
                    cur0,
                    i as int,
                    last,
                    Seq::<(u32, u32)>::empty(),
                    res0,
                ).1,
                frontier_wf(next@),
                result < MODULUS,
            decreases n - i,
        {
            let state = cur.entries[i].0;
            let ways = cur.entries[i].1;
            assert(ways < MODULUS);
            if last || is_full(state) {
                let h = hash_board(state);
                assert((ways as int) * (h as int) < 0x1000_0000_0000_0000) by (nonlinear_arith)
                    requires
                        ways < 0x4000_0000,
                        h < 0x4000_0000,
                ;
                result = (((result as u64) + (ways as u64) * (h as u64)) % (MODULUS as u64)) as u32;
            } else {
                let ghost nx0 = next@;
                for pos in 0..9usize
                    invariant
                        ways < MODULUS,
                        table_matches(table@),
                        next@ == expand_positions(nx0, state, ways, pos as int),
                        frontier_wf(next@),
                {
                    if get_cell(state, pos) == 0 {
                        process_transitions(state, ways, pos, &mut next, &table);
                    }
                }
            }
            i += 1;
        }
        if last {
            return result;
        }
        cur = next;
        d += 1;
    }
}

/// Packs nine cell values, positions `0..9` in order, into one board state;
/// each value is masked to its low three bits on write.
pub fn encode_board(values: &Vec<u32>) -> (r: u32)
    requires
        values@.len() == 9,
    ensures
        r == encode_prefix(values@, 9),
{
    let mut state: u32 = 0;
    for i in 0..9usize
        invariant
            values@.len() == 9,
            state == encode_prefix(values@, i as int),
    {
        state = set_cell(state, i, values[i]);
    }
    state
}

/// The board state holding the first `n` of the given cell values, the rest
/// still empty.
pub open spec fn encode_prefix(vals: Seq<u32>, n: int) -> u32
    recommends
        0 <= n <= 9,
        vals.len() == 9,
    decreases n,
{
    if n <= 0 {
        0
    } else {
        spec_set_cell(encode_prefix(vals, n - 1), n - 1, vals[n - 1])
    }
}

} // verus!
