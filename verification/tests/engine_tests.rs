use capgrid::captures::precompute_captures;
use capgrid::codec::set_cell;
use capgrid::engine::{encode_board, process_transitions, solve};
use capgrid::frontier::{add_to_map, Frontier};

const MODULUS: u32 = 0x4000_0000;

fn board(values: [u32; 9]) -> u32 {
    encode_board(&values.to_vec())
}

#[test]
fn capture_table_counts() {
    let table = precompute_captures();
    assert_eq!(table.len(), 9);
    let expected_counts: [usize; 9] = [1, 4, 1, 4, 11, 4, 1, 4, 1];
    for pos in 0..9usize {
        assert_eq!(table[pos].combos.len(), expected_counts[pos]);
    }
}

#[test]
fn capture_table_generation_order_at_center() {
    let table = precompute_captures();
    let combos: Vec<Vec<usize>> = table[4].combos.clone();
    let expected: Vec<Vec<usize>> = vec![
        vec![1, 3],
        vec![1, 5],
        vec![1, 7],
        vec![3, 5],
        vec![3, 7],
        vec![5, 7],
        vec![1, 3, 5],
        vec![1, 3, 7],
        vec![1, 5, 7],
        vec![3, 5, 7],
        vec![1, 3, 5, 7],
    ];
    assert_eq!(combos, expected);
}

#[test]
fn capture_table_corner_and_edge_combos() {
    let table = precompute_captures();
    assert_eq!(table[0].combos, vec![vec![1, 3]]);
    assert_eq!(
        table[3].combos,
        vec![vec![0, 4], vec![0, 6], vec![4, 6], vec![0, 4, 6]]
    );
}

#[test]
fn add_to_map_inserts_and_merges_modulo() {
    let mut dp = Frontier::new();
    add_to_map(&mut dp, 5, 3);
    assert_eq!(dp.entries, vec![(5, 3)]);
    add_to_map(&mut dp, 5, 4);
    assert_eq!(dp.entries, vec![(5, 7)]);
    add_to_map(&mut dp, 6, 2);
    assert_eq!(dp.entries, vec![(5, 7), (6, 2)]);
    add_to_map(&mut dp, 6, MODULUS - 1);
    assert_eq!(dp.entries, vec![(5, 7), (6, 1)]);
}

#[test]
fn default_placement_when_no_combination_qualifies() {
    // Position 0 is empty; its only combination is (1, 3). Both neighbors are
    // occupied but sum to 14 > 6, so the default token of value 1 is placed
    // and the full path-count is carried over unchanged.
    let state = board([0, 7, 1, 7, 1, 1, 1, 1, 1]);
    let table = precompute_captures();
    let mut next = Frontier::new();
    process_transitions(state, 9, 0, &mut next, &table);
    assert_eq!(next.entries, vec![(set_cell(state, 0, 1), 9)]);
}

#[test]
fn default_placement_when_a_neighbor_is_empty() {
    // Position 0 is empty and so is its neighbor 3: the (1, 3) combination is
    // invalid even though the values would sum low, so the default applies.
    let state = board([0, 1, 1, 0, 1, 1, 1, 1, 1]);
    let table = precompute_captures();
    let mut next = Frontier::new();
    process_transitions(state, 2, 0, &mut next, &table);
    assert_eq!(next.entries, vec![(set_cell(state, 0, 1), 2)]);
}

#[test]
fn branching_captures_produce_separate_states() {
    // Center empty; neighbors 1,3,5,7 hold 1,2,5,6. Exactly two pairs sum
    // within the threshold: (1,3) with 1+2=3 and (1,5) with 1+5=6. All other
    // pairs, every triple, and the quadruple exceed 6 and contribute nothing.
    let state = board([0, 1, 0, 2, 0, 5, 0, 6, 0]);
    let table = precompute_captures();
    let mut next = Frontier::new();
    process_transitions(state, 5, 4, &mut next, &table);

    let mut first = state;
    first = set_cell(first, 1, 0);
    first = set_cell(first, 3, 0);
    first = set_cell(first, 4, 3);
    let mut second = state;
    second = set_cell(second, 1, 0);
    second = set_cell(second, 5, 0);
    second = set_cell(second, 4, 6);
    assert_eq!(next.entries, vec![(first, 5), (second, 5)]);
}

#[test]
fn depth_zero_empty_board_checksum_is_zero() {
    // The single initial state is terminal at depth 0 before any expansion,
    // and the all-empty board hashes to 0.
    assert_eq!(solve(0, board([0, 0, 0, 0, 0, 0, 0, 0, 0])), 0);
}

#[test]
fn full_board_terminates_immediately() {
    // A full board is terminal at depth 0 whatever the depth bound.
    let state = board([1, 1, 1, 1, 1, 1, 1, 1, 1]);
    assert_eq!(solve(1, state), 111_111_111);
    assert_eq!(solve(6, state), 111_111_111);
}

#[test]
fn depth_one_from_empty_board() {
    // Every position gets a default token (no neighbors are occupied), so
    // depth 1 holds nine boards with a single 1; their hashes are the nine
    // powers of ten, summing to 111111111.
    assert_eq!(solve(1, board([0, 0, 0, 0, 0, 0, 0, 0, 0])), 111_111_111);
}

#[test]
fn single_capture_checksum() {
    // Only position 0 is empty; its neighbors 1 and 3 hold 1 and 2, which
    // sum to 3 <= 6: the one capture yields [3,0,7,0,7,7,7,7,7].
    let state = board([0, 1, 7, 2, 7, 7, 7, 7, 7]);
    assert_eq!(solve(1, state), 307_077_777);
}

#[test]
fn checksum_always_below_modulus() {
    assert!(solve(3, board([0, 0, 0, 0, 0, 0, 0, 0, 0])) < MODULUS);
    assert!(solve(2, board([0, 1, 2, 3, 0, 5, 6, 7, 0])) < MODULUS);
}
