//! Board codec: nine 3-bit cells packed into one `u32`.

use vstd::prelude::*;

verus! {

/// Counts and the checksum are reduced modulo this value.
pub const MODULUS: u32 = 0x4000_0000;

/// The value held by cell `pos` (row-major, `0..9`): three bits starting at
/// bit `3 * pos`.
pub open spec fn cell(state: u32, pos: int) -> u32
    recommends
        0 <= pos < 9,
{
    (state >> ((pos as u32) * 3)) & 7
}

/// The state with cell `pos` overwritten by the low three bits of `value`;
/// every other cell keeps its value (see `lemma_set_cell_cells`).
pub open spec fn spec_set_cell(state: u32, pos: int, value: u32) -> u32
    recommends
        0 <= pos < 9,
{
    (state & !(7u32 << ((pos as u32) * 3))) | ((value & 7) << ((pos as u32) * 3))
}

/// Every cell holds a nonzero value.
pub open spec fn spec_is_full(state: u32) -> bool {
    forall|p: int| 0 <= p < 9 ==> cell(state, p) != 0
}

/// The base-10 positional fold of the first `n` cell values:
/// `h_0 = 0`, `h_k = 10 * h_{k-1} + cell(state, k - 1)`.
pub open spec fn hash_prefix(state: u32, n: int) -> int
    recommends
        0 <= n <= 9,
    decreases n,
{
    if n <= 0 {
        0
    } else {
        hash_prefix(state, n - 1) * 10 + cell(state, n - 1)
    }
}

/// The checksum fingerprint of a board: the nine cell values read as base-10
/// digits in position order. It is below `2^30`, so the low-30-bit mask in
/// `hash_board` never discards anything.
pub open spec fn hash_of(state: u32) -> int {
    hash_prefix(state, 9)
}

proof fn lemma_shift_mask_cells(state: u32, p: u32, q: u32, value: u32)
    by (bit_vector)
    requires
        p < 9,
        q < 9,
    ensures
        ((state >> (q * 3)) & 7) <= 7,
        p == q ==> (((state & !(7u32 << (p * 3))) | ((value & 7) << (p * 3))) >> (q * 3)) & 7
            == value & 7,
        p != q ==> (((state & !(7u32 << (p * 3))) | ((value & 7) << (p * 3))) >> (q * 3)) & 7
            == (state >> (q * 3)) & 7,
{
}

/// A cell value occupies three bits, so it never exceeds 7.
pub proof fn lemma_cell_bound(state: u32, pos: int)
    requires
        0 <= pos < 9,
    ensures
        0 <= cell(state, pos) <= 7,
{
    let p = pos as u32;
    lemma_shift_mask_cells(state, p, p, 0);
}

/// Writing a cell changes that cell to `value & 7` and nothing else.
pub proof fn lemma_set_cell_cells(state: u32, pos: int, value: u32)
    requires
        0 <= pos < 9,
    ensures
        cell(spec_set_cell(state, pos, value), pos) == value & 7,
        forall|q: int|
            0 <= q < 9 && q != pos ==> cell(spec_set_cell(state, pos, value), q)
                == cell(state, q),
{
    let p = pos as u32;
    assert forall|q: int| 0 <= q < 9 && q != pos implies cell(spec_set_cell(state, pos, value), q)
        == cell(state, q) by {
        lemma_shift_mask_cells(state, p, q as u32, value);
    }
    lemma_shift_mask_cells(state, p, p, value);
}

/// Writing a value already in `0..=7` and reading it back returns it
/// unchanged, and every other cell keeps its value: the codec round-trip.
pub proof fn lemma_set_get_roundtrip(state: u32, pos: int, value: u32)
    requires
        0 <= pos < 9,
        value <= 7,
    ensures
        cell(spec_set_cell(state, pos, value), pos) == value,
        forall|q: int|
            0 <= q < 9 && q != pos ==> cell(spec_set_cell(state, pos, value), q)
                == cell(state, q),
{
    lemma_set_cell_cells(state, pos, value);
    assert(value & 7 == value) by (bit_vector)
        requires
            value <= 7,
    ;
}

/// Extracts the value of cell `pos`.
pub fn get_cell(state: u32, pos: usize) -> (r: u32)
    requires
        pos < 9,
    ensures
        r == cell(state, pos as int),
        r <= 7,
{
    let sh: u32 = (pos as u32) * 3;
    let r = (state >> sh) & 7;
    proof {
        lemma_cell_bound(state, pos as int);
    }
    r
}

/// Returns the state with cell `pos` set to the low three bits of `value`.
pub fn set_cell(state: u32, pos: usize, value: u32) -> (r: u32)
    requires
        pos < 9,
    ensures
        r == spec_set_cell(state, pos as int, value),
{
    let sh: u32 = (pos as u32) * 3;
    (state & !(7u32 << sh)) | ((value & 7) << sh)
}

/// True exactly when every one of the nine cells is nonzero.
pub fn is_full(state: u32) -> (r: bool)
    ensures
        r == spec_is_full(state),
{
    for pos in 0..9usize
        invariant
            forall|p: int| 0 <= p < pos as int ==> cell(state, p) != 0,
    {
        if get_cell(state, pos) == 0 {
            return false;
        }
    }
    true
}

spec fn pow10(n: int) -> int
    decreases n,
{
    if n <= 0 {
        1
    } else {
        10 * pow10(n - 1)
    }
}

proof fn lemma_pow10_mono(a: int, b: int)
    requires
        0 <= a <= b,
    ensures
        pow10(a) <= pow10(b),
    decreases b,
{
    if a < b {
        lemma_pow10_mono(a, b - 1);
        lemma_pow10_pos(b - 1);
    }
}

proof fn lemma_pow10_pos(n: int)
    ensures
        pow10(n) >= 1,
    decreases n,
{
    if n > 0 {
        lemma_pow10_pos(n - 1);
    }
}

proof fn lemma_pow10_values()
    ensures
        pow10(8) == 100_000_000,
        pow10(9) == 1_000_000_000,
{
    assert(pow10(0) == 1);
    assert(pow10(1) == 10);
    assert(pow10(2) == 100);
    assert(pow10(3) == 1000);
    assert(pow10(4) == 10_000);
    assert(pow10(5) == 100_000);
    assert(pow10(6) == 1_000_000);
    assert(pow10(7) == 10_000_000);
    assert(pow10(8) == 100_000_000);
    assert(pow10(9) == 1_000_000_000);
}

proof fn lemma_hash_prefix_bound(state: u32, n: int)
    requires
        0 <= n <= 9,
    ensures
        0 <= hash_prefix(state, n) < pow10(n),
    decreases n,
{
    if n > 0 {
        lemma_hash_prefix_bound(state, n - 1);
        lemma_cell_bound(state, n - 1);
    }
}

/// Computes the board's checksum fingerprint: the nine cell values as base-10
/// digits, masked to the low 30 bits (a no-op, since the fold stays below
/// `10^9 < 2^30`).
pub fn hash_board(state: u32) -> (r: u32)
    ensures
        r == hash_of(state),
        r < MODULUS,
{
    let mut h: u32 = get_cell(state, 0);
    assert(hash_prefix(state, 0) == 0);
    assert(h == hash_prefix(state, 1));
    for pos in 1..9usize
        invariant
            h == hash_prefix(state, pos as int),
            h < 0x4000_0000,
    {
        proof {
            lemma_hash_prefix_bound(state, pos as int);
            lemma_pow10_mono(pos as int, 8);
            lemma_pow10_values();
            lemma_cell_bound(state, pos as int);
        }
        h = h * 10 + get_cell(state, pos);
        proof {
            lemma_hash_prefix_bound(state, pos as int + 1);
            lemma_pow10_mono(pos as int + 1, 9);
        }
    }
    let r = h & (MODULUS - 1);
    assert(r == h && r < MODULUS) by (bit_vector)
        requires
            r == h & 0x3FFF_FFFF,
            h < 0x4000_0000,
    ;
    r
}

} // verus!
