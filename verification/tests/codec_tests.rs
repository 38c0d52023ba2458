use capgrid::codec::{get_cell, hash_board, is_full, set_cell};

#[test]
fn set_then_get_roundtrip_all_positions_and_values() {
    let base: u32 = 0b_101_010_111_000_110_001_010_011_100;
    for pos in 0..9usize {
        for value in 0..8u32 {
            let updated = set_cell(base, pos, value);
            assert_eq!(get_cell(updated, pos), value);
            for other in 0..9usize {
                if other != pos {
                    assert_eq!(get_cell(updated, other), get_cell(base, other));
                }
            }
        }
    }
}

#[test]
fn set_cell_masks_wide_values() {
    // 9 = 0b1001: only the low three bits (001) are kept.
    let s = set_cell(0, 2, 9);
    assert_eq!(get_cell(s, 2), 1);
    // Every other cell stays empty.
    for pos in 0..9usize {
        if pos != 2 {
            assert_eq!(get_cell(s, pos), 0);
        }
    }
}

#[test]
fn is_full_all_occupied() {
    let mut s: u32 = 0;
    for pos in 0..9usize {
        s = set_cell(s, pos, 1 + (pos as u32 % 7));
    }
    assert!(is_full(s));
}

#[test]
fn is_full_false_when_any_cell_empty() {
    let mut full: u32 = 0;
    for pos in 0..9usize {
        full = set_cell(full, pos, 7);
    }
    for hole in 0..9usize {
        let s = set_cell(full, hole, 0);
        assert!(!is_full(s));
    }
}

#[test]
fn hash_of_empty_board_is_zero() {
    assert_eq!(hash_board(0), 0);
}

#[test]
fn hash_is_base_ten_positional_fold() {
    // Cells [1,2,3,4,5,6,7,0,1] read as the decimal digits 123456701.
    let values: [u32; 9] = [1, 2, 3, 4, 5, 6, 7, 0, 1];
    let mut s: u32 = 0;
    for pos in 0..9usize {
        s = set_cell(s, pos, values[pos]);
    }
    assert_eq!(hash_board(s), 123_456_701);
}

#[test]
fn hash_stays_below_modulus() {
    let mut s: u32 = 0;
    for pos in 0..9usize {
        s = set_cell(s, pos, 7);
    }
    // 777777777 < 2^30, so the low-30-bit mask keeps the full fold.
    assert_eq!(hash_board(s), 777_777_777);
    assert!(hash_board(s) < 0x4000_0000);
}
