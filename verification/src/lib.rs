//! Level-by-level enumeration of a 3x3 capture game.
//!
//! A board is nine cells, each holding a value in `0..=7` (0 means empty),
//! packed into one `u32`. From an empty cell, a move either captures a
//! qualifying combination of its occupied neighbors or places a default
//! token. The engine expands every reachable board, depth by depth, counting
//! move sequences modulo `2^30`, and folds each terminal board into a single
//! modular checksum.

pub mod captures;
pub mod codec;
pub mod engine;
pub mod frontier;
