//! Four in a row on a mask.
//!
//! A cell in column `c` and row `r` (row 0 at the bottom) is bit `7 * c + r`.
//! Each column has six playable rows and a seventh bit that is never set, so
//! that neighbours along a line are a fixed distance apart: 1 upwards, 7 to
//! the right, 8 up and to the right, 6 down and to the right. The module states
//! what a win is, first over bits and then over cells, and proves that the two
//! agree on masks that keep to the playable cells.

use vstd::prelude::*;
use crate::bits::{bit, bit_at, lemma_bit_means_nonzero, lemma_nonzero_has_bit};

verus! {

/// Bits `i`, `i + d`, `i + 2d` and `i + 3d` are all set.
pub open spec fn run_of_four(mask: u64, d: int, i: int) -> bool {
    bit(mask, i) && bit(mask, i + d) && bit(mask, i + 2 * d) && bit(mask, i + 3 * d)
}

/// Some four bits at distance `d` from each other are all set.
pub open spec fn four_along(mask: u64, d: int) -> bool {
    exists|i: int| #[trigger] run_of_four(mask, d, i)
}

/// The mask holds four in a row along one of the four directions.
pub open spec fn has_four(mask: u64) -> bool {
    four_along(mask, 1) || four_along(mask, 7) || four_along(mask, 6) || four_along(mask, 8)
}

/// The mask folded twice along distance `d`: bit `i` survives exactly when
/// it starts a run of four.
pub open spec fn fold_four(mask: u64, d: u64) -> u64 {
    (mask & (mask >> d)) & ((mask & (mask >> d)) >> ((2 * d) as u64))
}

proof fn lemma_fold_four_bit(mask: u64, d: u64, i: u64)
    by (bit_vector)
    requires
        1 <= d <= 8,
        i < 64,
    ensures
        bit_at(fold_four(mask, d), i) == (i + 3 * d < 64 && bit_at(mask, i) && bit_at(
            mask,
            (i + d) as u64,
        ) && bit_at(mask, (i + 2 * d) as u64) && bit_at(mask, (i + 3 * d) as u64)),
{
}

/// The folded mask is nonzero exactly when four bits at distance `d` are set.
pub proof fn lemma_fold_four(mask: u64, d: u64)
    requires
        1 <= d <= 8,
    ensures
        (fold_four(mask, d) != 0) == four_along(mask, d as int),
{
    let folded = fold_four(mask, d);
    if folded != 0 {
        lemma_nonzero_has_bit(folded);
        let i = choose|i: int| 0 <= i < 64 && bit(folded, i);
        lemma_fold_four_bit(mask, d, i as u64);
        assert(run_of_four(mask, d as int, i));
    }
    if four_along(mask, d as int) {
        let i = choose|i: int| run_of_four(mask, d as int, i);
        lemma_fold_four_bit(mask, d, i as u64);
        lemma_bit_means_nonzero(folded, i as u64);
    }
}

/// Column `c`, row `r` is a playable cell.
pub open spec fn on_board(c: int, r: int) -> bool {
    0 <= c < 7 && 0 <= r < 6
}

/// The bit that stands for column `c`, row `r`.
pub open spec fn cell_index(c: int, r: int) -> int {
    7 * c + r
}

/// Whether `mask` owns the cell in column `c`, row `r`.
pub open spec fn owns(mask: u64, c: int, r: int) -> bool {
    on_board(c, r) && bit(mask, cell_index(c, r))
}

/// A step from a cell to its neighbour along a line: up, right, up-right or
/// down-right.
pub open spec fn is_direction(dc: int, dr: int) -> bool {
    ||| (dc == 0 && dr == 1)
    ||| (dc == 1 && dr == 0)
    ||| (dc == 1 && dr == 1)
    ||| (dc == 1 && dr == -1)
}

/// The four cells that start at `(c, r)` and go on by `(dc, dr)` all belong
/// to `mask`.
pub open spec fn line_of_four(mask: u64, c: int, r: int, dc: int, dr: int) -> bool {
    &&& owns(mask, c, r)
    &&& owns(mask, c + dc, r + dr)
    &&& owns(mask, c + 2 * dc, r + 2 * dr)
    &&& owns(mask, c + 3 * dc, r + 3 * dr)
}

/// Some four cells in a vertical, horizontal or diagonal line all belong to
/// `mask`.
pub open spec fn has_line(mask: u64) -> bool {
    exists|c: int, r: int, dc: int, dr: int|
        is_direction(dc, dr) && #[trigger] line_of_four(mask, c, r, dc, dr)
}

/// Every set bit of `mask` stands for a playable cell.
pub open spec fn within_board(mask: u64) -> bool {
    forall|i: int| #[trigger] bit(mask, i) ==> i < 49 && i % 7 != 6
}

/// Four cells in a line are a win, whatever else the mask holds.
pub proof fn lemma_line_wins(mask: u64, c: int, r: int, dc: int, dr: int)
    requires
        is_direction(dc, dr),
        line_of_four(mask, c, r, dc, dr),
    ensures
        has_four(mask),
{
    let d = 7 * dc + dr;
    assert(run_of_four(mask, d, cell_index(c, r)));
}

proof fn lemma_run_is_line(mask: u64, d: int, dc: int, dr: int)
    requires
        within_board(mask),
        four_along(mask, d),
        is_direction(dc, dr),
        d == 7 * dc + dr,
    ensures
        has_line(mask),
{
    let i = choose|i: int| run_of_four(mask, d, i);
    let c = i / 7;
    let r = i % 7;
    assert(line_of_four(mask, c, r, dc, dr));
}

/// On a mask that keeps to the playable cells, a win is four cells in a
/// line: the folding never joins cells across the edge of a column.
pub proof fn lemma_win_is_line(mask: u64)
    requires
        within_board(mask),
    ensures
        has_four(mask) == has_line(mask),
{
    if has_four(mask) {
        if four_along(mask, 1) {
            lemma_run_is_line(mask, 1, 0, 1);
        } else if four_along(mask, 7) {
            lemma_run_is_line(mask, 7, 1, 0);
        } else if four_along(mask, 6) {
            lemma_run_is_line(mask, 6, 1, -1);
        } else {
            lemma_run_is_line(mask, 8, 1, 1);
        }
    }
    if has_line(mask) {
        let (c, r, dc, dr) = choose|c: int, r: int, dc: int, dr: int|
            is_direction(dc, dr) && #[trigger] line_of_four(mask, c, r, dc, dr);
        lemma_line_wins(mask, c, r, dc, dr);
    }
}

/// A mask with at most three bits set is no win.
pub proof fn lemma_three_bits_no_win(mask: u64, a: int, b: int, c: int)
    requires
        forall|i: int| #[trigger] bit(mask, i) ==> i == a || i == b || i == c,
    ensures
        !has_four(mask),
{
    assert forall|d: int| 1 <= d implies !four_along(mask, d) by {
        if four_along(mask, d) {
            let i = choose|i: int| run_of_four(mask, d, i);
            assert(bit(mask, i) && bit(mask, i + d) && bit(mask, i + 2 * d) && bit(
                mask,
                i + 3 * d,
            ));
        }
    }
}

} // verus!
