//! The mathematical model of a position.
//!
//! A [`Board`] holds what a position consists of: one mask per player, the
//! next free bit of each column, the number of moves made and the columns
//! played, in order. The moves are total functions on it. A board is well
//! formed when replaying its own history from the empty board gives it back,
//! which is to say that it can be reached by playing; everything else that
//! holds of such a board is proved from that.

use vstd::prelude::*;
use crate::bits::{
    bit, bit_at, lemma_bit_and, lemma_bit_or, lemma_bit_zero, lemma_flip, lemma_flip_keeps_disjoint,
    lemma_flip_twice, lemma_ones_bound, ones, single,
};
use crate::lines::{
    cell_index, has_four, has_line, lemma_three_bits_no_win, lemma_win_is_line, on_board, owns,
    within_board,
};
use crate::piece::Piece;

verus! {

/// A position, as a plain value.
pub struct Board {
    /// The cells of the first player (index 0) and of the second (index 1).
    pub masks: Seq<u64>,
    /// For each column, the bit that its next disc takes.
    pub heights: Seq<u8>,
    /// How many moves have been made.
    pub count: nat,
    /// The columns played, oldest first.
    pub history: Seq<u8>,
}

/// How often column `c` occurs in `history`.
pub open spec fn discs_in(history: Seq<u8>, c: int) -> nat
    decreases history.len(),
{
    if history.len() == 0 {
        0
    } else {
        let before = discs_in(history.drop_last(), c);
        if history.last() == c {
            before + 1
        } else {
            before
        }
    }
}

/// The row in which the disc of move `k` comes to lie: the number of discs
/// that were in its column before.
pub open spec fn row_of_move(history: Seq<u8>, k: int) -> int {
    discs_in(history.take(k), history[k] as int) as int
}

impl Board {
    /// The position before the first move.
    pub open spec fn empty() -> Board {
        Board {
            masks: seq![0u64, 0u64],
            heights: Seq::new(7, |c: int| (7 * c) as u8),
            count: 0,
            history: Seq::empty(),
        }
    }

    /// Column `c` holds six discs. The seventh bit of a column is never
    /// taken, so a full column is one whose next free bit is that one.
    pub open spec fn column_full(self, c: int) -> bool {
        self.heights[c] % 7 == 6
    }

    /// A disc can be dropped into column `c`.
    pub open spec fn playable(self, c: int) -> bool {
        0 <= c < 7 && !self.column_full(c)
    }

    /// The index of the player to move: 0 on even counts, 1 on odd ones.
    pub open spec fn mover(self) -> int {
        (self.count % 2) as int
    }

    /// The position after a disc is dropped into `column`. Where the column
    /// takes no disc the position stays as it is.
    pub open spec fn apply_move(self, column: u8) -> Board {
        if !self.playable(column as int) {
            self
        } else {
            let p = self.mover();
            let h = self.heights[column as int];
            Board {
                masks: self.masks.update(p, self.masks[p] ^ single(h as u64)),
                heights: self.heights.update(column as int, (h + 1) as u8),
                count: self.count + 1,
                history: self.history.push(column),
            }
        }
    }

    /// The position with its last move taken back. Where no move has been
    /// made the position stays as it is.
    pub open spec fn undo_move(self) -> Board {
        if self.history.len() == 0 {
            self
        } else {
            let column = self.history.last();
            let count = (self.count - 1) as nat;
            let p = (count % 2) as int;
            let h = (self.heights[column as int] - 1) as u8;
            Board {
                masks: self.masks.update(p, self.masks[p] ^ single(h as u64)),
                heights: self.heights.update(column as int, h),
                count,
                history: self.history.drop_last(),
            }
        }
    }

    /// The position that the moves of `history` lead to, played in order
    /// from the empty board.
    pub open spec fn replay(history: Seq<u8>) -> Board
        decreases history.len(),
    {
        if history.len() == 0 {
            Board::empty()
        } else {
            Board::replay(history.drop_last()).apply_move(history.last())
        }
    }

    /// The board can be reached by playing: it is what its own history
    /// leads to.
    pub open spec fn wf(self) -> bool {
        self == Board::replay(self.history)
    }

    /// The number of discs in column `c`, read off its next free bit.
    pub open spec fn fill(self, c: int) -> int {
        self.heights[c] - 7 * c
    }

    /// Every cell that either player owns.
    pub open spec fn occupied(self) -> u64 {
        self.masks[0] | self.masks[1]
    }

    /// How many moves remain until the board is full.
    pub open spec fn moves_left(self) -> int {
        42 - self.count
    }

    /// What holds of every board that can be reached by playing.
    pub open spec fn inv(self) -> bool {
        &&& self.masks.len() == 2
        &&& self.heights.len() == 7
        &&& forall|c: int| 0 <= c < 7 ==> 0 <= #[trigger] self.fill(c) <= 6
        &&& forall|c: int| 0 <= c < 7 ==> #[trigger] self.fill(c) == discs_in(self.history, c)
        &&& forall|k: int| 0 <= k < self.history.len() ==> #[trigger] self.history[k] < 7
        &&& self.count == self.history.len()
        &&& self.count == self.fill(0) + self.fill(1) + self.fill(2) + self.fill(3) + self.fill(4)
            + self.fill(5) + self.fill(6)
        &&& self.masks[0] & self.masks[1] == 0
        &&& forall|i: int|
            0 <= i < 64 ==> (#[trigger] bit(self.occupied(), i) <==> i < self.heights[i / 7]
                && i < 49)
    }
}

proof fn lemma_empty_inv()
    ensures
        Board::empty().inv(),
{
    let b = Board::empty();
    assert(0u64 & 0u64 == 0) by (bit_vector);
    assert(0u64 | 0u64 == 0) by (bit_vector);
    assert forall|i: int| 0 <= i < 64 implies (#[trigger] bit(b.occupied(), i) <==> i
        < b.heights[i / 7] && i < 49) by {
        lemma_bit_zero(i as u64);
    }
    assert forall|c: int| 0 <= c < 7 implies #[trigger] b.fill(c) == discs_in(b.history, c) by {}
}

proof fn lemma_apply_inv(b: Board, column: u8)
    requires
        b.inv(),
    ensures
        b.apply_move(column).inv(),
{
    if b.playable(column as int) {
        let after = b.apply_move(column);
        let c = column as int;
        let p = b.mover();
        let q = 1 - p;
        let h = b.heights[c];
        let k = h as u64;
        assert(!bit(b.occupied(), h as int));
        lemma_bit_or(b.masks[0], b.masks[1], k);
        let a0 = b.masks[0];
        let a1 = b.masks[1];
        assert(a1 & a0 == 0) by (bit_vector)
            requires
                a0 & a1 == 0,
        ;
        lemma_flip_keeps_disjoint(b.masks[p], b.masks[q], k);
        assert forall|i: int| 0 <= i < 64 implies (#[trigger] bit(after.occupied(), i) <==> i
            < after.heights[i / 7] && i < 49) by {
            lemma_bit_or(after.masks[0], after.masks[1], i as u64);
            lemma_bit_or(b.masks[0], b.masks[1], i as u64);
            lemma_flip(b.masks[p], k, i as u64);
            assert(bit(b.occupied(), i) <==> i < b.heights[i / 7] && i < 49);
        }
        assert(after.history.drop_last() =~= b.history);
    }
}

/// Replaying any sequence of columns gives a board of which the invariant
/// holds, and whose history is no longer than the sequence.
pub proof fn lemma_replay_inv(history: Seq<u8>)
    ensures
        Board::replay(history).inv(),
        Board::replay(history).history.len() <= history.len(),
    decreases history.len(),
{
    if history.len() == 0 {
        lemma_empty_inv();
    } else {
        lemma_replay_inv(history.drop_last());
        lemma_apply_inv(Board::replay(history.drop_last()), history.last());
    }
}

impl Board {
    /// The invariant holds of every well-formed board.
    pub proof fn lemma_wf_inv(self)
        requires
            self.wf(),
        ensures
            self.inv(),
    {
        lemma_replay_inv(self.history);
    }

    /// The empty board is well formed.
    pub proof fn lemma_empty_wf()
        ensures
            Board::empty().wf(),
    {
    }

    /// The empty board is open, and every column takes a disc.
    pub proof fn lemma_empty_open()
        ensures
            Board::empty().outcome() == Piece::Empty,
            Board::empty().legal_moves() =~= seq![0u8, 1u8, 2u8, 3u8, 4u8, 5u8, 6u8],
    {
        assert forall|i: int| !#[trigger] bit(0u64, i) by {
            if 0 <= i < 64 {
                lemma_bit_zero(i as u64);
            }
        }
        lemma_three_bits_no_win(0u64, 0, 0, 0);
        reveal_with_fuel(Board::legal_moves_below, 8);
    }

    /// A move leads from a well-formed board to a well-formed board.
    pub proof fn lemma_apply_wf(self, column: u8)
        requires
            self.wf(),
        ensures
            self.apply_move(column).wf(),
    {
        if self.playable(column as int) {
            let after = self.apply_move(column);
            assert(after.history.drop_last() =~= self.history);
        }
    }

    /// Taking back the last move of a well-formed board gives the
    /// well-formed board on which that move was made.
    pub proof fn lemma_undo_wf(self)
        requires
            self.wf(),
        ensures
            self.undo_move().wf(),
            self.history.len() > 0 ==> self.undo_move().playable(self.history.last() as int),
            self.history.len() > 0 ==> self.undo_move().apply_move(self.history.last()) == self,
            self.history.len() > 0 ==> self.undo_move() == Board::replay(self.history.drop_last()),
    {
        if self.history.len() > 0 {
            let column = self.history.last();
            let before = Board::replay(self.history.drop_last());
            lemma_replay_inv(self.history.drop_last());
            assert(before.history =~= self.history.drop_last());
            lemma_flip_twice(before.masks[before.mover()], before.heights[column as int] as u64);
            assert(self.undo_move().masks =~= before.masks);
            assert(self.undo_move().heights =~= before.heights);
        }
    }

    /// A move that is made and at once taken back leaves a well-formed board
    /// exactly as it was: masks, heights, count and history.
    pub proof fn lemma_apply_undo(self, column: u8)
        requires
            self.wf(),
            self.playable(column as int),
        ensures
            self.apply_move(column).undo_move() == self,
    {
        self.lemma_wf_inv();
        let after = self.apply_move(column);
        lemma_flip_twice(self.masks[self.mover()], self.heights[column as int] as u64);
        assert(after.history.drop_last() =~= self.history);
        assert(after.undo_move().masks =~= self.masks);
        assert(after.undo_move().heights =~= self.heights);
    }

    /// A move into a full column changes nothing.
    pub proof fn lemma_full_column_no_op(self, column: u8)
        requires
            self.column_full(column as int),
        ensures
            self.apply_move(column) == self,
    {
    }

    /// No cell of a well-formed board belongs to both players.
    pub proof fn lemma_masks_disjoint(self)
        requires
            self.wf(),
        ensures
            self.masks[0] & self.masks[1] == 0,
    {
        self.lemma_wf_inv();
    }

    /// On a well-formed board the count is the length of the history, and
    /// at most 42.
    pub proof fn lemma_count_bounds(self)
        requires
            self.wf(),
        ensures
            self.count == self.history.len(),
            self.count <= 42,
    {
        self.lemma_wf_inv();
    }

    /// On a well-formed board each column's next free bit lies as many bits
    /// above the column's base as the column occurs in the history.
    pub proof fn lemma_heights(self, c: int)
        requires
            self.wf(),
            0 <= c < 7,
        ensures
            self.heights[c] == 7 * c + discs_in(self.history, c),
            discs_in(self.history, c) <= 6,
    {
        self.lemma_wf_inv();
    }

    /// Both masks of a well-formed board keep to the playable cells.
    pub proof fn lemma_masks_within_board(self)
        requires
            self.wf(),
        ensures
            within_board(self.masks[0]),
            within_board(self.masks[1]),
    {
        self.lemma_wf_inv();
        assert forall|i: int| bit(self.masks[0], i) || bit(self.masks[1], i) implies i < 49 && i
            % 7 != 6 by {
            lemma_bit_or(self.masks[0], self.masks[1], i as u64);
            assert(bit(self.occupied(), i));
        }
    }

    /// On a well-formed board the cells of a column are taken from the
    /// bottom up: a cell belongs to a player exactly when it lies below the
    /// column's fill, and never to both.
    pub proof fn lemma_cells(self, c: int, r: int)
        requires
            self.wf(),
            on_board(c, r),
        ensures
            (owns(self.masks[0], c, r) || owns(self.masks[1], c, r)) == (r < self.fill(c)),
            !(owns(self.masks[0], c, r) && owns(self.masks[1], c, r)),
    {
        self.lemma_wf_inv();
        let i = cell_index(c, r);
        lemma_bit_or(self.masks[0], self.masks[1], i as u64);
        lemma_bit_and(self.masks[0], self.masks[1], i as u64);
        lemma_bit_zero(i as u64);
        assert(bit(self.occupied(), i) <==> i < self.heights[i / 7] && i < 49);
    }

    /// On a well-formed board the disc of move `k` lies in the column that
    /// was played, on top of the earlier discs of that column, and belongs to
    /// the player who made the move: the first on even `k`, the second on
    /// odd.
    pub proof fn lemma_disc_of_move(self, k: int)
        requires
            self.wf(),
            0 <= k < self.history.len(),
        ensures
            owns(self.masks[k % 2], self.history[k] as int, row_of_move(self.history, k)),
        decreases self.history.len(),
    {
        self.lemma_undo_wf();
        self.lemma_wf_inv();
        let before = self.undo_move();
        before.lemma_wf_inv();
        let last = self.history.last() as int;
        let top = before.heights[last] as u64;
        assert(self == before.apply_move(self.history.last()));
        assert(before.history =~= self.history.drop_last());
        assert(0 <= before.fill(last) <= 6);
        assert(top as int / 7 == last);
        assert(!bit(before.occupied(), top as int));
        lemma_bit_or(before.masks[0], before.masks[1], top);
        assert(!bit_at(before.masks[before.mover()], top));
        if k == self.history.len() - 1 {
            assert(self.history.take(k) =~= before.history);
            assert(row_of_move(self.history, k) == before.fill(last));
            assert(cell_index(last, row_of_move(self.history, k)) == top);
            lemma_flip(before.masks[before.mover()], top, top);
            assert(k % 2 == before.mover());
            assert(bit_at(self.masks[k % 2], top));
        } else {
            before.lemma_disc_of_move(k);
            assert(self.history.take(k) =~= before.history.take(k));
            assert(row_of_move(self.history, k) == row_of_move(before.history, k));
            let i = cell_index(self.history[k] as int, row_of_move(self.history, k)) as u64;
            assert(bit_at(before.masks[k % 2], i));
            lemma_flip(before.masks[before.mover()], top, i);
            assert(bit_at(self.masks[k % 2], i));
        }
    }

    /// On a well-formed board a player has won exactly when four of that
    /// player's cells lie in a line; where both have, the first player
    /// counts as the winner.
    pub proof fn lemma_outcome_lines(self)
        requires
            self.wf(),
        ensures
            has_four(self.masks[0]) == has_line(self.masks[0]),
            has_four(self.masks[1]) == has_line(self.masks[1]),
            (self.outcome() == Piece::P1) == has_line(self.masks[0]),
            (self.outcome() == Piece::P2) == (!has_line(self.masks[0]) && has_line(self.masks[1])),
    {
        self.lemma_masks_within_board();
        lemma_win_is_line(self.masks[0]);
        lemma_win_is_line(self.masks[1]);
    }

    /// A well-formed board with moves left has a column that takes a disc.
    pub proof fn lemma_moves_left_playable(self)
        requires
            self.wf(),
            self.count < 42,
        ensures
            exists|c: int| #[trigger] self.playable(c),
    {
        self.lemma_wf_inv();
        assert(self.playable(0) || self.playable(1) || self.playable(2) || self.playable(3)
            || self.playable(4) || self.playable(5) || self.playable(6));
    }
}

/// How many pairs of bits at distance `shift` are both set in `mask`.
pub open spec fn pairs_at(mask: u64, shift: int) -> nat {
    ones(mask & (mask >> (shift as u64)))
}

/// The count that stands for rows of length `len` in `mask`: over the four
/// directions, the pairs of set bits that lie `len - 1` steps apart.
pub open spec fn rows_of_len(mask: u64, len: int) -> nat {
    pairs_at(mask, len - 1) + pairs_at(mask, 7 * (len - 1)) + pairs_at(mask, 6 * (len - 1))
        + pairs_at(mask, 8 * (len - 1))
}

/// The positional score of two masks in hundredths: one for each row of two
/// and two for each row of three, the first player's counted up and the
/// second player's counted down.
pub open spec fn heuristic_of(first: u64, second: u64) -> int {
    (rows_of_len(first, 2) - rows_of_len(second, 2)) + 2 * (rows_of_len(first, 3) - rows_of_len(
        second,
        3,
    ))
}

/// The positional score is zero-sum: with the masks exchanged it changes
/// its sign.
pub proof fn lemma_heuristic_zero_sum(first: u64, second: u64)
    ensures
        heuristic_of(second, first) == -heuristic_of(first, second),
{
}

/// A row count lies between 0 and 256.
pub proof fn lemma_rows_of_len_bounds(mask: u64, len: int)
    ensures
        0 <= rows_of_len(mask, len) <= 256,
{
    lemma_ones_bound(mask & (mask >> ((len - 1) as u64)));
    lemma_ones_bound(mask & (mask >> ((7 * (len - 1)) as u64)));
    lemma_ones_bound(mask & (mask >> ((6 * (len - 1)) as u64)));
    lemma_ones_bound(mask & (mask >> ((8 * (len - 1)) as u64)));
}

impl Board {
    /// What the position amounts to: won by the first player, else won by
    /// the second, else drawn where the board is full, else still open.
    pub open spec fn outcome(self) -> Piece {
        if has_four(self.masks[0]) {
            Piece::P1
        } else if has_four(self.masks[1]) {
            Piece::P2
        } else if self.moves_left() == 0 {
            Piece::Draw
        } else {
            Piece::Empty
        }
    }

    /// The positional score in hundredths. It does not depend on whose turn
    /// it is, and a positive score favours the first player.
    pub open spec fn heuristic(self) -> int {
        heuristic_of(self.masks[0], self.masks[1])
    }

    /// The playable columns below `n`, in ascending order.
    pub open spec fn legal_moves_below(self, n: int) -> Seq<u8>
        decreases n,
    {
        if n <= 0 {
            Seq::empty()
        } else if self.playable(n - 1) {
            self.legal_moves_below(n - 1).push((n - 1) as u8)
        } else {
            self.legal_moves_below(n - 1)
        }
    }

    /// The playable columns, in ascending order.
    pub open spec fn legal_moves(self) -> Seq<u8> {
        self.legal_moves_below(7)
    }

    /// `list` holds exactly the playable columns below `n`, each once and in
    /// ascending order.
    pub open spec fn lists_playable_below(self, list: Seq<u8>, n: int) -> bool {
        &&& forall|i: int| 0 <= i < list.len() ==> list[i] < n && self.playable(#[trigger] list[i] as int)
        &&& forall|i: int, j: int| 0 <= i < j < list.len() ==> list[i] < list[j]
        &&& forall|c: int| 0 <= c < n && #[trigger] self.playable(c) ==> list.contains(c as u8)
    }

    /// The legal moves below `n` are the playable columns below `n`, each
    /// once and in ascending order.
    pub proof fn lemma_legal_moves_below(self, n: int)
        requires
            0 <= n <= 7,
        ensures
            self.lists_playable_below(self.legal_moves_below(n), n),
        decreases n,
    {
        if n > 0 {
            self.lemma_legal_moves_below(n - 1);
            let before = self.legal_moves_below(n - 1);
            let list = self.legal_moves_below(n);
            if self.playable(n - 1) {
                assert forall|c: int| 0 <= c < n && #[trigger] self.playable(c) implies list.contains(
                    c as u8,
                ) by {
                    if c < n - 1 {
                        let i = choose|i: int| 0 <= i < before.len() && before[i] == c as u8;
                        assert(list[i] == c as u8);
                    } else {
                        assert(list[list.len() - 1] == c as u8);
                    }
                }
            }
        }
    }

    /// The legal moves are the playable columns, each once and in ascending
    /// order.
    pub proof fn lemma_legal_moves(self)
        ensures
            self.lists_playable_below(self.legal_moves(), 7),
    {
        self.lemma_legal_moves_below(7);
    }

    /// A well-formed board that is still open has a legal move.
    pub proof fn lemma_open_has_move(self)
        requires
            self.wf(),
            self.outcome() == Piece::Empty,
        ensures
            self.legal_moves().len() > 0,
    {
        self.lemma_count_bounds();
        self.lemma_moves_left_playable();
        self.lemma_legal_moves();
        let c = choose|c: int| #[trigger] self.playable(c);
    }
}

impl Board {
    /// How the cell in column `c`, row `r` is drawn.
    pub open spec fn glyph(self, c: int, r: int) -> Seq<char> {
        if bit(self.masks[0], 7 * c + r) {
            "-X-"@
        } else if bit(self.masks[1], 7 * c + r) {
            "-O-"@
        } else {
            "|_|"@
        }
    }

    /// The first `n` cells of row `r`, from the left.
    pub open spec fn row_text(self, r: int, n: int) -> Seq<char>
        decreases n,
    {
        if n <= 0 {
            Seq::empty()
        } else {
            self.row_text(r, n - 1) + self.glyph(n - 1, r)
        }
    }

    /// The top `k` rows, the highest first, each closed by a line feed.
    pub open spec fn rows_text(self, k: int) -> Seq<char>
        decreases k,
    {
        if k <= 0 {
            Seq::empty()
        } else {
            self.rows_text(k - 1) + self.row_text(6 - k, 7) + "\n"@
        }
    }

    /// The board as text: six lines of seven cells, the top row first.
    pub open spec fn text(self) -> Seq<char> {
        self.rows_text(6)
    }
}

} // verus!
