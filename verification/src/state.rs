//! The position as it is held at run time: bit masks that apply and take
//! back a move in constant time.
//!
//! Bit `7 * c + r` of a player's mask stands for the cell in column `c` and
//! row `r`, with row 0 at the bottom:
//!
//! ```text
//!   6 13 20 27 34 41 48     never set
//! +---------------------+
//! | 5 12 19 26 33 40 47 |   top row
//! | 4 11 18 25 32 39 46 |
//! | 3 10 17 24 31 38 45 |
//! | 2  9 16 23 30 37 44 |
//! | 1  8 15 22 29 36 43 |
//! | 0  7 14 21 28 35 42 |   bottom row
//! +---------------------+
//! ```

use vstd::prelude::*;
use vstd::string::StringExecFns;
use crate::bits::lemma_ones_bound;
use crate::board::{pairs_at, rows_of_len, Board};
use crate::lines::{four_along, has_four, lemma_fold_four};
use crate::piece::Piece;

verus! {

/// A position.
#[derive(Clone, PartialEq, Eq, Debug)]
pub struct State {
    player: Vec<u64>,
    height: Vec<u8>,
    counter: u8,
    moves: Vec<u8>,
}

impl View for State {
    type V = Board;

    closed spec fn view(&self) -> Board {
        Board {
            masks: self.player@,
            heights: self.height@,
            count: self.counter as nat,
            history: self.moves@,
        }
    }
}

impl State {
    /// The position can be reached by playing from the empty board.
    pub open spec fn wf(&self) -> bool {
        self@.wf()
    }

    /// The empty board.
    pub fn new() -> (state: State)
        ensures
            state@ == Board::empty(),
            state.wf(),
    {
        let mut player: Vec<u64> = Vec::with_capacity(2);
        let mut p: usize = 0;
        while p < 2
            invariant
                p <= 2,
                player@.len() == p,
                forall|j: int| 0 <= j < p ==> player@[j] == 0,
            decreases 2 - p,
        {
            player.push(0);
            p += 1;
        }
        let mut height: Vec<u8> = Vec::with_capacity(7);
        let mut i: u8 = 0;
        while i < 7
            invariant
                i <= 7,
                height@.len() == i,
                forall|j: int| 0 <= j < i ==> height@[j] == 7 * j,
            decreases 7 - i,
        {
            height.push(i * 7);
            i += 1;
        }
        let counter: u8 = 0;
        let moves: Vec<u8> = Vec::new();
        let state = State { player, height, counter, moves };
        proof {
            assert(state@.masks =~= Board::empty().masks);
            assert(state@.heights =~= Board::empty().heights);
        }
        state
    }

    /// Drops a disc of the player to move into `column`. A full column takes
    /// no disc: the position then stays exactly as it is.
    pub fn make_move(&mut self, column: u8)
        requires
            old(self).wf(),
            column < 7,
        ensures
            final(self).wf(),
            final(self)@ == old(self)@.apply_move(column),
            old(self)@.column_full(column as int) ==> final(self)@ == old(self)@,
    {
        proof {
            self@.lemma_wf_inv();
            self@.lemma_count_bounds();
            self@.lemma_apply_wf(column);
        }
        let col = column as usize;
        if self.height[col] % 7 == 6 {
            return ;
        }
        let mask: u64 = 1 << self.height[col];
        self.height[col] += 1;

        let c = self.counter as usize;
        assert(c & 1 == c % 2) by (bit_vector);
        self.player[c & 1] ^= mask;
        self.moves.push(column);
        self.counter += 1;
    }

    /// Takes back the last move. Where no move has been made the position
    /// stays exactly as it is.
    pub fn undo_move(&mut self)
        requires
            old(self).wf(),
        ensures
            final(self).wf(),
            final(self)@ == old(self)@.undo_move(),
            old(self)@.history.len() == 0 ==> final(self)@ == old(self)@,
    {
        proof {
            self@.lemma_wf_inv();
            self@.lemma_undo_wf();
        }
        if self.moves.is_empty() {
            return ;
        }
        proof {
            self@.undo_move().lemma_wf_inv();
        }
        let col = self.moves.pop().unwrap() as usize;
        self.counter -= 1;
        let c = self.counter as usize;
        assert(c & 1 == c % 2) by (bit_vector);
        self.height[col] -= 1;
        let move_: u64 = 1 << self.height[col];
        self.player[c & 1] ^= move_;
    }

    /// How many moves remain until the board is full.
    pub fn moves_left(&self) -> (left: u8)
        requires
            self.wf(),
        ensures
            left == self@.moves_left(),
    {
        proof {
            self@.lemma_count_bounds();
        }
        42 - self.counter
    }

    /// How many moves have been made.
    pub fn moves_performed(&self) -> (made: u8)
        ensures
            made == self@.count,
    {
        self.counter
    }

    /// What the position amounts to: a win of either player, a draw, or
    /// `Empty` while the game is open.
    pub fn winner(&self) -> (outcome: Piece)
        requires
            self.wf(),
        ensures
            outcome == self@.outcome(),
    {
        proof {
            self@.lemma_wf_inv();
        }
        if Self::win_check(&self.player[0]) {
            Piece::P1
        } else if Self::win_check(&self.player[1]) {
            Piece::P2
        } else if self.moves_left() == 0 {
            Piece::Draw
        } else {
            Piece::Empty
        }
    }

    /// Whether `board` holds four in a row: for each direction the mask is
    /// folded onto itself twice, and a bit that survives starts a run of
    /// four.
    pub fn win_check(board: &u64) -> (won: bool)
        ensures
            won == has_four(*board),
    {
        let directions: [u8; 4] = [1, 7, 6, 8];
        let mut k: usize = 0;
        while k < 4
            invariant
                k <= 4,
                directions@ =~= seq![1u8, 7u8, 6u8, 8u8],
                forall|j: int| 0 <= j < k ==> !four_along(*board, #[trigger] directions@[j] as int),
            decreases 4 - k,
        {
            let direction = directions[k];
            let bitboard: u64 = *board & (*board >> direction);
            let d2 = direction * 2;
            proof {
                lemma_fold_four(*board, direction as u64);
            }
            if bitboard & (bitboard >> d2) != 0 {
                return true;
            }
            k += 1;
        }
        false
    }

    /// The columns that take a disc, in ascending order.
    pub fn moves(&self) -> (list: Vec<u8>)
        requires
            self.wf(),
        ensures
            list@ == self@.legal_moves(),
    {
        proof {
            self@.lemma_wf_inv();
        }
        let mut vec: Vec<u8> = Vec::new();
        let mut i: usize = 0;
        while i < self.height.len()
            invariant
                i <= 7,
                self.height@.len() == 7,
                vec@ == self@.legal_moves_below(i as int),
            decreases 7 - i,
        {
            let modulus = self.height[i] % 7;
            if modulus != 6 {
                vec.push(i as u8);
            }
            i += 1;
        }
        vec
    }

    /// The positional score in hundredths, for a position that the search
    /// does not look beyond.
    pub fn heuristic(&self) -> (score: i32)
        requires
            self.wf(),
        ensures
            score == self@.heuristic(),
            -768 <= score <= 768,
    {
        proof {
            self@.lemma_wf_inv();
        }
        let p1_twos = Self::count_rows_of_len(&self.player[0], 2);
        let p1_threes = Self::count_rows_of_len(&self.player[0], 3);

        let p2_twos = Self::count_rows_of_len(&self.player[1], 2);
        let p2_threes = Self::count_rows_of_len(&self.player[1], 3);

        (p1_twos - p2_twos) + 2 * (p1_threes - p2_threes)
    }

    /// Over the four directions, the number of pairs of set bits of `board`
    /// that lie `len - 1` steps apart.
    pub fn count_rows_of_len(board: &u64, len: u8) -> (n: i32)
        requires
            1 <= len <= 8,
        ensures
            n == rows_of_len(*board, len as int),
            0 <= n <= 256,
    {
        let mut accumulator: i32 = 0;
        let direction: [u8; 4] = [1, 7, 6, 8];
        let mut k: usize = 0;
        while k < 4
            invariant
                k <= 4,
                1 <= len <= 8,
                direction@ =~= seq![1u8, 7u8, 6u8, 8u8],
                accumulator == rows_partial(*board, len as int, k as int),
                0 <= accumulator <= 64 * k,
            decreases 4 - k,
        {
            let d = direction[k];
            proof {
                assert(k == 0 ==> d == 1);
                assert(k == 1 ==> d == 7);
                assert(k == 2 ==> d == 6);
                assert(k == 3 ==> d == 8);
                assert(d * (len - 1) <= 56) by (nonlinear_arith)
                    requires
                        d <= 8,
                        1 <= len <= 8,
                ;
            }
            let shift = d * (len - 1);
            let bb: u64 = *board & (*board >> shift);
            proof {
                lemma_ones_bound(bb);
            }
            accumulator += bb.count_ones() as i32;
            k += 1;
        }
        accumulator
    }

    /// The board as text: six lines of seven cells, the top row first, with
    /// `-X-` for the first player, `-O-` for the second and `|_|` for a free
    /// cell.
    pub fn to_string(&self) -> (text: String)
        requires
            self.wf(),
        ensures
            text@ == self@.text(),
    {
        proof {
            self@.lemma_wf_inv();
        }
        let mut string = String::new();
        let mut k: u8 = 0;
        while k < 6
            invariant
                k <= 6,
                self.player@.len() == 2,
                string@ == self@.rows_text(k as int),
            decreases 6 - k,
        {
            let i: u8 = 5 - k;
            let ghost above = string@;
            let mut j: u8 = 0;
            while j < 7
                invariant
                    j <= 7,
                    i <= 5,
                    self.player@.len() == 2,
                    string@ == above + self@.row_text(i as int, j as int),
                decreases 7 - j,
            {
                let factor: u8 = i + 7 * j;
                let p1 = 1 & (self.player[0] >> factor);
                let p2 = 1 & (self.player[1] >> factor);
                proof {
                    let f = factor as u64;
                    let m0 = self.player[0];
                    let m1 = self.player[1];
                    assert(1 & (m0 >> f) == (m0 >> f) & 1) by (bit_vector);
                    assert(1 & (m1 >> f) == (m1 >> f) & 1) by (bit_vector);
                }

                let temp = {
                    if p1 == 1 {
                        "-X-"
                    } else if p2 == 1 {
                        "-O-"
                    } else {
                        "|_|"
                    }
                };

                string.append(temp);
                j += 1;
            }
            string.append("\n");
            k += 1;
        }
        string
    }
}

/// The sum of the first `k` of the four terms of [`rows_of_len`].
spec fn rows_partial(mask: u64, len: int, k: int) -> nat {
    (if k > 0 {
        pairs_at(mask, len - 1)
    } else {
        0
    }) + (if k > 1 {
        pairs_at(mask, 7 * (len - 1))
    } else {
        0
    }) + (if k > 2 {
        pairs_at(mask, 6 * (len - 1))
    } else {
        0
    }) + (if k > 3 {
        pairs_at(mask, 8 * (len - 1))
    } else {
        0
    })
}

} // verus!
