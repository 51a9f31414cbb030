//! The player: a depth-limited negamax search with alpha-beta pruning over a
//! position of its own.

use vstd::prelude::*;
use crate::board::Board;
use crate::piece::Piece;
use crate::search::{
    alphabeta, alphabeta_from, leaf_value, lemma_alphabeta_bounds, lemma_negamax_value_bounds,
    lemma_open_window_exact, lemma_pruning_sound, negamax_value, utility_of, within, INFINITY,
};
use crate::state::State;

verus! {

/// A column of the board, as a move.
pub type A = u8;

/// A player that keeps its own copy of the position. It is told the other
/// side's moves, and answers each with the move that its search prefers.
pub struct MinimaxAgent {
    player: Piece,
    state: State,
    alpha: i32,
    beta: i32,
}

/// The position after the other side's reply, where there was one.
pub open spec fn after_reply(b: Board, last_move: Option<u8>) -> Board {
    match last_move {
        Some(column) => b.apply_move(column),
        None => b,
    }
}

/// The value by which the player judges a move: the plain negamax value, one
/// ply less deep, of the position that the move leads to.
pub open spec fn move_value(b: Board, depth: int, column: u8) -> int {
    negamax_value(b.apply_move(column), depth - 1)
}

/// Whether `player` takes a move of value `new` over one of value `best`:
/// the first player takes the larger value, the second the smaller, and
/// anyone else does not choose.
pub open spec fn improves(player: Piece, new: int, best: int) -> bool {
    (player == Piece::P1 && new > best) || (player == Piece::P2 && new < best)
}

/// `column` is the move that `player` makes on `b` when searching to
/// `depth`: a playable column that no other improves on, and the lowest
/// such.
pub open spec fn is_best_move(b: Board, depth: int, player: Piece, column: u8) -> bool {
    &&& b.playable(column as int)
    &&& forall|c: int| #[trigger]
        b.playable(c) ==> !improves(
            player,
            move_value(b, depth, c as u8),
            move_value(b, depth, column),
        )
    &&& forall|c: int| #[trigger]
        b.playable(c) && c < column ==> improves(
            player,
            move_value(b, depth, column),
            move_value(b, depth, c as u8),
        )
}

/// At most one column is the move that `player` makes on `b`.
pub proof fn lemma_best_move_unique(b: Board, depth: int, player: Piece, c1: u8, c2: u8)
    requires
        is_best_move(b, depth, player, c1),
        is_best_move(b, depth, player, c2),
    ensures
        c1 == c2,
{
    if c1 < c2 {
        assert(b.playable(c1 as int) && c1 < c2);
    } else if c2 < c1 {
        assert(b.playable(c2 as int) && c2 < c1);
    }
}

/// The column that the search tries at step `i` of `moves`, and 7 once the
/// list is used up.
spec fn next_column(moves: Seq<u8>, i: int) -> int {
    if i < moves.len() {
        moves[i] as int
    } else {
        7
    }
}

/// The columns that the list of legal moves leaves out before step `i` take
/// no disc.
proof fn lemma_gap(b: Board, moves: Seq<u8>, i: int)
    requires
        b.lists_playable_below(moves, 7),
        0 <= i <= moves.len(),
    ensures
        forall|c: int|
            (if i == 0 {
                0
            } else {
                moves[i - 1] + 1
            }) <= c < next_column(moves, i) ==> !b.playable(c),
{
    assert forall|c: int|
        (if i == 0 {
            0
        } else {
            moves[i - 1] + 1
        }) <= c < next_column(moves, i) implies !b.playable(c) by {
        if b.playable(c) {
            assert(moves.contains(c as u8));
        }
    }
}

/// Passing over columns that take no disc does not change what the pruned
/// search returns.
proof fn lemma_skip_full(
    b: Board,
    depth: int,
    alpha: int,
    beta: int,
    lo: int,
    hi: int,
    value: int,
)
    requires
        b.count < 42,
        0 <= lo <= hi <= 7,
        forall|c: int| lo <= c < hi ==> !b.playable(c),
    ensures
        alphabeta_from(b, depth, alpha, beta, lo, value) == alphabeta_from(
            b,
            depth,
            alpha,
            beta,
            hi,
            value,
        ),
    decreases hi - lo,
{
    if lo < hi {
        lemma_skip_full(b, depth, alpha, beta, lo + 1, hi, value);
    }
}

impl MinimaxAgent {
    /// The side that the agent plays.
    pub closed spec fn player(&self) -> Piece {
        self.player
    }

    /// The position as the agent knows it.
    pub closed spec fn board(&self) -> Board {
        self.state@
    }

    /// The agent's position can be reached by playing.
    pub open spec fn wf(&self) -> bool {
        self.board().wf()
    }

    /// An agent for `player`, at the empty board.
    pub fn new(player: Piece) -> (agent: MinimaxAgent)
        ensures
            agent.wf(),
            agent.player() == player,
            agent.board() == Board::empty(),
    {
        let state = State::new();
        let alpha = -INFINITY;
        let beta = INFINITY;

        MinimaxAgent { player, state, alpha, beta }
    }

    /// Takes note of the other side's last move, if there was one, searches
    /// to `depth` plies, makes the move that the search prefers and returns
    /// its column.
    ///
    /// Each legal move is valued by the search of the position it leads to,
    /// with the window wide open, and the value is taken as the search
    /// returns it. The first player takes the largest value and the second
    /// the smallest, each the lowest column among equals. Both moves stay on
    /// the agent's board.
    pub fn run(&mut self, depth: i32, last_move: Option<A>) -> (column: A)
        requires
            old(self).wf(),
            depth >= 1,
            last_move matches Some(c) ==> c < 7,
            after_reply(old(self).board(), last_move).legal_moves().len() > 0,
        ensures
            final(self).wf(),
            final(self).player() == old(self).player(),
            is_best_move(
                after_reply(old(self).board(), last_move),
                depth as int,
                old(self).player(),
                column,
            ),
            final(self).board() == after_reply(old(self).board(), last_move).apply_move(column),
    {
        // Apply our opponent's move if applicable.
        if let Some(action) = last_move {
            self.state.make_move(action);
        }
        let ghost b = self.state@;
        proof {
            b.lemma_legal_moves();
        }

        // Set up for the initial action loop.
        let moves = self.state.moves();
        let mut best_action = moves[0];
        let ghost mut best_index: int = 0;

        let mut value: i32 = if self.player == Piece::P1 {
            -INFINITY
        } else {
            INFINITY
        };
        self.alpha = -INFINITY;
        self.beta = INFINITY;

        // Use negamax on each initial action.
        let mut i: usize = 0;
        while i < moves.len()
            invariant
                self.state.wf(),
                self.state@ == b,
                self.player == old(self).player,
                self.alpha == -INFINITY,
                self.beta == INFINITY,
                depth >= 1,
                moves@ == b.legal_moves(),
                b.lists_playable_below(moves@, 7),
                i <= moves.len(),
                0 <= best_index < moves.len(),
                best_action == moves@[best_index],
                i == 0 ==> best_index == 0,
                i == 0 && self.player == Piece::P1 ==> value == -INFINITY,
                i == 0 && self.player != Piece::P1 ==> value == INFINITY,
                i > 0 ==> best_index < i,
                i > 0 && (self.player == Piece::P1 || self.player == Piece::P2) ==> value
                    == move_value(b, depth as int, best_action),
                self.player != Piece::P1 && self.player != Piece::P2 ==> best_index == 0,
                forall|j: int|
                    0 <= j < i ==> !improves(
                        self.player,
                        #[trigger] move_value(b, depth as int, moves@[j]),
                        value as int,
                    ),
                forall|j: int|
                    0 <= j < best_index ==> improves(
                        self.player,
                        value as int,
                        #[trigger] move_value(b, depth as int, moves@[j]),
                    ),
            decreases moves.len() - i,
        {
            let action = moves[i];
            proof {
                b.lemma_apply_wf(action);
                b.lemma_apply_undo(action);
                lemma_open_window_exact(b.apply_move(action), depth - 1);
                lemma_negamax_value_bounds(b.apply_move(action), depth - 1);
            }
            self.state.make_move(action);
            let lower = -self.beta;
            let upper = -self.alpha;
            let result = Self::negamax(&mut self.state, depth - 1, lower, upper);
            self.state.undo_move();

            // Tracking best action
            if self.player == Piece::P1 && result > value || self.player == Piece::P2 && result
                < value {
                value = result;
                best_action = action;
                proof {
                    best_index = i as int;
                }
            }
            i += 1;
        }
        proof {
            let player = self.player;
            assert forall|c: int| #[trigger] b.playable(c) implies !improves(
                player,
                move_value(b, depth as int, c as u8),
                move_value(b, depth as int, best_action),
            ) by {
                assert(moves@.contains(c as u8));
            }
            assert forall|c: int| #[trigger] b.playable(c) && c < best_action implies improves(
                player,
                move_value(b, depth as int, best_action),
                move_value(b, depth as int, c as u8),
            ) by {
                assert(moves@.contains(c as u8));
            }
        }
        self.state.make_move(best_action);
        best_action
    }

    /// The value of the position for the window from `alpha` to `beta`,
    /// searched to `depth` plies. The position is the one reached by the
    /// move under consideration; the moves tried from it are taken back, so
    /// that it is the same afterwards.
    pub fn negamax(state: &mut State, depth: i32, alpha: i32, beta: i32) -> (value: i32)
        requires
            old(state).wf(),
            depth >= 0,
            alpha >= -INFINITY,
            beta >= -INFINITY,
        ensures
            final(state).wf(),
            final(state)@ == old(state)@,
            value == alphabeta(old(state)@, depth as int, alpha as int, beta as int),
            alpha < beta ==> within(
                value as int,
                negamax_value(old(state)@, depth as int),
                alpha as int,
                beta as int,
            ),
            value >= -INFINITY,
        decreases old(state)@.moves_left(),
    {
        let ghost b = state@;
        proof {
            b.lemma_count_bounds();
            b.lemma_legal_moves();
            lemma_alphabeta_bounds(b, depth as int, alpha as int, beta as int);
            if alpha < beta {
                lemma_pruning_sound(b, depth as int, alpha as int, beta as int);
            }
        }
        if let Some(value) = Self::terminal(state, depth) {
            return value;
        }
        // Evaluate children

        let mut value: i32 = -INFINITY;
        let mut alpha: i32 = alpha;
        let ghost alpha0 = alpha;
        let moves = state.moves();
        let mut i: usize = 0;
        proof {
            lemma_gap(b, moves@, 0);
            lemma_skip_full(
                b,
                depth as int,
                alpha as int,
                beta as int,
                0,
                next_column(moves@, 0),
                -INFINITY,
            );
        }
        while i < moves.len()
            invariant_except_break
                alphabeta(b, depth as int, alpha0 as int, beta as int) == alphabeta_from(
                    b,
                    depth as int,
                    alpha as int,
                    beta as int,
                    next_column(moves@, i as int),
                    value as int,
                ),
            invariant
                state.wf(),
                state@ == b,
                b.wf(),
                b.count < 42,
                depth >= 1,
                moves@ == b.legal_moves(),
                b.lists_playable_below(moves@, 7),
                i <= moves.len(),
                alpha >= -INFINITY,
                beta >= -INFINITY,
                value >= -INFINITY,
                b.moves_left() == old(state)@.moves_left(),
            ensures
                value == alphabeta(b, depth as int, alpha0 as int, beta as int),
            decreases moves.len() - i,
        {
            let action = moves[i];
            proof {
                b.lemma_wf_inv();
                b.lemma_apply_wf(action);
                b.lemma_apply_undo(action);
                lemma_alphabeta_bounds(b.apply_move(action), depth - 1, -beta, -alpha);
            }
            // Recursive call
            state.make_move(action);
            let result = -Self::negamax(state, depth - 1, -beta, -alpha);
            state.undo_move();

            // Pruning
            if result > value {
                value = result;
            }
            if value > alpha {
                alpha = value;
            }
            if alpha >= beta {
                break ;
            }
            proof {
                lemma_gap(b, moves@, i + 1);
                lemma_skip_full(
                    b,
                    depth as int,
                    alpha as int,
                    beta as int,
                    action + 1,
                    next_column(moves@, i + 1),
                    value as int,
                );
            }
            i += 1;
        }

        value
    }

    /// The score of a decided game: 100 for a win of the first player, -100
    /// for a win of the second, 50 for a draw.
    pub fn utility(winner: Piece) -> (score: i32)
        ensures
            score == utility_of(winner),
    {
        match winner {
            Piece::Empty => 0,
            Piece::Draw => 50,
            Piece::P1 => 100,
            Piece::P2 => -100,
        }
    }

    /// The score of a position at which the search stops: the utility where
    /// the game is decided, else the positional score where no depth is
    /// left. `None` where the search goes on.
    pub fn terminal(state: &State, depth: i32) -> (score: Option<i32>)
        requires
            state.wf(),
        ensures
            score matches Some(v) ==> leaf_value(state@, depth as int) == Some(v as int),
            score is None ==> leaf_value(state@, depth as int) is None,
    {
        let winner = state.winner();
        // Either the game is over
        if winner != Piece::Empty {
            Some(Self::utility(winner))
        }
        // Or the search depth has been reached.
         else if depth == 0 {
            Some(state.heuristic())
        } else {
            None
        }
    }
}

} // verus!
