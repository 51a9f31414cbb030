//! What the search computes.
//!
//! Scores are whole numbers of hundredths, so that every comparison the
//! search makes is exact: a win of the first player is 100, a win of the
//! second -100, a draw 50, and a position that the search does not look
//! beyond has its positional score. [`negamax_value`] is the value of a
//! position by plain negamax to a given depth, [`alphabeta`] the value that
//! the pruned search returns for a window, and [`lemma_pruning_sound`] relates
//! the two: inside the window they agree, and outside it the pruned value lies
//! on the same side as the plain one.

use vstd::prelude::*;
use crate::board::{lemma_rows_of_len_bounds, Board};
use crate::piece::Piece;

verus! {

/// A bound that no score reaches.
pub const INFINITY: i32 = 2147483647;

/// The larger of two numbers.
pub open spec fn larger(a: int, b: int) -> int {
    if a >= b {
        a
    } else {
        b
    }
}

/// The score of a decided game: 100 for a win of the first player, -100 for
/// a win of the second, 50 for a draw. An open game has none, and 0 stands
/// there.
pub open spec fn utility_of(outcome: Piece) -> int {
    match outcome {
        Piece::Empty => 0,
        Piece::Draw => 50,
        Piece::P1 => 100,
        Piece::P2 => -100,
    }
}

/// The score of a position at which the search stops: the utility of a
/// decided game, else the positional score where no depth is left. `None`
/// where the search goes on.
pub open spec fn leaf_value(b: Board, depth: int) -> Option<int> {
    if b.outcome() != Piece::Empty {
        Some(utility_of(b.outcome()))
    } else if depth == 0 {
        Some(b.heuristic())
    } else {
        None
    }
}

/// The value of `b` by plain negamax to `depth`: the score of a position at
/// which the search stops, else the best over the legal moves of minus the
/// value of the position that the move leads to.
pub open spec fn negamax_value(b: Board, depth: int) -> int
    decreases b.moves_left(), 8int,
    when b.count <= 42
{
    match leaf_value(b, depth) {
        Some(score) => score,
        None => best_reply(b, depth, 0),
    }
}

/// The best, over the playable columns from `c` on, of minus the value of
/// the position that the move leads to; `-INFINITY` where there is none.
pub open spec fn best_reply(b: Board, depth: int, c: int) -> int
    decreases b.moves_left(), 7 - c,
    when b.count < 42 && 0 <= c
{
    if c >= 7 {
        -INFINITY
    } else if !b.playable(c) {
        best_reply(b, depth, c + 1)
    } else {
        larger(-negamax_value(b.apply_move(c as u8), depth - 1), best_reply(b, depth, c + 1))
    }
}

/// The value that the pruned search returns for `b` with the window from
/// `alpha` to `beta`.
pub open spec fn alphabeta(b: Board, depth: int, alpha: int, beta: int) -> int
    decreases b.moves_left(), 8int,
    when b.count <= 42
{
    match leaf_value(b, depth) {
        Some(score) => score,
        None => alphabeta_from(b, depth, alpha, beta, 0, -INFINITY),
    }
}

/// The pruned search over the columns from `c` on, with `value` the best
/// found so far and `alpha` raised to it. Columns are tried in ascending
/// order and full ones passed over; once `alpha` reaches `beta` the rest is
/// left out.
pub open spec fn alphabeta_from(
    b: Board,
    depth: int,
    alpha: int,
    beta: int,
    c: int,
    value: int,
) -> int
    decreases b.moves_left(), 7 - c,
    when b.count < 42 && 0 <= c
{
    if c >= 7 {
        value
    } else if !b.playable(c) {
        alphabeta_from(b, depth, alpha, beta, c + 1, value)
    } else {
        let child = -alphabeta(b.apply_move(c as u8), depth - 1, -beta, -alpha);
        let value = larger(value, child);
        let alpha = larger(alpha, value);
        if alpha >= beta {
            value
        } else {
            alphabeta_from(b, depth, alpha, beta, c + 1, value)
        }
    }
}

/// How a value `v` found with the window from `alpha` to `beta` stands to
/// the true value `m`: equal to it inside the window, and outside the window
/// between the bound that was crossed and `m`.
pub open spec fn within(v: int, m: int, alpha: int, beta: int) -> bool {
    &&& m <= alpha ==> m <= v <= alpha
    &&& alpha < m < beta ==> v == m
    &&& beta <= m ==> beta <= v <= m
}

/// The positional score lies between -768 and 768.
pub proof fn lemma_heuristic_bounds(b: Board)
    ensures
        -768 <= b.heuristic() <= 768,
{
    lemma_rows_of_len_bounds(b.masks[0], 2);
    lemma_rows_of_len_bounds(b.masks[0], 3);
    lemma_rows_of_len_bounds(b.masks[1], 2);
    lemma_rows_of_len_bounds(b.masks[1], 3);
}

/// The plain value of a well-formed board is a score: it lies between -768
/// and 768, far from the infinite bounds.
pub proof fn lemma_negamax_value_bounds(b: Board, depth: int)
    requires
        b.wf(),
    ensures
        -768 <= negamax_value(b, depth) <= 768,
    decreases b.moves_left(), 8int,
{
    b.lemma_count_bounds();
    lemma_heuristic_bounds(b);
    if leaf_value(b, depth) is None {
        b.lemma_moves_left_playable();
        lemma_best_reply_bounds(b, depth, 0);
    }
}

proof fn lemma_best_reply_bounds(b: Board, depth: int, c: int)
    requires
        b.wf(),
        b.count < 42,
        0 <= c,
    ensures
        (exists|x: int| c <= x && #[trigger] b.playable(x)) ==> -768 <= best_reply(b, depth, c)
            <= 768,
        !(exists|x: int| c <= x && #[trigger] b.playable(x)) ==> best_reply(b, depth, c)
            == -INFINITY,
    decreases b.moves_left(), 7 - c,
{
    if c < 7 {
        lemma_best_reply_bounds(b, depth, c + 1);
        if b.playable(c) {
            b.lemma_apply_wf(c as u8);
            b.lemma_wf_inv();
            lemma_negamax_value_bounds(b.apply_move(c as u8), depth - 1);
        }
    }
}

/// The pruned value of a well-formed board stands to its plain value as
/// [`within`] says, for every window.
pub proof fn lemma_pruning_sound(b: Board, depth: int, alpha: int, beta: int)
    requires
        b.wf(),
        -INFINITY <= alpha < beta <= INFINITY,
    ensures
        within(alphabeta(b, depth, alpha, beta), negamax_value(b, depth), alpha, beta),
    decreases b.moves_left(), 8int,
{
    b.lemma_count_bounds();
    if leaf_value(b, depth) is None {
        b.lemma_moves_left_playable();
        lemma_best_reply_bounds(b, depth, 0);
        lemma_pruning_scan_sound(b, depth, alpha, beta, 0, -INFINITY);
    }
}

proof fn lemma_pruning_scan_sound(
    b: Board,
    depth: int,
    alpha: int,
    beta: int,
    c: int,
    value: int,
)
    requires
        b.wf(),
        b.count < 42,
        0 <= c,
        -INFINITY <= value <= alpha < beta <= INFINITY,
    ensures
        within(
            alphabeta_from(b, depth, alpha, beta, c, value),
            larger(value, best_reply(b, depth, c)),
            alpha,
            beta,
        ),
    decreases b.moves_left(), 7 - c,
{
    if c >= 7 {
    } else if !b.playable(c) {
        lemma_pruning_scan_sound(b, depth, alpha, beta, c + 1, value);
    } else {
        let next = b.apply_move(c as u8);
        b.lemma_apply_wf(c as u8);
        b.lemma_wf_inv();
        lemma_pruning_sound(next, depth - 1, -beta, -alpha);
        let child = -alphabeta(next, depth - 1, -beta, -alpha);
        let value2 = larger(value, child);
        let alpha2 = larger(alpha, value2);
        if alpha2 < beta {
            lemma_pruning_scan_sound(b, depth, alpha2, beta, c + 1, value2);
        }
    }
}

/// With the window wide open the pruned search returns the plain value:
/// pruning changes which positions are visited, never the result.
pub proof fn lemma_open_window_exact(b: Board, depth: int)
    requires
        b.wf(),
    ensures
        alphabeta(b, depth, -INFINITY, INFINITY as int) == negamax_value(b, depth),
{
    lemma_pruning_sound(b, depth, -INFINITY, INFINITY as int);
    lemma_negamax_value_bounds(b, depth);
}

/// The pruned value of a well-formed board never falls below `-INFINITY`
/// nor rises above `INFINITY`, whatever the window.
pub proof fn lemma_alphabeta_bounds(b: Board, depth: int, alpha: int, beta: int)
    requires
        b.wf(),
    ensures
        -INFINITY <= alphabeta(b, depth, alpha, beta) <= INFINITY,
    decreases b.moves_left(), 8int,
{
    b.lemma_count_bounds();
    lemma_heuristic_bounds(b);
    if leaf_value(b, depth) is None {
        lemma_alphabeta_from_bounds(b, depth, alpha, beta, 0, -INFINITY);
    }
}

proof fn lemma_alphabeta_from_bounds(
    b: Board,
    depth: int,
    alpha: int,
    beta: int,
    c: int,
    value: int,
)
    requires
        b.wf(),
        b.count < 42,
        0 <= c,
        -INFINITY <= value <= INFINITY,
    ensures
        -INFINITY <= alphabeta_from(b, depth, alpha, beta, c, value) <= INFINITY,
    decreases b.moves_left(), 7 - c,
{
    if c >= 7 {
    } else if !b.playable(c) {
        lemma_alphabeta_from_bounds(b, depth, alpha, beta, c + 1, value);
    } else {
        let next = b.apply_move(c as u8);
        b.lemma_apply_wf(c as u8);
        b.lemma_wf_inv();
        lemma_alphabeta_bounds(next, depth - 1, -beta, -alpha);
        let child = -alphabeta(next, depth - 1, -beta, -alpha);
        let value2 = larger(value, child);
        let alpha2 = larger(alpha, value2);
        if alpha2 < beta {
            lemma_alphabeta_from_bounds(b, depth, alpha2, beta, c + 1, value2);
        }
    }
}

} // verus!
