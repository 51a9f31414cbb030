//! The status of a game, which doubles as the identity of a player.

use vstd::prelude::*;

verus! {

/// What a position amounts to: still open (`Empty`), drawn, or won by the
/// first (`P1`) or second (`P2`) player. `P1` and `P2` also name the players.
#[derive(Clone, Copy, PartialEq, Eq, Debug, Structural)]
pub enum Piece {
    Draw,
    Empty,
    P1,
    P2,
}

impl Piece {
    /// The label under which the status is shown.
    pub open spec fn label(self) -> Seq<char> {
        match self {
            Piece::Draw => "Draw"@,
            Piece::Empty => "Empty"@,
            Piece::P1 => "Player 1"@,
            Piece::P2 => "Player 2"@,
        }
    }

    /// The status as text.
    pub fn to_string(&self) -> (text: String)
        ensures
            text@ == self.label(),
    {
        match self {
            Piece::Draw => "Draw".to_string(),
            Piece::Empty => "Empty".to_string(),
            Piece::P1 => "Player 1".to_string(),
            Piece::P2 => "Player 2".to_string(),
        }
    }
}

} // verus!
