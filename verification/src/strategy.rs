//! What a policy that chooses moves has to offer.

use vstd::prelude::*;
use crate::game::Game;
use crate::moves::Move;
use crate::player::Player;

verus! {

/// A policy that chooses a move for a player in a game.
pub trait Strategy {
    /// Chooses the move that `player` makes in `game`. Asked only while some
    /// column has room; the move chosen is one of the legal moves.
    fn best_move(&self, player: Player, game: &Game) -> (m: Move)
        requires
            game@.has_legal_move(),
        ensures
            game@.legal(m),
    ;
}

} // verus!
