//! The policy that picks one of the legal moves at random.

use vstd::prelude::*;
use rand::Rng;
use crate::game::Game;
use crate::moves::Move;
use crate::player::Player;
use crate::strategy::Strategy;

verus! {

/// Chooses among the legal moves with equal chances.
pub struct RandomStrategy {}

/// Draws a number below `bound` by `rand::Rng::gen_range` on the generator
/// that `rand::thread_rng` hands out. The range `0..bound` is not empty, so
/// the call returns, and what it returns lies in the range. Nothing is
/// claimed about which number of the range it is.
#[verifier::external_body]
fn random_index(bound: usize) -> (index: usize)
    requires
        bound > 0,
    ensures
        index < bound,
{
    rand::thread_rng().gen_range(0..bound)
}

impl RandomStrategy {
    /// The move at place `index` of `moves`.
    pub fn select(moves: &Vec<Move>, index: usize) -> (m: Move)
        requires
            index < moves@.len(),
        ensures
            m == moves@[index as int],
    {
        moves[index]
    }
}

impl Strategy for RandomStrategy {
    /// Draws a place among the legal moves of `game` and returns the move
    /// that stands there.
    fn best_move(&self, _player: Player, game: &Game) -> (m: Move) {
        let possible_moves = game.possible_moves();
        let move_index: usize = random_index(possible_moves.len());
        let m = RandomStrategy::select(&possible_moves, move_index);
        assert(possible_moves@.contains(m));
        m
    }
}

} // verus!
