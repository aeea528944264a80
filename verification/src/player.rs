//! The two players and the values that stand for their stones on the board.

use vstd::prelude::*;

verus! {

/// Cell value of a stone of the first player.
pub const PLAYER_1_VALUE: u8 = 1;

/// Cell value of a stone of the second player.
pub const PLAYER_2_VALUE: u8 = 2;

/// One of the two sides of a game.
#[derive(Clone, Copy, Debug, PartialEq, Eq, Structural)]
pub enum Player {
    Player1,
    Player2,
}

impl Player {
    /// The cell value of this player's stones, as a specification.
    pub open spec fn spec_value(&self) -> u8 {
        match *self {
            Player::Player1 => PLAYER_1_VALUE,
            Player::Player2 => PLAYER_2_VALUE,
        }
    }

    /// The other player, as a specification.
    pub open spec fn opponent(self) -> Player {
        match self {
            Player::Player1 => Player::Player2,
            Player::Player2 => Player::Player1,
        }
    }

    /// The value written into a cell when this player places a stone.
    #[verifier::when_used_as_spec(spec_value)]
    pub fn value(&self) -> (v: u8)
        ensures
            v == self.spec_value(),
    {
        match *self {
            Player::Player1 => PLAYER_1_VALUE,
            Player::Player2 => PLAYER_2_VALUE,
        }
    }

    /// Hands the turn to the other side.
    pub fn switch(player: Player) -> (other: Player)
        ensures
            other == player.opponent(),
    {
        match player {
            Player::Player1 => Player::Player2,
            Player::Player2 => Player::Player1,
        }
    }

    /// The two players have distinct values, and neither is the value of an
    /// empty cell.
    pub proof fn lemma_values_distinct(p: Player, q: Player)
        ensures
            p.spec_value() != 0,
            p.spec_value() == PLAYER_1_VALUE || p.spec_value() == PLAYER_2_VALUE,
            p.spec_value() == q.spec_value() <==> p == q,
            p.opponent().spec_value() != p.spec_value(),
    {
    }

    /// Switching twice gives the player one started with, and switching once
    /// never does.
    pub proof fn lemma_opponent_involutive(p: Player)
        ensures
            p.opponent().opponent() == p,
            p.opponent() != p,
    {
    }
}

} // verus!
