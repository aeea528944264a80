//! One game played from the empty board by a policy that moves for both
//! sides, and what is kept of it.

use vstd::prelude::*;
use crate::board::{
    BOARD_SIZE, COLUMNS, stone_count, lemma_stone_count_after_place, lemma_stone_count_bound,
};
use crate::game::Game;
use crate::hash::board_hash;
use crate::moves::Move;
use crate::player::Player;
use crate::position::Position;
use crate::strategy::Strategy;

verus! {

/// The number of moves after which a game is broken off.
pub const MAX_TURNS: usize = BOARD_SIZE - 1;

/// The player who makes the move with the number `turn`; the first player
/// makes the move with the number zero.
pub open spec fn player_on_turn(turn: int) -> Player {
    if turn % 2 == 0 {
        Player::Player1
    } else {
        Player::Player2
    }
}

/// The position after `moves` have been made from the empty board, the
/// players taking turns.
pub open spec fn replay(moves: Seq<Move>) -> Position
    decreases moves.len(),
{
    if moves.len() == 0 {
        Position::initial()
    } else {
        replay(moves.drop_last()).play(moves.last(), player_on_turn(moves.len() - 1))
    }
}

/// Whether every one of `moves` was legal when it was made, and was made
/// while the game had no winner.
pub open spec fn by_the_rules(moves: Seq<Move>) -> bool {
    forall|k: int|
        #![trigger moves.take(k)]
        0 <= k < moves.len() ==> replay(moves.take(k)).winner is None && replay(
            moves.take(k),
        ).legal(moves[k])
}

/// The moves of a game in the order they were made, from the moves of the
/// player who began and those of the player who followed.
pub open spec fn interleaved(first: Seq<Move>, second: Seq<Move>) -> Seq<Move> {
    Seq::new(
        first.len() + second.len(),
        |k: int|
            if k % 2 == 0 {
                first[k / 2]
            } else {
                second[k / 2]
            },
    )
}

/// The encodings, from the perspective of `me`, of the boards that followed
/// each of `moves`.
pub open spec fn states_seen(moves: Seq<Move>, me: Player) -> Seq<i128> {
    Seq::new(moves.len(), |k: int| board_hash(replay(moves.take(k + 1)).board, me) as i128)
}

/// One more move leads on from the position that the moves before it led to.
pub proof fn lemma_replay_push(moves: Seq<Move>, m: Move)
    ensures
        replay(moves.push(m)) == replay(moves).play(m, player_on_turn(moves.len() as int)),
{
    assert(moves.push(m).drop_last() =~= moves);
}

/// Moves made by the rules lead to a well-formed position that holds one
/// stone for each move.
pub proof fn lemma_replay_wf(moves: Seq<Move>)
    requires
        by_the_rules(moves),
    ensures
        replay(moves).wf(),
        stone_count(replay(moves).board) == moves.len(),
    decreases moves.len(),
{
    if moves.len() == 0 {
        Position::lemma_initial_wf();
        lemma_empty_count();
    } else {
        let before = moves.drop_last();
        let m = moves.last();
        let n = before.len() as int;
        assert(moves.take(n) =~= before);
        assert forall|k: int| 0 <= k < before.len() implies replay(
            #[trigger] before.take(k),
        ).winner is None && replay(before.take(k)).legal(before[k]) by {
            assert(moves.take(k) =~= before.take(k));
        }
        lemma_replay_wf(before);
        let player = player_on_turn(n);
        replay(before).lemma_play_keeps_wf(m, player);
        lemma_stone_count_after_place(
            replay(before).board,
            m.column as int,
            m.row as int,
            player.spec_value(),
        );
    }
}

proof fn lemma_empty_count()
    ensures
        stone_count(crate::board::empty_board()) == 0,
{
    let b = crate::board::empty_board();
    assert forall|c: int| 0 <= c < COLUMNS implies #[trigger] crate::board::height(b, c) == 0 by {
        assert(b[c][0] == 0);
    }
    reveal_with_fuel(crate::board::stones_below, 8);
}

/// What is kept of one game: who won, how many moves were made, the moves
/// of each player and, for each player, the encoding of the board after every
/// move from that player's perspective.
pub struct GameRecord {
    pub winner: Option<Player>,
    pub turns: usize,
    pub player_1_moves: Vec<Move>,
    pub player_2_moves: Vec<Move>,
    pub player_1_states: Vec<i128>,
    pub player_2_states: Vec<i128>,
}

impl GameRecord {
    /// The moves of the game in the order they were made.
    pub open spec fn moves(&self) -> Seq<Move> {
        interleaved(self.player_1_moves@, self.player_2_moves@)
    }

    /// Whether this is the record of a game in which the players took turns,
    /// the first player beginning, and every move was made by the rules.
    pub open spec fn wf(&self) -> bool {
        &&& self.player_2_moves@.len() <= self.player_1_moves@.len() <= self.player_2_moves@.len()
            + 1
        &&& self.turns == self.moves().len()
        &&& by_the_rules(self.moves())
        &&& self.winner == replay(self.moves()).winner
        &&& self.player_1_states@ == states_seen(self.moves(), Player::Player1)
        &&& self.player_2_states@ == states_seen(self.moves(), Player::Player2)
    }
}

/// Adding the next move to the list of the player whose turn it is adds it
/// to the moves of the game.
pub proof fn lemma_interleaved_push(first: Seq<Move>, second: Seq<Move>, m: Move)
    requires
        second.len() <= first.len() <= second.len() + 1,
    ensures
        first.len() == second.len() ==> interleaved(first.push(m), second) == interleaved(
            first,
            second,
        ).push(m),
        first.len() == second.len() + 1 ==> interleaved(first, second.push(m)) == interleaved(
            first,
            second,
        ).push(m),
{
    if first.len() == second.len() {
        assert(interleaved(first.push(m), second) =~= interleaved(first, second).push(m));
    } else {
        assert(interleaved(first, second.push(m)) =~= interleaved(first, second).push(m));
    }
}

/// One more move made by the rules keeps the game by the rules and adds one
/// encoding to those seen.
pub proof fn lemma_by_the_rules_push(moves: Seq<Move>, m: Move, me: Player)
    requires
        by_the_rules(moves),
        replay(moves).winner is None,
        replay(moves).legal(m),
    ensures
        by_the_rules(moves.push(m)),
        states_seen(moves.push(m), me) == states_seen(moves, me).push(
            board_hash(replay(moves.push(m)).board, me) as i128,
        ),
{
    let longer = moves.push(m);
    assert forall|k: int| 0 <= k < longer.len() implies replay(
        #[trigger] longer.take(k),
    ).winner is None && replay(longer.take(k)).legal(longer[k]) by {
        if k < moves.len() {
            assert(longer.take(k) =~= moves.take(k));
        } else {
            assert(longer.take(k) =~= moves);
        }
    }
    assert forall|k: int| 0 <= k < longer.len() implies #[trigger] states_seen(longer, me)[k]
        == states_seen(moves, me).push(board_hash(replay(longer).board, me) as i128)[k] by {
        if k < moves.len() {
            assert(longer.take(k + 1) =~= moves.take(k + 1));
        } else {
            assert(longer.take(k + 1) =~= longer);
        }
    }
    assert(states_seen(longer, me) =~= states_seen(moves, me).push(
        board_hash(replay(longer).board, me) as i128,
    ));
}

/// A game that is being played and recorded: the game as it stands, the
/// player whose turn it is, and the record of the moves made so far.
pub struct Playthrough {
    pub game: Game,
    pub player: Player,
    pub record: GameRecord,
}

impl Playthrough {
    /// Whether the record is that of the game as it stands, and the turn is
    /// with the player whose turn it is after the moves recorded.
    pub open spec fn wf(&self) -> bool {
        &&& self.record.wf()
        &&& self.record.turns <= MAX_TURNS
        &&& self.game@ == replay(self.record.moves())
        &&& self.player == player_on_turn(self.record.turns as int)
    }

    /// Whether the game has come to its end: a player has won, or
    /// `MAX_TURNS` moves have been made.
    pub open spec fn over(&self) -> bool {
        self.game.winner is Some || self.record.turns >= MAX_TURNS
    }

    /// The start of a game: the empty board, the first player to move, and
    /// nothing recorded.
    pub fn new() -> (start: Playthrough)
        ensures
            start.wf(),
            !start.over(),
            start.game@ == Position::initial(),
            start.player == Player::Player1,
            start.record.turns == 0,
            start.record.winner is None,
            start.record.player_1_moves@.len() == 0,
            start.record.player_2_moves@.len() == 0,
            start.record.player_1_states@.len() == 0,
            start.record.player_2_states@.len() == 0,
    {
        let start = Playthrough {
            game: Game::new(),
            player: Player::Player1,
            record: GameRecord {
                winner: None,
                turns: 0,
                player_1_moves: Vec::new(),
                player_2_moves: Vec::new(),
                player_1_states: Vec::new(),
                player_2_states: Vec::new(),
            },
        };
        proof {
            assert(start.record.moves() =~= Seq::<Move>::empty());
            assert(states_seen(start.record.moves(), Player::Player1)
                =~= start.record.player_1_states@);
            assert(states_seen(start.record.moves(), Player::Player2)
                =~= start.record.player_2_states@);
        }
        start
    }

    /// Whether the game has come to its end.
    pub fn is_over(&self) -> (over: bool)
        ensures
            over == self.over(),
    {
        self.game.winner.is_some() || self.record.turns >= MAX_TURNS
    }

    /// While the game is not over some column has room for a stone.
    pub proof fn lemma_can_move(&self)
        requires
            self.wf(),
            !self.over(),
        ensures
            self.game.wf(),
            self.game@.has_legal_move(),
    {
        lemma_replay_wf(self.record.moves());
        lemma_stone_count_bound(self.game@.board);
        self.game@.lemma_legal_moves();
    }

    /// Makes the move `m` for the player whose turn it is and records it: the
    /// move goes to that player's list, the board as each player sees it
    /// afterwards to that player's states, and the turn to the other player.
    pub fn advance(&mut self, m: Move)
        requires
            old(self).wf(),
            !old(self).over(),
            old(self).game@.legal(m),
        ensures
            final(self).wf(),
            final(self).game@ == old(self).game@.play(m, old(self).player),
            final(self).player == old(self).player.opponent(),
            final(self).record.turns == old(self).record.turns + 1,
            final(self).record.winner == final(self).game@.winner,
            final(self).record.moves() == old(self).record.moves().push(m),
            final(self).record.player_1_moves@ == (if old(self).player == Player::Player1 {
                old(self).record.player_1_moves@.push(m)
            } else {
                old(self).record.player_1_moves@
            }),
            final(self).record.player_2_moves@ == (if old(self).player == Player::Player2 {
                old(self).record.player_2_moves@.push(m)
            } else {
                old(self).record.player_2_moves@
            }),
            final(self).record.player_1_states@ == old(self).record.player_1_states@.push(
                board_hash(final(self).game@.board, Player::Player1) as i128,
            ),
            final(self).record.player_2_states@ == old(self).record.player_2_states@.push(
                board_hash(final(self).game@.board, Player::Player2) as i128,
            ),
    {
        proof {
            let moves = self.record.moves();
            lemma_interleaved_push(self.record.player_1_moves@, self.record.player_2_moves@, m);
            lemma_replay_push(moves, m);
            lemma_by_the_rules_push(moves, m, Player::Player1);
            lemma_by_the_rules_push(moves, m, Player::Player2);
        }
        match self.player {
            Player::Player1 => self.record.player_1_moves.push(m),
            Player::Player2 => self.record.player_2_moves.push(m),
        }
        self.game.do_move(m, self.player);
        self.record.player_1_states.push(self.game.calculate_hash(Player::Player1));
        self.record.player_2_states.push(self.game.calculate_hash(Player::Player2));
        self.record.winner = self.game.winner;
        self.player = Player::switch(self.player);
        self.record.turns += 1;
    }
}

/// Whether the move with the number `k` among `moves` is an answer of
/// `strategy`: asked for the player whose turn it was, in a game that stood
/// where the moves before it had led, `strategy` could give that move.
pub open spec fn chosen_at<S: Strategy>(strategy: &S, moves: Seq<Move>, k: int) -> bool {
    exists|game: Game|
        #![trigger game@]
        game@ == replay(moves.take(k)) && call_ensures(
            S::best_move,
            (strategy, player_on_turn(k), &game),
            moves[k],
        )
}

/// Whether every one of `moves` is an answer of `strategy` for the player
/// whose turn it was, in the game as it stood.
pub open spec fn chosen_by<S: Strategy>(strategy: &S, moves: Seq<Move>) -> bool {
    forall|k: int| 0 <= k < moves.len() ==> #[trigger] chosen_at(strategy, moves, k)
}

/// Moves chosen by a strategy stay so when the strategy's answer for the
/// game they led to is added to them.
pub proof fn lemma_chosen_by_push<S: Strategy>(strategy: &S, moves: Seq<Move>, game: Game, m: Move)
    requires
        chosen_by(strategy, moves),
        game@ == replay(moves),
        call_ensures(S::best_move, (strategy, player_on_turn(moves.len() as int), &game), m),
    ensures
        chosen_by(strategy, moves.push(m)),
{
    let longer = moves.push(m);
    assert forall|k: int| 0 <= k < longer.len() implies #[trigger] chosen_at(
        strategy,
        longer,
        k,
    ) by {
        if k < moves.len() {
            assert(chosen_at(strategy, moves, k));
            let earlier = choose|earlier: Game|
                #![trigger earlier@]
                earlier@ == replay(moves.take(k)) && call_ensures(
                    S::best_move,
                    (strategy, player_on_turn(k), &earlier),
                    moves[k],
                );
            assert(longer.take(k) =~= moves.take(k));
            assert(earlier@ == replay(longer.take(k)));
        } else {
            assert(longer.take(k) =~= moves);
            assert(game@ == replay(longer.take(k)));
        }
    }
}

/// Plays one game from the empty board: `strategy` is asked for every move,
/// for both players in turn, the first player beginning, and its answer is
/// the move that is made, until a player has won or `MAX_TURNS` moves have
/// been made.
pub fn play_game<S: Strategy>(strategy: &S) -> (record: GameRecord)
    ensures
        record.wf(),
        record.turns <= MAX_TURNS,
        record.winner is Some || record.turns == MAX_TURNS,
        chosen_by(strategy, record.moves()),
{
    let mut playthrough = Playthrough::new();
    while !playthrough.is_over()
        invariant
            playthrough.wf(),
            chosen_by(strategy, playthrough.record.moves()),
        decreases MAX_TURNS - playthrough.record.turns,
    {
        proof {
            playthrough.lemma_can_move();
        }
        let ghost asked = playthrough.game;
        let ghost moves = playthrough.record.moves();
        let best_move = strategy.best_move(playthrough.player, &playthrough.game);
        proof {
            lemma_chosen_by_push(strategy, moves, asked, best_move);
        }
        playthrough.advance(best_move);
    }
    playthrough.record
}

} // verus!
