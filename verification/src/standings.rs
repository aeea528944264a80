//! The scores gathered over many games: by move, by board as each player saw
//! it, and the number of moves made in all.

use vstd::prelude::*;
use crate::moves::Move;
use crate::player::Player;
use crate::score::Tally;
use crate::selfplay::{GameRecord, MAX_TURNS, chosen_by, play_game};
use crate::strategy::Strategy;
use crate::table::{ScoreTable, credited_all};

verus! {

/// The largest number of games that `simulate` plays in one go. Every game
/// adds up to `2 * MAX_TURNS` observations of boards, and with more games
/// their number could outgrow the 32 bits of a score.
pub const MAX_GAMES: u32 = 26_188_824;

/// The codes of `moves`, in the same order.
pub open spec fn move_codes(moves: Seq<Move>) -> Seq<u16> {
    Seq::new(moves.len(), |i: int| moves[i].spec_code())
}

/// What standings stand for: the tallies by move code, the tallies by board
/// encoding, and the number of moves made in all games.
pub struct StandingsView {
    pub move_scores: Map<u16, Tally>,
    pub state_scores: Map<i128, Tally>,
    pub total_turns: int,
}

impl StandingsView {
    /// The standings before any game.
    pub open spec fn empty() -> StandingsView {
        StandingsView { move_scores: Map::empty(), state_scores: Map::empty(), total_turns: 0 }
    }

    /// The standings after one more game. A game without a winner adds its
    /// moves to the count and nothing else. Otherwise every move of the winner
    /// and every board as the winner saw it is counted as won, and every move
    /// of the loser and every board as the loser saw it as lost; the first
    /// player's come first.
    pub open spec fn with_game(self, record: GameRecord) -> StandingsView {
        match record.winner {
            None => StandingsView {
                move_scores: self.move_scores,
                state_scores: self.state_scores,
                total_turns: self.total_turns + record.turns,
            },
            Some(winner) => StandingsView {
                move_scores: credited_all(
                    credited_all(
                        self.move_scores,
                        move_codes(record.player_1_moves@),
                        winner == Player::Player1,
                    ),
                    move_codes(record.player_2_moves@),
                    winner == Player::Player2,
                ),
                state_scores: credited_all(
                    credited_all(
                        self.state_scores,
                        record.player_1_states@,
                        winner == Player::Player1,
                    ),
                    record.player_2_states@,
                    winner == Player::Player2,
                ),
                total_turns: self.total_turns + record.turns,
            },
        }
    }

    /// The standings after each of `records` was added, one after the other.
    pub open spec fn with_games(self, records: Seq<GameRecord>) -> StandingsView
        decreases records.len(),
    {
        if records.len() == 0 {
            self
        } else {
            self.with_games(records.drop_last()).with_game(records.last())
        }
    }
}

/// Scores by move and by board, and the number of moves made in all.
pub struct Standings {
    pub move_scores: ScoreTable<u16>,
    pub state_scores: ScoreTable<i128>,
    pub total_turns: i64,
}

impl View for Standings {
    type V = StandingsView;

    open spec fn view(&self) -> StandingsView {
        StandingsView {
            move_scores: self.move_scores@,
            state_scores: self.state_scores@,
            total_turns: self.total_turns as int,
        }
    }
}

/// The codes of `moves`, in the same order.
pub fn collect_codes(moves: &Vec<Move>) -> (codes: Vec<u16>)
    ensures
        codes@ == move_codes(moves@),
{
    let mut codes: Vec<u16> = Vec::new();
    let mut i: usize = 0;
    while i < moves.len()
        invariant
            i <= moves@.len(),
            codes@ == move_codes(moves@.take(i as int)),
        decreases moves@.len() - i,
    {
        codes.push(moves[i].code());
        i += 1;
        assert(codes@ =~= move_codes(moves@.take(i as int)));
    }
    assert(moves@.take(i as int) =~= moves@);
    codes
}

impl Standings {
    /// Whether both tables are in order and the count of moves is not
    /// negative.
    pub open spec fn wf(&self) -> bool {
        self.move_scores.wf() && self.state_scores.wf() && self.total_turns >= 0
    }

    /// Standings before any game.
    pub fn new() -> (standings: Standings)
        ensures
            standings.wf(),
            standings@ == StandingsView::empty(),
            standings.move_scores.observed() == 0,
            standings.state_scores.observed() == 0,
    {
        Standings {
            move_scores: ScoreTable::new(),
            state_scores: ScoreTable::new(),
            total_turns: 0,
        }
    }

    /// Adds what one game has shown to the standings.
    pub fn add_game(&mut self, record: &GameRecord)
        requires
            old(self).wf(),
            old(self).move_scores.observed() + record.player_1_moves@.len()
                + record.player_2_moves@.len() <= i32::MAX,
            old(self).state_scores.observed() + record.player_1_states@.len()
                + record.player_2_states@.len() <= i32::MAX,
            old(self).total_turns + record.turns <= i64::MAX,
        ensures
            final(self).wf(),
            final(self)@ == old(self)@.with_game(*record),
            final(self).move_scores.observed() == old(self).move_scores.observed() + (
            if record.winner is Some {
                record.player_1_moves@.len() + record.player_2_moves@.len()
            } else {
                0
            }),
            final(self).state_scores.observed() == old(self).state_scores.observed() + (
            if record.winner is Some {
                record.player_1_states@.len() + record.player_2_states@.len()
            } else {
                0
            }),
    {
        match record.winner {
            Some(winner) => {
                let first_won = winner == Player::Player1;
                assert(!first_won == (winner == Player::Player2));
                let first_codes = collect_codes(&record.player_1_moves);
                let second_codes = collect_codes(&record.player_2_moves);
                self.move_scores.record_all(&first_codes, first_won);
                self.move_scores.record_all(&second_codes, !first_won);
                self.state_scores.record_all(&record.player_1_states, first_won);
                self.state_scores.record_all(&record.player_2_states, !first_won);
            },
            None => {},
        }
        self.total_turns += record.turns as i64;
    }
}

/// Whether `record` is the record of a game that was played by the rules to
/// its end.
pub open spec fn finished(record: GameRecord) -> bool {
    record.wf() && record.turns <= MAX_TURNS && (record.winner is Some || record.turns
        == MAX_TURNS)
}

/// Plays `games` games, in each of which `strategy` chooses every move of
/// both players, and gathers the standings over all of them.
pub fn simulate<S: Strategy>(strategy: &S, games: u32) -> (standings: Standings)
    requires
        games <= MAX_GAMES,
    ensures
        standings.wf(),
        0 <= standings.total_turns <= games * MAX_TURNS,
        exists|records: Seq<GameRecord>|
            {
                &&& records.len() == games
                &&& forall|i: int| 0 <= i < records.len() ==> finished(#[trigger] records[i])
                &&& forall|i: int|
                    0 <= i < records.len() ==> chosen_by(strategy, (#[trigger] records[i]).moves())
                &&& standings@ == StandingsView::empty().with_games(records)
            },
{
    let mut standings = Standings::new();
    let mut played: u32 = 0;
    let ghost mut records: Seq<GameRecord> = Seq::empty();
    while played < games
        invariant
            played <= games <= MAX_GAMES,
            standings.wf(),
            records.len() == played,
            forall|i: int| 0 <= i < records.len() ==> finished(#[trigger] records[i]),
            forall|i: int|
                0 <= i < records.len() ==> chosen_by(strategy, (#[trigger] records[i]).moves()),
            standings@ == StandingsView::empty().with_games(records),
            0 <= standings.total_turns <= played * MAX_TURNS,
            standings.move_scores.observed() <= played * MAX_TURNS,
            standings.state_scores.observed() <= played * MAX_TURNS + played * MAX_TURNS,
        decreases games - played,
    {
        let record = play_game(strategy);
        assert(MAX_TURNS == 41);
        assert(record.player_1_moves@.len() + record.player_2_moves@.len() == record.turns);
        assert(record.player_1_states@.len() == record.turns);
        assert(record.player_2_states@.len() == record.turns);
        standings.add_game(&record);
        proof {
            assert(records.push(record).drop_last() =~= records);
            records = records.push(record);
        }
        played += 1;
    }
    standings
}

} // verus!
