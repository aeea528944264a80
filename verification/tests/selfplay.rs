use connect_four::selfplay::{play_game, GameRecord, Playthrough, MAX_TURNS};
use connect_four::Player::{Player1, Player2};
use connect_four::{Game, Move, Player, RandomStrategy, Strategy};

struct Leftmost {}

impl Strategy for Leftmost {
    fn best_move(&self, _player: Player, game: &Game) -> Move {
        game.possible_moves()[0]
    }
}

struct Scripted {
    cells: Vec<(u8, u8)>,
}

impl Strategy for Scripted {
    fn best_move(&self, _player: Player, game: &Game) -> Move {
        let stones = game.grid.iter().flatten().filter(|&&v| v != 0).count();
        let (column, row) = self.cells[stones];
        Move { row, column }
    }
}

fn drawn_game() -> Vec<(u8, u8)> {
    vec![
        (1, 0), (3, 0), (1, 1), (1, 2), (1, 3), (1, 4), (1, 5), (3, 1), (5, 0), (2, 0), (3, 2),
        (0, 0), (4, 0), (3, 3), (2, 1), (5, 1), (5, 2), (2, 2), (6, 0), (0, 1), (6, 1), (4, 1),
        (0, 2), (0, 3), (0, 4), (4, 2), (2, 3), (6, 2), (3, 4), (0, 5), (5, 3), (4, 3), (2, 4),
        (2, 5), (4, 4), (4, 5), (6, 3), (5, 4), (5, 5), (6, 4), (6, 5), (3, 5),
    ]
}

fn check_against_replay(record: &GameRecord) {
    let first = record.player_1_moves.len();
    let second = record.player_2_moves.len();
    assert_eq!(first + second, record.turns);
    assert!(first == second || first == second + 1);
    assert_eq!(record.player_1_states.len(), record.turns);
    assert_eq!(record.player_2_states.len(), record.turns);
    assert!(record.turns <= MAX_TURNS);
    let mut game = Game::new();
    for turn in 0..record.turns {
        let (m, player) = if turn % 2 == 0 {
            (record.player_1_moves[turn / 2], Player1)
        } else {
            (record.player_2_moves[turn / 2], Player2)
        };
        assert_eq!(game.winner, None);
        assert!(game.is_legal(m));
        game.do_move(m, player);
        assert_eq!(record.player_1_states[turn], game.calculate_hash(Player1));
        assert_eq!(record.player_2_states[turn], game.calculate_hash(Player2));
    }
    assert_eq!(record.winner, game.winner);
    assert!(record.winner.is_some() || record.turns == MAX_TURNS);
}

#[test]
fn max_turns_is_one_less_than_the_board_size() {
    assert_eq!(MAX_TURNS, 41);
}

#[test]
fn leftmost_play_is_won_by_the_first_player_on_the_bottom_row() {
    let record = play_game(&Leftmost {});
    assert_eq!(record.winner, Some(Player1));
    assert_eq!(record.turns, 19);
    assert_eq!(record.player_1_moves.len(), 10);
    assert_eq!(record.player_2_moves.len(), 9);
    assert_eq!(record.player_1_moves[0], Move { row: 0, column: 0 });
    assert_eq!(record.player_2_moves[0], Move { row: 1, column: 0 });
    assert_eq!(record.player_1_moves[9], Move { row: 0, column: 3 });
    assert_eq!(record.player_1_states[0], 1);
    assert_eq!(record.player_2_states[0], 1i128 << 42);
    assert_eq!(record.player_1_states[1], 1 + (1i128 << 43));
    assert_eq!(record.player_2_states[1], 2 + (1i128 << 42));
    check_against_replay(&record);
}

#[test]
fn a_game_without_a_winner_is_broken_off_after_forty_one_moves() {
    let record = play_game(&Scripted { cells: drawn_game() });
    assert_eq!(record.winner, None);
    assert_eq!(record.turns, 41);
    assert_eq!(record.player_1_moves.len(), 21);
    assert_eq!(record.player_2_moves.len(), 20);
    assert_eq!(record.player_1_moves[20], Move { row: 5, column: 6 });
    assert_eq!(record.player_2_moves[19], Move { row: 4, column: 6 });
    check_against_replay(&record);
}

#[test]
fn random_games_are_recorded_as_played() {
    let strategy = RandomStrategy {};
    for _ in 0..200 {
        let record = play_game(&strategy);
        assert!(record.turns >= 7);
        check_against_replay(&record);
    }
}

#[test]
fn a_playthrough_starts_with_the_first_player_and_nothing_recorded() {
    let start = Playthrough::new();
    assert_eq!(start.player, Player1);
    assert_eq!(start.game.grid, [[0u8; 6]; 7]);
    assert_eq!(start.record.turns, 0);
    assert_eq!(start.record.winner, None);
    assert!(start.record.player_1_moves.is_empty());
    assert!(start.record.player_2_moves.is_empty());
    assert!(start.record.player_1_states.is_empty());
    assert!(start.record.player_2_states.is_empty());
    assert!(!start.is_over());
}

#[test]
fn advance_records_the_move_and_hands_over_the_turn() {
    let mut playthrough = Playthrough::new();
    playthrough.advance(Move { row: 0, column: 0 });
    assert_eq!(playthrough.player, Player2);
    assert_eq!(playthrough.record.turns, 1);
    assert_eq!(playthrough.record.player_1_moves, vec![Move { row: 0, column: 0 }]);
    assert!(playthrough.record.player_2_moves.is_empty());
    assert_eq!(playthrough.record.player_1_states, vec![1]);
    assert_eq!(playthrough.record.player_2_states, vec![1i128 << 42]);
    assert_eq!(playthrough.game.grid[0][0], 1);
    playthrough.advance(Move { row: 1, column: 0 });
    assert_eq!(playthrough.player, Player1);
    assert_eq!(playthrough.record.turns, 2);
    assert_eq!(playthrough.record.player_1_moves, vec![Move { row: 0, column: 0 }]);
    assert_eq!(playthrough.record.player_2_moves, vec![Move { row: 1, column: 0 }]);
    assert_eq!(playthrough.record.player_1_states, vec![1, 1 + (1i128 << 43)]);
    assert_eq!(playthrough.record.player_2_states, vec![1i128 << 42, 2 + (1i128 << 42)]);
    assert_eq!(playthrough.game.grid[0][1], 2);
    assert_eq!(playthrough.record.winner, None);
    assert!(!playthrough.is_over());
}

#[test]
fn a_playthrough_is_over_once_a_player_has_won() {
    let mut playthrough = Playthrough::new();
    for (column, row) in [(0u8, 0u8), (0, 1), (1, 0), (1, 1), (2, 0), (2, 1)] {
        playthrough.advance(Move { row, column });
        assert!(!playthrough.is_over());
    }
    playthrough.advance(Move { row: 0, column: 3 });
    assert!(playthrough.is_over());
    assert_eq!(playthrough.record.winner, Some(Player1));
    assert_eq!(playthrough.game.winner, Some(Player1));
    assert_eq!(playthrough.record.turns, 7);
    check_against_replay(&playthrough.record);
}

#[test]
fn a_playthrough_is_over_after_forty_one_moves() {
    let mut playthrough = Playthrough::new();
    for (turn, (column, row)) in drawn_game().into_iter().take(41).enumerate() {
        assert!(!playthrough.is_over());
        assert_eq!(playthrough.record.turns, turn);
        playthrough.advance(Move { row, column });
    }
    assert!(playthrough.is_over());
    assert_eq!(playthrough.record.winner, None);
    assert_eq!(playthrough.record.turns, 41);
}
