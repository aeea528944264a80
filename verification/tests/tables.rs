use connect_four::selfplay::GameRecord;
use connect_four::standings::{collect_codes, simulate, Standings, MAX_GAMES};
use connect_four::table::ScoreTable;
use connect_four::Player::{Player1, Player2};
use connect_four::{Move, Player, RandomStrategy, Score};

#[test]
fn new_table_is_empty() {
    let table: ScoreTable<i128> = ScoreTable::new();
    assert_eq!(table.observations(), 0);
    assert_eq!(table.get(0), None);
    assert!(table.scores().is_empty());
}

#[test]
fn record_counts_wins_up_and_losses_down() {
    let mut table: ScoreTable<i128> = ScoreTable::new();
    table.record(5, true);
    table.record(5, false);
    table.record(5, false);
    table.record(-9, true);
    assert_eq!(table.get(5), Some(Score::from_parts(3, -1)));
    assert_eq!(table.get(-9), Some(Score::from_parts(1, 1)));
    assert_eq!(table.get(6), None);
    assert_eq!(table.observations(), 4);
    assert_eq!(table.scores().len(), 2);
}

#[test]
fn record_all_counts_a_key_as_often_as_it_comes() {
    let mut table: ScoreTable<u16> = ScoreTable::new();
    table.record_all(&vec![3, 4, 3, 3], true);
    table.record_all(&vec![4, 8], false);
    table.record_all(&vec![], false);
    assert_eq!(table.get(3), Some(Score::from_parts(3, 3)));
    assert_eq!(table.get(4), Some(Score::from_parts(2, 0)));
    assert_eq!(table.get(8), Some(Score::from_parts(1, -1)));
    assert_eq!(table.observations(), 6);
    assert_eq!(table.scores().get(&3).map(|s| s.count()), Some(3));
}

#[test]
fn collect_codes_keeps_the_order() {
    let moves =
        vec![Move { row: 2, column: 1 }, Move { row: 0, column: 0 }, Move { row: 5, column: 6 }];
    assert_eq!(collect_codes(&moves), vec![258, 0, 1541]);
    assert_eq!(collect_codes(&Vec::new()), Vec::<u16>::new());
}

fn sample(winner: Option<Player>) -> GameRecord {
    GameRecord {
        winner,
        turns: 3,
        player_1_moves: vec![Move { row: 0, column: 0 }, Move { row: 1, column: 0 }],
        player_2_moves: vec![Move { row: 0, column: 1 }],
        player_1_states: vec![10, 11, 12],
        player_2_states: vec![20, 21, 12],
    }
}

#[test]
fn new_standings_are_empty() {
    let standings = Standings::new();
    assert_eq!(standings.total_turns, 0);
    assert_eq!(standings.move_scores.observations(), 0);
    assert_eq!(standings.state_scores.observations(), 0);
}

#[test]
fn a_game_won_by_the_first_player_counts_for_that_player() {
    let mut standings = Standings::new();
    standings.add_game(&sample(Some(Player1)));
    assert_eq!(standings.total_turns, 3);
    assert_eq!(standings.move_scores.get(0), Some(Score::from_parts(1, 1)));
    assert_eq!(standings.move_scores.get(1), Some(Score::from_parts(1, 1)));
    assert_eq!(standings.move_scores.get(256), Some(Score::from_parts(1, -1)));
    assert_eq!(standings.state_scores.get(10), Some(Score::from_parts(1, 1)));
    assert_eq!(standings.state_scores.get(11), Some(Score::from_parts(1, 1)));
    assert_eq!(standings.state_scores.get(20), Some(Score::from_parts(1, -1)));
    assert_eq!(standings.state_scores.get(21), Some(Score::from_parts(1, -1)));
    assert_eq!(standings.state_scores.get(12), Some(Score::from_parts(2, 0)));
    assert_eq!(standings.move_scores.observations(), 3);
    assert_eq!(standings.state_scores.observations(), 6);
}

#[test]
fn a_game_won_by_the_second_player_counts_against_the_first() {
    let mut standings = Standings::new();
    standings.add_game(&sample(Some(Player1)));
    standings.add_game(&sample(Some(Player2)));
    assert_eq!(standings.total_turns, 6);
    assert_eq!(standings.move_scores.get(0), Some(Score::from_parts(2, 0)));
    assert_eq!(standings.move_scores.get(256), Some(Score::from_parts(2, 0)));
    assert_eq!(standings.state_scores.get(10), Some(Score::from_parts(2, 0)));
    assert_eq!(standings.state_scores.get(12), Some(Score::from_parts(4, 0)));
    standings.add_game(&sample(Some(Player2)));
    assert_eq!(standings.move_scores.get(1), Some(Score::from_parts(3, -1)));
    assert_eq!(standings.move_scores.get(256), Some(Score::from_parts(3, 1)));
    assert_eq!(standings.state_scores.get(21), Some(Score::from_parts(3, 1)));
}

#[test]
fn a_game_without_a_winner_only_adds_its_moves_to_the_count() {
    let mut standings = Standings::new();
    standings.add_game(&sample(None));
    assert_eq!(standings.total_turns, 3);
    assert!(standings.move_scores.scores().is_empty());
    assert!(standings.state_scores.scores().is_empty());
    assert_eq!(standings.move_scores.observations(), 0);
}

#[test]
fn simulate_gathers_scores_over_all_games() {
    let standings = simulate(&RandomStrategy {}, 50);
    assert!(standings.total_turns >= 7 * 50);
    assert!(standings.total_turns <= 41 * 50);
    assert!(standings.move_scores.observations() as i64 <= standings.total_turns);
    assert!(standings.state_scores.observations() as i64 <= 2 * standings.total_turns);
    let mut observed: u32 = 0;
    let mut sum: i64 = 0;
    for (code, score) in standings.move_scores.scores() {
        let m = Move::from_code(*code);
        assert!(m.column < 7 && m.row < 6);
        assert!(score.count() > 0);
        assert!(score.score().unsigned_abs() <= score.count());
        observed += score.count();
        sum += score.score() as i64;
    }
    assert_eq!(observed, standings.move_scores.observations());
    assert!(sum >= 0);
    let mut seen: u32 = 0;
    for (state, score) in standings.state_scores.scores() {
        assert!(*state > 0);
        seen += score.count();
    }
    assert_eq!(seen, standings.state_scores.observations());
}

#[test]
fn simulate_without_games_gives_empty_standings() {
    let standings = simulate(&RandomStrategy {}, 0);
    assert_eq!(standings.total_turns, 0);
    assert!(standings.move_scores.scores().is_empty());
    assert!(MAX_GAMES >= 1000);
}
