use connect_four::Player::{Player1, Player2};
use connect_four::{Game, Move, Player, COLUMNS, ROWS};

fn play(game: &mut Game, cells: &[(u8, u8, Player)]) {
    for &(column, row, player) in cells {
        assert!(game.is_legal(Move { row, column }));
        game.do_move(Move { row, column }, player);
    }
}

#[test]
fn new_game_is_empty_and_has_no_winner() {
    let game = Game::new();
    assert_eq!(game.grid, [[0u8; ROWS]; COLUMNS]);
    assert_eq!(game.winner, None);
    assert_eq!(game.winner(), None);
}

#[test]
fn possible_moves_on_empty_board_are_the_seven_bottom_cells() {
    let game = Game::new();
    let moves = game.possible_moves();
    assert_eq!(moves.len(), 7);
    for column in 0..7u8 {
        assert_eq!(moves[column as usize], Move { row: 0, column });
        assert_eq!(moves.iter().filter(|m| m.column == column).count(), 1);
    }
}

#[test]
fn possible_moves_leave_out_a_full_column() {
    let mut game = Game::new();
    for row in 0..6u8 {
        let player = if row % 2 == 0 { Player1 } else { Player2 };
        game.do_move(Move { row, column: 3 }, player);
    }
    let moves = game.possible_moves();
    assert_eq!(moves.len(), 6);
    assert!(moves.iter().all(|m| m.column != 3));
    assert!(moves.iter().all(|m| m.row == 0));
    assert_eq!(game.column_height(3), 6);
}

#[test]
fn possible_moves_name_the_first_open_row() {
    let mut game = Game::new();
    play(&mut game, &[(2, 0, Player1), (2, 1, Player2), (5, 0, Player1)]);
    let moves = game.possible_moves();
    assert_eq!(
        moves,
        vec![
            Move { row: 0, column: 0 },
            Move { row: 0, column: 1 },
            Move { row: 2, column: 2 },
            Move { row: 0, column: 3 },
            Move { row: 0, column: 4 },
            Move { row: 1, column: 5 },
            Move { row: 0, column: 6 },
        ]
    );
    assert_eq!(game.column_height(2), 2);
    assert_eq!(game.column_height(5), 1);
    assert_eq!(game.column_height(0), 0);
}

#[test]
fn possible_moves_on_a_full_board_are_none() {
    let mut game = Game::new();
    for column in 0..7u8 {
        for row in 0..6u8 {
            game.do_move(Move { row, column }, Player1);
        }
    }
    assert!(game.possible_moves().is_empty());
}

#[test]
fn is_legal_tells_the_open_slot_from_other_cells() {
    let mut game = Game::new();
    play(&mut game, &[(4, 0, Player1)]);
    assert!(game.is_legal(Move { row: 1, column: 4 }));
    assert!(!game.is_legal(Move { row: 0, column: 4 }));
    assert!(!game.is_legal(Move { row: 2, column: 4 }));
    assert!(game.is_legal(Move { row: 0, column: 0 }));
    assert!(!game.is_legal(Move { row: 0, column: 7 }));
    assert!(!game.is_legal(Move { row: 6, column: 0 }));
    assert!(!game.is_legal(Move { row: 255, column: 255 }));
}

#[test]
fn do_move_writes_the_value_of_the_player() {
    let mut game = Game::new();
    game.do_move(Move { row: 0, column: 6 }, Player2);
    game.do_move(Move { row: 0, column: 0 }, Player1);
    let mut expected = [[0u8; ROWS]; COLUMNS];
    expected[6][0] = 2;
    expected[0][0] = 1;
    assert_eq!(game.grid, expected);
    assert_eq!(game.winner, None);
}

#[test]
fn four_in_a_row_horizontally_wins_on_the_fourth_stone() {
    let mut game = Game::new();
    play(
        &mut game,
        &[(0, 0, Player1), (0, 1, Player2), (1, 0, Player1), (1, 1, Player2), (2, 0, Player1)],
    );
    assert_eq!(game.winner, None);
    play(&mut game, &[(2, 1, Player2)]);
    assert_eq!(game.winner, None);
    play(&mut game, &[(3, 0, Player1)]);
    assert_eq!(game.winner, Some(Player1));
}

#[test]
fn four_in_a_row_vertically_wins_on_the_fourth_stone() {
    let mut game = Game::new();
    play(
        &mut game,
        &[
            (5, 0, Player2),
            (0, 0, Player1),
            (5, 1, Player2),
            (0, 1, Player1),
            (5, 2, Player2),
            (0, 2, Player1),
        ],
    );
    assert_eq!(game.winner, None);
    play(&mut game, &[(5, 3, Player2)]);
    assert_eq!(game.winner, Some(Player2));
}

#[test]
fn four_in_a_row_on_the_rising_diagonal_wins() {
    let mut game = Game::new();
    play(
        &mut game,
        &[
            (0, 0, Player1),
            (1, 0, Player2),
            (1, 1, Player1),
            (2, 0, Player2),
            (2, 1, Player1),
            (3, 0, Player2),
            (2, 2, Player1),
            (3, 1, Player2),
            (3, 2, Player1),
            (6, 0, Player2),
        ],
    );
    assert_eq!(game.winner, None);
    play(&mut game, &[(3, 3, Player1)]);
    assert_eq!(game.winner, Some(Player1));
}

#[test]
fn four_in_a_row_on_the_falling_diagonal_wins() {
    let mut game = Game::new();
    play(
        &mut game,
        &[
            (6, 0, Player1),
            (5, 0, Player2),
            (5, 1, Player1),
            (4, 0, Player2),
            (4, 1, Player1),
            (3, 0, Player2),
            (4, 2, Player1),
            (3, 1, Player2),
            (3, 2, Player1),
            (0, 0, Player2),
        ],
    );
    assert_eq!(game.winner, None);
    play(&mut game, &[(3, 3, Player1)]);
    assert_eq!(game.winner, Some(Player1));
}

#[test]
fn a_stone_in_the_middle_of_the_line_wins_too() {
    let mut game = Game::new();
    play(
        &mut game,
        &[
            (1, 0, Player2),
            (1, 1, Player1),
            (2, 0, Player2),
            (2, 1, Player1),
            (4, 0, Player2),
            (4, 1, Player1),
        ],
    );
    assert_eq!(game.winner, None);
    play(&mut game, &[(3, 0, Player2)]);
    assert_eq!(game.winner, Some(Player2));
}

#[test]
fn a_falling_diagonal_is_found_from_each_of_its_cells() {
    for last in 0..4usize {
        let line: [(u8, u8); 4] = [(0, 3), (1, 2), (2, 1), (3, 0)];
        let mut game = Game::new();
        for (i, &(column, row)) in line.iter().enumerate() {
            if i != last {
                game.grid[column as usize][row as usize] = 1;
            }
        }
        assert_eq!(game.winner, None);
        let (column, row) = line[last];
        game.do_move(Move { row, column }, Player1);
        assert_eq!(game.winner, Some(Player1));
    }
}

#[test]
fn a_rising_diagonal_is_found_from_each_of_its_cells() {
    for last in 0..4usize {
        let line: [(u8, u8); 4] = [(3, 2), (4, 3), (5, 4), (6, 5)];
        let mut game = Game::new();
        for (i, &(column, row)) in line.iter().enumerate() {
            if i != last {
                game.grid[column as usize][row as usize] = 2;
            }
        }
        let (column, row) = line[last];
        game.do_move(Move { row, column }, Player2);
        assert_eq!(game.winner, Some(Player2));
    }
}

#[test]
fn three_in_a_row_and_a_gap_do_not_win() {
    let mut game = Game::new();
    play(
        &mut game,
        &[
            (0, 0, Player1),
            (0, 1, Player2),
            (1, 0, Player1),
            (1, 1, Player2),
            (3, 0, Player1),
            (3, 1, Player2),
            (4, 0, Player1),
        ],
    );
    assert_eq!(game.winner, None);
}

#[test]
fn a_line_broken_by_the_opponent_does_not_win() {
    let mut game = Game::new();
    play(
        &mut game,
        &[(0, 0, Player1), (1, 0, Player1), (2, 0, Player2), (3, 0, Player1), (4, 0, Player1)],
    );
    assert_eq!(game.winner, None);
    play(&mut game, &[(5, 0, Player1)]);
    assert_eq!(game.winner, None);
    play(&mut game, &[(6, 0, Player1)]);
    assert_eq!(game.winner, Some(Player1));
}

#[test]
fn five_in_a_row_wins() {
    let mut game = Game::new();
    for column in [0u8, 1, 3, 4] {
        game.grid[column as usize][0] = 1;
    }
    game.do_move(Move { row: 0, column: 2 }, Player1);
    assert_eq!(game.winner, Some(Player1));
}

#[test]
fn the_stone_of_the_other_player_does_not_win_with_a_foreign_line() {
    let mut game = Game::new();
    for column in [0u8, 1, 2] {
        game.grid[column as usize][0] = 1;
    }
    game.do_move(Move { row: 0, column: 3 }, Player2);
    assert_eq!(game.winner, None);
}

#[test]
fn a_winner_once_recorded_stays() {
    let mut game = Game::new();
    play(
        &mut game,
        &[
            (0, 0, Player1),
            (0, 1, Player2),
            (1, 0, Player1),
            (1, 1, Player2),
            (2, 0, Player1),
            (2, 1, Player2),
            (3, 0, Player1),
        ],
    );
    assert_eq!(game.winner, Some(Player1));
    play(&mut game, &[(3, 1, Player2)]);
    assert_eq!(game.winner, Some(Player1));
    assert_eq!(game.grid[3][1], 2);
    play(&mut game, &[(6, 0, Player2), (4, 0, Player1), (5, 0, Player1)]);
    assert_eq!(game.winner, Some(Player1));
    assert_eq!(game.grid[6][0], 2);
    assert_eq!(game.grid[4][0], 1);
    assert_eq!(game.grid[5][0], 1);
}

#[test]
fn do_move_as_a_value_leaves_the_game_as_it_was() {
    let mut game = Game::new();
    play(&mut game, &[(0, 0, Player1), (1, 0, Player1), (2, 0, Player1)]);
    let before = game.grid;
    let next = game.doMove(Move { row: 0, column: 3 }, Player1);
    assert_eq!(game.grid, before);
    assert_eq!(game.winner, None);
    assert_eq!(next.winner, Some(Player1));
    assert_eq!(next.grid[3][0], 1);
    let mut same = Game { grid: game.grid, winner: game.winner };
    same.do_move(Move { row: 0, column: 3 }, Player1);
    assert_eq!(next.grid, same.grid);
    assert_eq!(next.winner, same.winner);
}

#[test]
fn a_win_in_the_corner_cells_is_seen() {
    let mut game = Game::new();
    for row in [2u8, 3, 4] {
        game.grid[6][row as usize] = 2;
    }
    game.do_move(Move { row: 5, column: 6 }, Player2);
    assert_eq!(game.winner, Some(Player2));
}
