use connect_four::Player::{Player1, Player2};
use connect_four::{Game, Move};

const RED: char = '\u{1F534}';
const BLUE: char = '\u{1F535}';
const WHITE: char = '\u{26AA}';

fn line(cells: [char; 7]) -> String {
    let mut text = String::new();
    for cell in cells {
        text.push(cell);
    }
    text.push('\n');
    text
}

#[test]
fn position_emoji_maps_the_three_cell_values() {
    assert_eq!(Game::position_emoji(1), RED);
    assert_eq!(Game::position_emoji(2), BLUE);
    assert_eq!(Game::position_emoji(0), WHITE);
}

#[test]
fn emoji_view_of_the_empty_board() {
    let game = Game::new();
    let mut expected = String::new();
    for _ in 0..6 {
        expected.push_str(&line([WHITE; 7]));
    }
    assert_eq!(game.emoji_view(), expected);
    assert_eq!(game.emoji_view().chars().count(), 48);
}

#[test]
fn emoji_view_shows_the_top_row_first() {
    let mut game = Game::new();
    game.do_move(Move { row: 0, column: 0 }, Player1);
    game.do_move(Move { row: 1, column: 0 }, Player2);
    game.do_move(Move { row: 0, column: 6 }, Player2);
    let mut expected = String::new();
    for _ in 0..4 {
        expected.push_str(&line([WHITE; 7]));
    }
    expected.push_str(&line([BLUE, WHITE, WHITE, WHITE, WHITE, WHITE, WHITE]));
    expected.push_str(&line([RED, WHITE, WHITE, WHITE, WHITE, WHITE, BLUE]));
    assert_eq!(game.emoji_view(), expected);
}

#[test]
fn emoji_view_of_a_full_column() {
    let mut game = Game::new();
    for row in 0..6u8 {
        let player = if row % 2 == 0 { Player1 } else { Player2 };
        game.do_move(Move { row, column: 3 }, player);
    }
    let view = game.emoji_view();
    let rows: Vec<&str> = view.lines().collect();
    assert_eq!(rows.len(), 6);
    for (i, row) in rows.iter().enumerate() {
        let cells: Vec<char> = row.chars().collect();
        assert_eq!(cells.len(), 7);
        assert_eq!(cells[3], if i % 2 == 0 { BLUE } else { RED });
        assert_eq!(cells[0], WHITE);
    }
}
