//! A picture of the grid in text, top row first, one symbol per cell.

use vstd::prelude::*;
use crate::board::{Board, COLUMNS, ROWS, cells_valid, is_cell_value, on_board};
use crate::game::Game;
use crate::player::{PLAYER_1_VALUE, PLAYER_2_VALUE};

verus! {

/// Symbol of a stone of the first player: a large red circle.
pub const PLAYER_1_EMOJI: char = '\u{1F534}';

/// Symbol of a stone of the second player: a large blue circle.
pub const PLAYER_2_EMOJI: char = '\u{1F535}';

/// Symbol of an empty cell: a medium white circle.
pub const EMPTY_EMOJI: char = '\u{26AA}';

/// Number of characters of one line of the picture: a symbol for every
/// column, then a line feed.
pub const LINE_LENGTH: usize = COLUMNS + 1;

/// The symbol that stands for a cell holding `v`.
pub open spec fn emoji_of(v: u8) -> char {
    if v == PLAYER_1_VALUE {
        PLAYER_1_EMOJI
    } else if v == PLAYER_2_VALUE {
        PLAYER_2_EMOJI
    } else {
        EMPTY_EMOJI
    }
}

/// The character at place `i` of the picture of `b`: lines run from the top
/// row down, and each ends in a line feed.
pub open spec fn rendering_char(b: Board, i: int) -> char {
    let line = i / (LINE_LENGTH as int);
    let column = i % (LINE_LENGTH as int);
    if column == COLUMNS {
        '\n'
    } else {
        emoji_of(b[column][ROWS - 1 - line])
    }
}

/// The picture of `b`.
pub open spec fn rendering(b: Board) -> Seq<char> {
    Seq::new((ROWS * LINE_LENGTH) as nat, |i: int| rendering_char(b, i))
}

/// The picture has a character for every cell and a line feed for every row;
/// the symbol of cell `(c, r)` stands at place `c` of line `ROWS - 1 - r`.
pub proof fn lemma_rendering(b: Board)
    ensures
        rendering(b).len() == ROWS * LINE_LENGTH,
        forall|c: int, r: int|
            on_board(c, r) ==> rendering(b)[(ROWS - 1 - r) * LINE_LENGTH + c] == emoji_of(
                #[trigger] b[c][r],
            ),
        forall|r: int|
            0 <= r < ROWS ==> #[trigger] rendering(b)[(ROWS - 1 - r) * LINE_LENGTH + COLUMNS]
                == '\n',
{
    assert forall|c: int, r: int| on_board(c, r) implies rendering(b)[(ROWS - 1 - r)
        * LINE_LENGTH + c] == emoji_of(#[trigger] b[c][r]) by {
        let at = (ROWS - 1 - r) * 8 + c;
        assert(at / 8 == ROWS - 1 - r && at % 8 == c);
        assert(rendering(b)[at] == rendering_char(b, at));
    }
    assert forall|r: int| 0 <= r < ROWS implies #[trigger] rendering(b)[(ROWS - 1 - r)
        * LINE_LENGTH + COLUMNS] == '\n' by {
        let at = (ROWS - 1 - r) * 8 + 7;
        assert(at / 8 == ROWS - 1 - r && at % 8 == 7);
        assert(rendering(b)[at] == rendering_char(b, at));
    }
}

/// `String::push` of the standard library: the string afterwards is the
/// string before with `ch` appended as its last character.
pub assume_specification[ String::push ](s: &mut String, ch: char)
    ensures
        final(s)@ == old(s)@.push(ch),
;

impl Game {
    /// The symbol for a cell value.
    pub fn position_emoji(value: u8) -> (symbol: char)
        requires
            is_cell_value(value),
        ensures
            symbol == emoji_of(value),
    {
        if value == PLAYER_1_VALUE {
            PLAYER_1_EMOJI
        } else if value == PLAYER_2_VALUE {
            PLAYER_2_EMOJI
        } else {
            EMPTY_EMOJI
        }
    }

    /// Draws the grid: one line for each row, the top row first, with one
    /// symbol for each cell and a line feed at the end of each line.
    pub fn emoji_view(&self) -> (view: String)
        requires
            cells_valid(self.board()),
        ensures
            view@ == rendering(self.board()),
    {
        let mut view = String::new();
        let mut row: usize = ROWS;
        let ghost picture = rendering(self.board());
        proof {
            lemma_rendering(self.board());
        }
        while row > 0
            invariant
                row <= ROWS,
                cells_valid(self.board()),
                picture == rendering(self.board()),
                picture.len() == ROWS * LINE_LENGTH,
                view@ == picture.take((ROWS - row) * LINE_LENGTH),
            decreases row,
        {
            row -= 1;
            let mut column: usize = 0;
            while column < COLUMNS
                invariant
                    row < ROWS,
                    column <= COLUMNS,
                    cells_valid(self.board()),
                    picture == rendering(self.board()),
                    picture.len() == ROWS * LINE_LENGTH,
                    view@ == picture.take((ROWS - 1 - row) * LINE_LENGTH + column),
                decreases COLUMNS - column,
            {
                let ghost at = (ROWS - 1 - row) * LINE_LENGTH + column;
                assert(LINE_LENGTH == 8);
                assert(is_cell_value(self.board()[column as int][row as int]));
                view.push(Game::position_emoji(self.grid[column][row]));
                proof {
                    lemma_rendering(self.board());
                }
                assert(picture[at] == emoji_of(self.board()[column as int][row as int]));
                assert(picture.take(at).push(picture[at]) =~= picture.take(at + 1));
                column += 1;
            }
            let ghost at = (ROWS - 1 - row) * LINE_LENGTH + COLUMNS;
            assert(LINE_LENGTH == 8);
            view.push('\n');
            proof {
                lemma_rendering(self.board());
            }
            assert(picture[at] == '\n');
            assert(picture.take(at).push(picture[at]) =~= picture.take(at + 1));
        }
        assert(picture.take((ROWS * LINE_LENGTH) as int) =~= picture);
        view
    }
}

} // verus!
