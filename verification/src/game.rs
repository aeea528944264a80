//! The game itself: the grid, the recorded winner, and the operations on them.

use vstd::prelude::*;
use vstd::arithmetic::power2::{
    pow2, lemma2_to64, lemma2_to64_rest, lemma_pow2_adds, lemma_pow2_strictly_increases,
};
use crate::board::{
    Board, BOARD_SIZE, COLUMNS, EMPTY_VALUE, ROWS, on_board, shaped, empty_board, place, height,
    first_empty_from, lemma_first_empty_from, lemma_height,
};
use crate::hash::{
    board_hash, cell_at, cell_weight, hash_prefix, lemma_hash_prefix_bound, lemma_shl_one,
};
use crate::lines::{is_step, run, neighbours_in_line, room, holds, lemma_line_count};
use crate::moves::Move;
use crate::player::Player;
use crate::position::{Position, open_slots_below};

verus! {

/// A game in progress: the grid of cell values, column by column and bottom
/// row first, and the winner once there is one.
pub struct Game {
    pub grid: [[u8; ROWS]; COLUMNS],
    pub winner: Option<Player>,
}

impl View for Game {
    type V = Position;

    open spec fn view(&self) -> Position {
        Position { board: self.board(), winner: self.winner }
    }
}

impl Game {
    /// The grid as a mathematical board.
    pub open spec fn board(&self) -> Board {
        Seq::new(COLUMNS as nat, |c: int| self.grid[c]@)
    }

    /// The board of a game always has the board's dimensions, and its cells are
    /// those of the grid.
    pub proof fn lemma_board(&self)
        ensures
            shaped(self.board()),
            forall|c: int, r: int|
                on_board(c, r) ==> #[trigger] self.board()[c][r] == self.grid[c][r],
    {
    }

    /// Whether the game is in a position that play by the rules can reach.
    pub open spec fn wf(&self) -> bool {
        self@.wf()
    }

    /// A game with an empty grid and no winner.
    pub fn new() -> (game: Game)
        ensures
            game@ == Position::initial(),
            game.wf(),
    {
        let game = Game { grid: [[0u8; ROWS]; COLUMNS], winner: None };
        proof {
            assert(game.board() =~~= empty_board());
            Position::lemma_initial_wf();
        }
        game
    }

    /// The winner, once a stone has completed four in a row.
    pub fn winner(&self) -> (w: Option<Player>)
        ensures
            w == self@.winner,
    {
        self.winner
    }

    /// Whether `m` names the first open slot of its column.
    pub fn is_legal(&self, m: Move) -> (ok: bool)
        ensures
            ok == self@.legal(m),
    {
        if m.column as usize >= COLUMNS {
            return false;
        }
        proof {
            lemma_height(self.board(), m.column as int);
        }
        let h: usize = self.column_height(m.column as usize);
        h < ROWS && m.row as usize == h
    }

    /// The number of occupied cells at the bottom of `column`: the row of its
    /// first open slot, or `ROWS` if the column is full.
    pub fn column_height(&self, column: usize) -> (h: usize)
        requires
            column < COLUMNS,
        ensures
            h == height(self.board(), column as int),
            h <= ROWS,
    {
        let mut row: usize = 0;
        proof {
            lemma_first_empty_from(self.board(), column as int, 0);
        }
        while row < ROWS && self.grid[column][row] != EMPTY_VALUE
            invariant
                column < COLUMNS,
                row <= ROWS,
                first_empty_from(self.board(), column as int, row as int) == height(
                    self.board(),
                    column as int,
                ),
            decreases ROWS - row,
        {
            row += 1;
        }
        row
    }

    /// The legal moves: for every column that is not full, the column with
    /// the row of its first open slot. The moves come in the order of the
    /// columns, so none comes twice.
    pub fn possible_moves(&self) -> (moves: Vec<Move>)
        ensures
            moves@ == self@.legal_moves(),
            moves@.len() <= COLUMNS,
            moves@.no_duplicates(),
            forall|m: Move| moves@.contains(m) <==> self@.legal(m),
    {
        let mut moves: Vec<Move> = Vec::new();
        let mut column: usize = 0;
        while column < COLUMNS
            invariant
                column <= COLUMNS,
                moves@ == open_slots_below(self.board(), column as int),
            decreases COLUMNS - column,
        {
            let h: usize = self.column_height(column);
            if h != ROWS {
                moves.push(Move { column: column as u8, row: h as u8 });
            }
            column += 1;
        }
        proof {
            self@.lemma_legal_moves();
        }
        moves
    }

    /// Counts the cells holding `value` that follow `(column, row)` without a
    /// gap in the direction `(dc, dr)`.
    fn count_run(&self, column: u8, row: u8, dc: i8, dr: i8, value: u8) -> (n: u8)
        requires
            on_board(column as int, row as int),
            is_step(dc as int, dr as int),
        ensures
            n == run(self.board(), column as int, row as int, dc as int, dr as int, value),
            n <= 6,
    {
        let mut c: i8 = column as i8 + dc;
        let mut r: i8 = row as i8 + dr;
        let mut n: u8 = 0;
        while 0 <= c && c < COLUMNS as i8 && 0 <= r && r < ROWS as i8
            && self.grid[c as usize][r as usize] == value
            invariant
                is_step(dc as int, dr as int),
                on_board(c - dc, r - dr),
                n + room(c - dc, r - dr, dc as int, dr as int) == room(
                    column as int,
                    row as int,
                    dc as int,
                    dr as int,
                ),
                n + run(self.board(), c - dc, r - dr, dc as int, dr as int, value) == run(
                    self.board(),
                    column as int,
                    row as int,
                    dc as int,
                    dr as int,
                    value,
                ),
            decreases room(c - dc, r - dr, dc as int, dr as int),
        {
            assert(holds(self.board(), c as int, r as int, value));
            n += 1;
            c += dc;
            r += dr;
        }
        n
    }

    /// Counts the cells holding `value` that extend `(column, row)` along the
    /// line of `(dc, dr)`, both ways.
    fn count_line(&self, column: u8, row: u8, dc: i8, dr: i8, value: u8) -> (n: u8)
        requires
            on_board(column as int, row as int),
            is_step(dc as int, dr as int),
        ensures
            n == neighbours_in_line(
                self.board(),
                column as int,
                row as int,
                dc as int,
                dr as int,
                value,
            ),
    {
        let ahead: u8 = self.count_run(column, row, dc, dr, value);
        let behind: u8 = self.count_run(column, row, -dc, -dr, value);
        ahead + behind
    }

    /// Places a stone of `player` in the cell that `m` names. While no winner
    /// is recorded, `player` becomes the winner if the stone completes four in
    /// a row, horizontally, vertically or along a diagonal; a winner once
    /// recorded is never changed.
    pub fn do_move(&mut self, m: Move, player: Player)
        requires
            on_board(m.column as int, m.row as int),
        ensures
            final(self)@ == old(self)@.play(m, player),
            old(self)@.winner is Some ==> final(self)@.winner == old(self)@.winner,
            old(self).wf() && old(self)@.legal(m) ==> final(self).wf(),
    {
        proof {
            if old(self).wf() && old(self)@.legal(m) {
                old(self)@.lemma_play_keeps_wf(m, player);
            }
        }
        let value: u8 = player.value();
        self.grid[m.column as usize][m.row as usize] = value;
        assert(self.board() =~~= place(
            old(self).board(),
            m.column as int,
            m.row as int,
            player.spec_value(),
        ));
        if self.winner.is_some() {
            return ;
        }
        proof {
            let b = self.board();
            let c = m.column as int;
            let r = m.row as int;
            lemma_line_count(b, c, r, 1, 0, value);
            lemma_line_count(b, c, r, 0, 1, value);
            lemma_line_count(b, c, r, 1, 1, value);
            lemma_line_count(b, c, r, 1, -1, value);
        }
        if self.count_line(m.column, m.row, 1, 0, value) > 2 || self.count_line(
            m.column,
            m.row,
            0,
            1,
            value,
        ) > 2 || self.count_line(m.column, m.row, 1, 1, value) > 2 || self.count_line(
            m.column,
            m.row,
            1,
            -1,
            value,
        ) > 2 {
            self.winner = Some(player);
        }
    }

    /// The game that `do_move` leads to, as a new value; this game stays as it
    /// is.
    #[allow(non_snake_case)]
    pub fn doMove(&self, m: Move, player: Player) -> (next: Game)
        requires
            on_board(m.column as int, m.row as int),
        ensures
            next@ == self@.play(m, player),
            self@.winner is Some ==> next@.winner == self@.winner,
            self.wf() && self@.legal(m) ==> next.wf(),
    {
        let mut next = Game { grid: self.grid, winner: self.winner };
        assert(next.board() =~~= self.board());
        next.do_move(m, player);
        next
    }

    /// Encodes the grid as one integer from the perspective of `player`: a
    /// stone of `player` sets the bit of its cell's number, a stone of the
    /// opponent the bit `BOARD_SIZE` places higher. The recorded winner plays
    /// no part.
    pub fn calculate_hash(&self, player: Player) -> (hash: i128)
        ensures
            hash == board_hash(self.board(), player),
            0 <= hash < 0x10_0000_0000_0000_0000_0000,
    {
        let me: u8 = player.value();
        let mut hash: u128 = 0;
        let mut index: usize = 0;
        let mut column: usize = 0;
        proof {
            lemma_pow2_adds(42, 42);
            lemma2_to64_rest();
        }
        while column < COLUMNS
            invariant
                column <= COLUMNS,
                index == column * ROWS,
                hash == hash_prefix(self.board(), me, index as nat),
                pow2(84) == 0x10_0000_0000_0000_0000_0000,
            decreases COLUMNS - column,
        {
            let mut row: usize = 0;
            while row < ROWS
                invariant
                    column < COLUMNS,
                    row <= ROWS,
                    index == column * ROWS + row,
                    hash == hash_prefix(self.board(), me, index as nat),
                    pow2(84) == 0x10_0000_0000_0000_0000_0000,
                decreases ROWS - row,
            {
                let val: u8 = self.grid[column][row];
                proof {
                    lemma_shl_one(index);
                    lemma_shl_one((index + BOARD_SIZE) as usize);
                    lemma_hash_prefix_bound(self.board(), me, index as nat);
                    lemma_hash_prefix_bound(self.board(), me, (index + 1) as nat);
                    lemma_pow2_strictly_increases((index + 43) as nat, 85);
                    lemma_pow2_adds(84, 1);
                    lemma2_to64();
                    assert(cell_at(self.board(), index as int) == val);
                }
                let weight: u128 = if val == EMPTY_VALUE {
                    0
                } else if val == me {
                    1u128 << index
                } else {
                    1u128 << (index + BOARD_SIZE)
                };
                assert(weight == cell_weight(val, me, index as nat));
                hash += weight;
                index += 1;
                row += 1;
            }
            column += 1;
        }
        proof {
            lemma_hash_prefix_bound(self.board(), me, BOARD_SIZE as nat);
        }
        hash as i128
    }
}

} // verus!
