//! A position: a board together with the recorded winner, as a mathematical
//! value, and the rule by which a move leads from one position to the next.

use vstd::prelude::*;
use crate::board::{
    Board, COLUMNS, ROWS, EMPTY_VALUE, on_board, shaped, cells_valid, gravity, empty_board, place,
    is_open_slot, lemma_place, height, column_full, lemma_height,
};
use crate::lines::{wins_at, has_four, four_from, is_line_direction};
use crate::moves::Move;
use crate::player::{Player, PLAYER_1_VALUE, PLAYER_2_VALUE};

verus! {

/// The first open slot of each of the columns below `n` that has one, in the
/// order of the columns.
pub open spec fn open_slots_below(b: Board, n: int) -> Seq<Move>
    decreases n,
{
    if n <= 0 {
        Seq::empty()
    } else {
        let before = open_slots_below(b, n - 1);
        if column_full(b, n - 1) {
            before
        } else {
            before.push(Move { row: height(b, n - 1) as u8, column: (n - 1) as u8 })
        }
    }
}

/// The moves listed for the columns below `n` are the first open slots of
/// those columns, each listed once and in the order of the columns.
pub proof fn lemma_open_slots_below(b: Board, n: int)
    requires
        0 <= n <= COLUMNS,
    ensures
        open_slots_below(b, n).len() <= n,
        forall|m: Move|
            open_slots_below(b, n).contains(m) <==> m.column < n && is_open_slot(
                b,
                m.column as int,
                m.row as int,
            ),
        forall|i: int, j: int|
            0 <= i < j < open_slots_below(b, n).len() ==> open_slots_below(b, n)[i].column
                < open_slots_below(b, n)[j].column,
    decreases n,
{
    if n > 0 {
        let before = open_slots_below(b, n - 1);
        let all = open_slots_below(b, n);
        lemma_open_slots_below(b, n - 1);
        lemma_height(b, n - 1);
        let next = Move { row: height(b, n - 1) as u8, column: (n - 1) as u8 };
        assert forall|m: Move| all.contains(m) <==> m.column < n && is_open_slot(
            b,
            m.column as int,
            m.row as int,
        ) by {
            if column_full(b, n - 1) {
                if m.column == n - 1 && is_open_slot(b, m.column as int, m.row as int) {
                    assert(m.row as int == height(b, n - 1));
                }
            } else {
                if all.contains(m) {
                    let i = choose|i: int| 0 <= i < all.len() && all[i] == m;
                    if i < before.len() {
                        assert(before[i] == m);
                        assert(before.contains(m));
                    } else {
                        assert(m == next);
                        assert(is_open_slot(b, n - 1, height(b, n - 1)));
                    }
                }
                if m.column < n && is_open_slot(b, m.column as int, m.row as int) {
                    if m.column == n - 1 {
                        assert(m.row as int == height(b, n - 1));
                        assert(m == next);
                        assert(all[before.len() as int] == m);
                    } else {
                        assert(before.contains(m));
                        let i = choose|i: int| 0 <= i < before.len() && before[i] == m;
                        assert(all[i] == m);
                    }
                }
            }
        }
        assert forall|i: int, j: int| 0 <= i < j < all.len() implies all[i].column
            < all[j].column by {
            if j == before.len() {
                assert(before.contains(before[i]));
            }
        }
    }
}

/// What a game is at one moment: the stones on the board and the winner, if
/// one has been recorded.
pub struct Position {
    pub board: Board,
    pub winner: Option<Player>,
}

impl Position {
    /// The position a game starts from.
    pub open spec fn initial() -> Position {
        Position { board: empty_board(), winner: None }
    }

    /// Whether the recorded winner agrees with the board: with no winner no
    /// four in a row exists, and a recorded winner has one.
    pub open spec fn winner_sound(self) -> bool {
        match self.winner {
            None => !has_four(self.board, PLAYER_1_VALUE) && !has_four(self.board, PLAYER_2_VALUE),
            Some(p) => has_four(self.board, p.spec_value()),
        }
    }

    /// Whether this is a position that play by the rules can reach: cells hold
    /// cell values, no stone floats, and the winner agrees with the board.
    pub open spec fn wf(self) -> bool {
        &&& shaped(self.board)
        &&& cells_valid(self.board)
        &&& gravity(self.board)
        &&& self.winner_sound()
    }

    /// Whether `m` drops a stone into the first open slot of its column.
    pub open spec fn legal(self, m: Move) -> bool {
        is_open_slot(self.board, m.column as int, m.row as int)
    }

    /// The legal moves of this position, one for each column that is not
    /// full, in the order of the columns.
    pub open spec fn legal_moves(self) -> Seq<Move> {
        open_slots_below(self.board, COLUMNS as int)
    }

    /// Whether some column has room for a stone.
    pub open spec fn has_legal_move(self) -> bool {
        self.legal_moves().len() > 0
    }

    /// The winner after `player` has placed a stone at `(c, r)`, giving the
    /// board `after`: a winner already recorded stays; otherwise `player` wins
    /// exactly when the new stone completes four in a row.
    pub open spec fn winner_after(self, after: Board, c: int, r: int, player: Player) -> Option<
        Player,
    > {
        if self.winner is Some {
            self.winner
        } else if wins_at(after, c, r, player.spec_value()) {
            Some(player)
        } else {
            None
        }
    }

    /// The position after `player` has placed a stone at the cell `m` names.
    pub open spec fn play(self, m: Move, player: Player) -> Position {
        let after = place(self.board, m.column as int, m.row as int, player.spec_value());
        Position {
            board: after,
            winner: self.winner_after(after, m.column as int, m.row as int, player),
        }
    }

    /// The position a game starts from is well formed.
    pub proof fn lemma_initial_wf()
        ensures
            Position::initial().wf(),
    {
    }

    /// From the position a game starts from, the legal moves are the bottom
    /// cells of the seven columns.
    pub proof fn lemma_initial_moves()
        ensures
            Position::initial().legal_moves() == Seq::new(
                COLUMNS as nat,
                |c: int| Move { row: 0, column: c as u8 },
            ),
    {
        let b = empty_board();
        assert forall|c: int| 0 <= c < COLUMNS implies #[trigger] height(b, c) == 0 by {
            assert(b[c][0] == EMPTY_VALUE);
        }
        reveal_with_fuel(open_slots_below, 8);
        assert(Position::initial().legal_moves() =~= Seq::new(
            COLUMNS as nat,
            |c: int| Move { row: 0, column: c as u8 },
        ));
    }

    /// The listed moves are exactly the legal ones, none is listed twice, and
    /// a column has a move exactly when it is not full.
    pub proof fn lemma_legal_moves(self)
        ensures
            self.legal_moves().len() <= COLUMNS,
            self.legal_moves().no_duplicates(),
            forall|m: Move| self.legal_moves().contains(m) <==> self.legal(m),
            forall|c: int|
                0 <= c < COLUMNS ==> (column_full(self.board, c) <==> forall|m: Move|
                    self.legal_moves().contains(m) ==> m.column != c),
            self.has_legal_move() <==> exists|m: Move| self.legal(m),
    {
        let moves = self.legal_moves();
        lemma_open_slots_below(self.board, COLUMNS as int);
        if moves.len() > 0 {
            assert(moves.contains(moves[0]));
            assert(self.legal(moves[0]));
        } else {
            assert forall|m: Move| !self.legal(m) by {
                if self.legal(m) {
                    assert(moves.contains(m));
                }
            }
        }
        assert forall|c: int| 0 <= c < COLUMNS implies (column_full(self.board, c) <==> forall|
            m: Move,
        |
            moves.contains(m) ==> m.column != c) by {
            lemma_height(self.board, c);
            if !column_full(self.board, c) {
                let m = Move { row: height(self.board, c) as u8, column: c as u8 };
                assert(is_open_slot(self.board, m.column as int, m.row as int));
                assert(moves.contains(m));
            }
        }
    }

    /// A column that is filled to the top has no legal move.
    pub proof fn lemma_full_column_excluded(self, c: int)
        requires
            0 <= c < COLUMNS,
            forall|r: int| 0 <= r < ROWS ==> #[trigger] self.board[c][r] != EMPTY_VALUE,
        ensures
            forall|m: Move| self.legal_moves().contains(m) ==> m.column != c,
    {
        self.lemma_legal_moves();
        lemma_height(self.board, c);
    }

    /// While no winner is recorded, the player who moves becomes the winner
    /// exactly when the new stone is one of four in a row of that player's
    /// stones, along a row, a column or a diagonal; nobody else ever becomes
    /// the winner by that move.
    pub proof fn lemma_fourth_stone_wins(self, m: Move, player: Player)
        requires
            self.winner is None,
        ensures
            self.play(m, player).winner == Some(player) <==> wins_at(
                self.play(m, player).board,
                m.column as int,
                m.row as int,
                player.spec_value(),
            ),
            self.play(m, player).winner is None || self.play(m, player).winner == Some(player),
    {
    }

    /// A winner once recorded stays, whatever is played afterwards, while the
    /// stone still goes to its cell.
    pub proof fn lemma_winner_stays(self, m: Move, player: Player)
        requires
            self.winner is Some,
            shaped(self.board),
            on_board(m.column as int, m.row as int),
        ensures
            self.play(m, player).winner == self.winner,
            self.play(m, player).board[m.column as int][m.row as int] == player.spec_value(),
    {
        lemma_place(self.board, m.column as int, m.row as int, player.spec_value());
    }

    /// In a well-formed position a winner is recorded exactly when four in a
    /// row exists on the board, and the recorded winner has four in a row.
    pub proof fn lemma_winner_means_four(self)
        requires
            self.wf(),
        ensures
            self.winner is Some <==> has_four(self.board, PLAYER_1_VALUE) || has_four(
                self.board,
                PLAYER_2_VALUE,
            ),
            self.winner matches Some(p) ==> has_four(self.board, p.spec_value()),
    {
    }

    /// A legal move leads from a well-formed position to a well-formed one. In
    /// particular the winner stays in step with the board: it is recorded with
    /// the stone that completes the first four in a row and not before.
    pub proof fn lemma_play_keeps_wf(self, m: Move, player: Player)
        requires
            self.wf(),
            self.legal(m),
        ensures
            self.play(m, player).wf(),
    {
        let c = m.column as int;
        let r = m.row as int;
        let v = player.spec_value();
        let before = self.board;
        let after = place(before, c, r, v);
        lemma_place(before, c, r, v);
        assert(cells_valid(after)) by {
            assert forall|c2: int, r2: int| on_board(c2, r2) implies crate::board::is_cell_value(
                #[trigger] after[c2][r2],
            ) by {
                if c2 != c || r2 != r {
                    assert(after[c2][r2] == before[c2][r2]);
                }
            }
        }
        assert(gravity(after)) by {
            assert forall|c2: int, r2: int, below: int|
                0 <= c2 < COLUMNS && 0 <= below < r2 < ROWS && #[trigger] after[c2][r2]
                    != EMPTY_VALUE implies #[trigger] after[c2][below] != EMPTY_VALUE by {
                if c2 == c && r2 == r {
                    assert(before[c][below] != EMPTY_VALUE);
                    assert(after[c][below] == before[c][below]);
                } else {
                    assert(after[c2][r2] == before[c2][r2]);
                    assert(before[c2][below] != EMPTY_VALUE);
                    if c2 != c || below != r {
                        assert(after[c2][below] == before[c2][below]);
                    }
                }
            }
        }
        match self.winner {
            Some(p) => {
                let w = p.spec_value();
                let (x, y, dc, dr) = choose|x: int, y: int, dc: int, dr: int|
                    is_line_direction(dc, dr) && #[trigger] four_from(before, x, y, dc, dr, w);
                crate::lines::lemma_four_survives_place(before, c, r, v, x, y, dc, dr, w);
                crate::lines::lemma_has_four_intro(after, x, y, dc, dr, w);
            },
            None => {
                if wins_at(after, c, r, v) {
                    crate::lines::lemma_wins_at_has_four(after, c, r, v);
                } else {
                    Self::lemma_no_new_four(before, c, r, v, PLAYER_1_VALUE);
                    Self::lemma_no_new_four(before, c, r, v, PLAYER_2_VALUE);
                }
            },
        }
    }

    /// Where the board held no four of value `w` and the new stone completes
    /// none, the board holds none afterwards.
    proof fn lemma_no_new_four(before: Board, c: int, r: int, v: u8, w: u8)
        requires
            shaped(before),
            on_board(c, r),
            !has_four(before, w),
            !wins_at(place(before, c, r, v), c, r, v),
        ensures
            !has_four(place(before, c, r, v), w),
    {
        let after = place(before, c, r, v);
        assert forall|x: int, y: int, dc: int, dr: int| is_line_direction(dc, dr) implies !(
        #[trigger] four_from(after, x, y, dc, dr, w)) by {
            if four_from(after, x, y, dc, dr, w) {
                crate::lines::lemma_four_after_place(before, c, r, v, x, y, dc, dr, w);
            }
        }
    }
}

} // verus!
