//! The mathematical model of the board that all contracts are stated over.
//!
//! A board is a sequence of columns and a column is a sequence of cell
//! values, bottom row first.

use vstd::prelude::*;

verus! {

/// Value of a cell that holds no stone.
pub const EMPTY_VALUE: u8 = 0;

/// Number of columns of the board.
pub const COLUMNS: usize = 7;

/// Number of rows of the board.
pub const ROWS: usize = 6;

/// Number of cells of the board.
pub const BOARD_SIZE: usize = COLUMNS * ROWS;

/// Columns of cell values, each column bottom row first.
pub type Board = Seq<Seq<u8>>;

/// Whether `(c, r)` names a cell of the board.
pub open spec fn on_board(c: int, r: int) -> bool {
    0 <= c < COLUMNS && 0 <= r < ROWS
}

/// Whether `b` has the dimensions of the board.
pub open spec fn shaped(b: Board) -> bool {
    &&& b.len() == COLUMNS
    &&& forall|c: int| 0 <= c < COLUMNS ==> (#[trigger] b[c]).len() == ROWS
}

/// Whether `v` is one of the three values a cell can hold.
pub open spec fn is_cell_value(v: u8) -> bool {
    v == EMPTY_VALUE || v == crate::player::PLAYER_1_VALUE || v == crate::player::PLAYER_2_VALUE
}

/// Whether every cell of `b` holds one of the three cell values.
pub open spec fn cells_valid(b: Board) -> bool {
    forall|c: int, r: int| on_board(c, r) ==> is_cell_value(#[trigger] b[c][r])
}

/// The board without stones.
pub open spec fn empty_board() -> Board {
    Seq::new(COLUMNS as nat, |c: int| Seq::new(ROWS as nat, |r: int| EMPTY_VALUE))
}

/// The board `b` after `v` has been written into cell `(c, r)`.
pub open spec fn place(b: Board, c: int, r: int, v: u8) -> Board {
    b.update(c, b[c].update(r, v))
}

/// Placing changes the one cell and no other, and keeps the dimensions.
pub proof fn lemma_place(b: Board, c: int, r: int, v: u8)
    requires
        shaped(b),
        on_board(c, r),
    ensures
        shaped(place(b, c, r, v)),
        place(b, c, r, v)[c][r] == v,
        forall|c2: int, r2: int|
            on_board(c2, r2) && (c2 != c || r2 != r) ==> #[trigger] place(b, c, r, v)[c2][r2]
                == b[c2][r2],
{
}

/// Whether no stone of `b` floats: below an occupied cell every cell of the
/// column is occupied.
pub open spec fn gravity(b: Board) -> bool {
    forall|c: int, r: int, below: int|
        0 <= c < COLUMNS && 0 <= below < r < ROWS && #[trigger] b[c][r] != EMPTY_VALUE
            ==> #[trigger] b[c][below] != EMPTY_VALUE
}

/// Whether `(c, r)` is the first open slot of column `c`, counted from the
/// bottom: the cell is empty and every cell below it is occupied.
pub open spec fn is_open_slot(b: Board, c: int, r: int) -> bool {
    &&& on_board(c, r)
    &&& b[c][r] == EMPTY_VALUE
    &&& forall|below: int| 0 <= below < r ==> #[trigger] b[c][below] != EMPTY_VALUE
}

/// The first row at or above `r` at which column `c` is empty, or `ROWS` if
/// there is none.
pub open spec fn first_empty_from(b: Board, c: int, r: int) -> int
    decreases ROWS - r,
{
    if 0 <= r < ROWS && b[c][r] != EMPTY_VALUE {
        first_empty_from(b, c, r + 1)
    } else {
        r
    }
}

/// The height of column `c`: the number of occupied cells at its bottom.
pub open spec fn height(b: Board, c: int) -> int {
    first_empty_from(b, c, 0)
}

/// Whether column `c` has no open slot.
pub open spec fn column_full(b: Board, c: int) -> bool {
    height(b, c) >= ROWS
}

/// Scanning upward from `r` stops at the first empty cell and passes only
/// occupied ones.
pub proof fn lemma_first_empty_from(b: Board, c: int, r: int)
    requires
        0 <= r <= ROWS,
    ensures
        r <= first_empty_from(b, c, r) <= ROWS,
        forall|k: int| r <= k < first_empty_from(b, c, r) ==> #[trigger] b[c][k] != EMPTY_VALUE,
        first_empty_from(b, c, r) < ROWS ==> b[c][first_empty_from(b, c, r)] == EMPTY_VALUE,
    decreases ROWS - r,
{
    if r < ROWS && b[c][r] != EMPTY_VALUE {
        lemma_first_empty_from(b, c, r + 1);
    }
}

/// The height of a column is the one row that is its open slot, and a column
/// has no open slot exactly when it is full.
pub proof fn lemma_height(b: Board, c: int)
    requires
        0 <= c < COLUMNS,
    ensures
        0 <= height(b, c) <= ROWS,
        forall|r: int| is_open_slot(b, c, r) <==> r == height(b, c) && r < ROWS,
        column_full(b, c) <==> forall|r: int| 0 <= r < ROWS ==> #[trigger] b[c][r] != EMPTY_VALUE,
{
    lemma_first_empty_from(b, c, 0);
    let h = height(b, c);
    assert forall|r: int| is_open_slot(b, c, r) implies r == h && r < ROWS by {
        if r < h {
            assert(b[c][r] != EMPTY_VALUE);
        } else if r > h {
            assert(b[c][h] != EMPTY_VALUE);
        }
    }
    if !column_full(b, c) {
        assert(b[c][h] == EMPTY_VALUE);
    }
}

/// The heights of the columns below `n`, added up.
pub open spec fn stones_below(b: Board, n: int) -> int
    decreases n,
{
    if n <= 0 {
        0
    } else {
        stones_below(b, n - 1) + height(b, n - 1)
    }
}

/// The number of stones on a board on which no stone floats: the heights of
/// all columns, added up.
pub open spec fn stone_count(b: Board) -> int {
    stones_below(b, COLUMNS as int)
}

/// On a board on which no stone floats, the height of a column is the number
/// of its occupied cells: the cells below the height are occupied and those
/// from the height upward are empty.
pub proof fn lemma_height_counts_stones(b: Board, c: int)
    requires
        gravity(b),
        0 <= c < COLUMNS,
    ensures
        forall|r: int| 0 <= r < ROWS ==> (#[trigger] b[c][r] != EMPTY_VALUE <==> r < height(b, c)),
{
    lemma_height(b, c);
    lemma_first_empty_from(b, c, 0);
    let h = height(b, c);
    assert forall|r: int| 0 <= r < ROWS implies (#[trigger] b[c][r] != EMPTY_VALUE <==> r < h) by {
        if r > h && b[c][r] != EMPTY_VALUE {
            assert(b[c][h] != EMPTY_VALUE);
        }
    }
}

/// A stone dropped into the open slot of a column raises that column by one
/// and leaves the other columns as they are.
pub proof fn lemma_height_after_place(b: Board, c: int, r: int, v: u8)
    requires
        shaped(b),
        gravity(b),
        is_open_slot(b, c, r),
        v != EMPTY_VALUE,
    ensures
        height(place(b, c, r, v), c) == r + 1,
        forall|c2: int|
            0 <= c2 < COLUMNS && c2 != c ==> #[trigger] height(place(b, c, r, v), c2) == height(
                b,
                c2,
            ),
{
    let after = place(b, c, r, v);
    lemma_place(b, c, r, v);
    lemma_height(after, c);
    lemma_height_counts_stones(b, c);
    lemma_height(b, c);
    if r + 1 < ROWS {
        assert(after[c][r + 1] == b[c][r + 1]);
        assert forall|below: int| 0 <= below < r + 1 implies #[trigger] after[c][below]
            != EMPTY_VALUE by {
            if below < r {
                assert(after[c][below] == b[c][below]);
            }
        }
        assert(is_open_slot(after, c, r + 1));
    } else {
        assert forall|k: int| 0 <= k < ROWS implies #[trigger] after[c][k] != EMPTY_VALUE by {
            if k < r {
                assert(after[c][k] == b[c][k]);
            }
        }
    }
    assert forall|c2: int| 0 <= c2 < COLUMNS && c2 != c implies #[trigger] height(after, c2)
        == height(b, c2) by {
        assert(after[c2] == b[c2]);
        lemma_height(b, c2);
        lemma_height(after, c2);
        let h = height(b, c2);
        if h < ROWS {
            assert(is_open_slot(b, c2, h));
            assert(is_open_slot(after, c2, h));
        } else {
            assert(column_full(b, c2));
            assert(column_full(after, c2));
        }
    }
}

/// A stone dropped into an open slot raises the number of stones by one.
pub proof fn lemma_stone_count_after_place(b: Board, c: int, r: int, v: u8)
    requires
        shaped(b),
        gravity(b),
        is_open_slot(b, c, r),
        v != EMPTY_VALUE,
    ensures
        stone_count(place(b, c, r, v)) == stone_count(b) + 1,
{
    lemma_height_after_place(b, c, r, v);
    lemma_height(b, c);
    lemma_stones_below_after_place(b, c, r, v, COLUMNS as int);
}

proof fn lemma_stones_below_after_place(b: Board, c: int, r: int, v: u8, n: int)
    requires
        0 <= n <= COLUMNS,
        0 <= c < COLUMNS,
        height(place(b, c, r, v), c) == height(b, c) + 1,
        forall|c2: int|
            0 <= c2 < COLUMNS && c2 != c ==> #[trigger] height(place(b, c, r, v), c2) == height(
                b,
                c2,
            ),
    ensures
        stones_below(place(b, c, r, v), n) == stones_below(b, n) + (if c < n {
            1int
        } else {
            0int
        }),
    decreases n,
{
    if n > 0 {
        lemma_stones_below_after_place(b, c, r, v, n - 1);
    }
}

/// A board holds at most `BOARD_SIZE` stones, and while it holds fewer some
/// column is not full.
pub proof fn lemma_stone_count_bound(b: Board)
    ensures
        0 <= stone_count(b) <= BOARD_SIZE,
        stone_count(b) < BOARD_SIZE ==> exists|c: int| 0 <= c < COLUMNS && !column_full(b, c),
{
    lemma_stones_below_bound(b, COLUMNS as int);
}

proof fn lemma_stones_below_bound(b: Board, n: int)
    requires
        0 <= n <= COLUMNS,
    ensures
        0 <= stones_below(b, n) <= n * ROWS,
        stones_below(b, n) < n * ROWS ==> exists|c: int| 0 <= c < n && !column_full(b, c),
    decreases n,
{
    if n > 0 {
        lemma_stones_below_bound(b, n - 1);
        lemma_height(b, n - 1);
        if stones_below(b, n) < n * ROWS {
            if height(b, n - 1) < ROWS {
                assert(!column_full(b, n - 1));
            } else {
                let c = choose|c: int| 0 <= c < n - 1 && !column_full(b, c);
                assert(0 <= c < n && !column_full(b, c));
            }
        }
    }
}

} // verus!
