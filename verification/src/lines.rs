//! Lines of stones: what four in a row means, and how it is found by counting
//! outward from one cell.

use vstd::prelude::*;
use crate::board::{Board, COLUMNS, ROWS, on_board, shaped, place};

verus! {

/// Whether `(dc, dr)` is a step to one of the eight neighbours of a cell.
pub open spec fn is_step(dc: int, dr: int) -> bool {
    -1 <= dc <= 1 && -1 <= dr <= 1 && (dc != 0 || dr != 0)
}

/// Whether `(c, r)` is a cell of the board that holds `v`.
pub open spec fn holds(b: Board, c: int, r: int, v: u8) -> bool {
    on_board(c, r) && b[c][r] == v
}

/// Whether the four cells that start at `(c, r)` and go on by `(dc, dr)` all
/// lie on the board and hold `v`.
pub open spec fn four_from(b: Board, c: int, r: int, dc: int, dr: int, v: u8) -> bool {
    &&& holds(b, c, r, v)
    &&& holds(b, c + dc, r + dr, v)
    &&& holds(b, c + 2 * dc, r + 2 * dr, v)
    &&& holds(b, c + 3 * dc, r + 3 * dr, v)
}

/// Whether `(c, r)` is one of four cells in a row along `(dc, dr)` that all
/// hold `v`.
pub open spec fn four_through(b: Board, c: int, r: int, dc: int, dr: int, v: u8) -> bool {
    ||| four_from(b, c, r, dc, dr, v)
    ||| four_from(b, c - dc, r - dr, dc, dr, v)
    ||| four_from(b, c - 2 * dc, r - 2 * dr, dc, dr, v)
    ||| four_from(b, c - 3 * dc, r - 3 * dr, dc, dr, v)
}

/// Whether `(c, r)` lies on a horizontal, vertical or diagonal row of four
/// cells that all hold `v`.
pub open spec fn wins_at(b: Board, c: int, r: int, v: u8) -> bool {
    ||| four_through(b, c, r, 1, 0, v)
    ||| four_through(b, c, r, 0, 1, v)
    ||| four_through(b, c, r, 1, 1, v)
    ||| four_through(b, c, r, 1, -1, v)
}

/// Whether `(dc, dr)` is one of the four directions along which rows of four
/// are looked for: right, up, up-right and down-right.
pub open spec fn is_line_direction(dc: int, dr: int) -> bool {
    dc == 1 && dr == 0 || dc == 0 && dr == 1 || dc == 1 && dr == 1 || dc == 1 && dr == -1
}

/// Whether some row of four cells anywhere on the board holds `v` throughout.
pub open spec fn has_four(b: Board, v: u8) -> bool {
    exists|c: int, r: int, dc: int, dr: int|
        is_line_direction(dc, dr) && #[trigger] four_from(b, c, r, dc, dr, v)
}

/// How many steps one can still take from `(c, r)` along `(dc, dr)` before
/// leaving the board; the measure by which `run` terminates.
pub open spec fn room(c: int, r: int, dc: int, dr: int) -> int {
    if dc > 0 {
        COLUMNS - c
    } else if dc < 0 {
        c + 1
    } else if dr > 0 {
        ROWS - r
    } else {
        r + 1
    }
}

/// The number of cells holding `v` that follow `(c, r)` without a gap along
/// `(dc, dr)`; the cell `(c, r)` itself is not counted.
pub open spec fn run(b: Board, c: int, r: int, dc: int, dr: int, v: u8) -> nat
    decreases room(c, r, dc, dr),
{
    if (dc != 0 || dr != 0) && holds(b, c + dc, r + dr, v) {
        1 + run(b, c + dc, r + dr, dc, dr, v)
    } else {
        0
    }
}

/// The stones of value `v` that extend `(c, r)` in both senses of `(dc, dr)`.
pub open spec fn neighbours_in_line(b: Board, c: int, r: int, dc: int, dr: int, v: u8) -> nat {
    run(b, c, r, dc, dr, v) + run(b, c, r, -dc, -dr, v)
}

/// A run reaches at least one, two or three cells exactly when the next one,
/// two or three cells along the way hold `v`.
pub proof fn lemma_run_reach(b: Board, c: int, r: int, dc: int, dr: int, v: u8)
    requires
        is_step(dc, dr),
    ensures
        run(b, c, r, dc, dr, v) >= 1 <==> holds(b, c + dc, r + dr, v),
        run(b, c, r, dc, dr, v) >= 2 <==> holds(b, c + dc, r + dr, v) && holds(
            b,
            c + 2 * dc,
            r + 2 * dr,
            v,
        ),
        run(b, c, r, dc, dr, v) >= 3 <==> holds(b, c + dc, r + dr, v) && holds(
            b,
            c + 2 * dc,
            r + 2 * dr,
            v,
        ) && holds(b, c + 3 * dc, r + 3 * dr, v),
{
    let one = run(b, c + dc, r + dr, dc, dr, v);
    let two = run(b, c + 2 * dc, r + 2 * dr, dc, dr, v);
    assert(c + dc + dc == c + 2 * dc && r + dr + dr == r + 2 * dr);
    assert(c + 2 * dc + dc == c + 3 * dc && r + 2 * dr + dr == r + 3 * dr);
    assert(one >= 1 <==> holds(b, c + 2 * dc, r + 2 * dr, v));
    assert(two >= 1 <==> holds(b, c + 3 * dc, r + 3 * dr, v));
}

/// A cell that holds `v` has more than two like neighbours along a line
/// exactly when it is one of four in a row along it.
pub proof fn lemma_line_count(b: Board, c: int, r: int, dc: int, dr: int, v: u8)
    requires
        holds(b, c, r, v),
        is_step(dc, dr),
    ensures
        neighbours_in_line(b, c, r, dc, dr, v) > 2 <==> four_through(b, c, r, dc, dr, v),
{
    lemma_run_reach(b, c, r, dc, dr, v);
    lemma_run_reach(b, c, r, -dc, -dr, v);
    let ahead = run(b, c, r, dc, dr, v);
    let behind = run(b, c, r, -dc, -dr, v);
    assert(four_from(b, c, r, dc, dr, v) <==> ahead >= 3);
    assert(four_from(b, c - dc, r - dr, dc, dr, v) <==> behind >= 1 && ahead >= 2);
    assert(four_from(b, c - 2 * dc, r - 2 * dr, dc, dr, v) <==> behind >= 2 && ahead >= 1);
    assert(four_from(b, c - 3 * dc, r - 3 * dr, dc, dr, v) <==> behind >= 3);
}

/// A row of four anywhere on the board is a witness of `has_four`.
pub proof fn lemma_has_four_intro(b: Board, c: int, r: int, dc: int, dr: int, v: u8)
    requires
        is_line_direction(dc, dr),
        four_from(b, c, r, dc, dr, v),
    ensures
        has_four(b, v),
{
}

/// A stone that completes four in a row makes one exist.
pub proof fn lemma_wins_at_has_four(b: Board, c: int, r: int, v: u8)
    requires
        wins_at(b, c, r, v),
    ensures
        has_four(b, v),
{
    if four_through(b, c, r, 1, 0, v) {
        lemma_through_has_four(b, c, r, 1, 0, v);
    } else if four_through(b, c, r, 0, 1, v) {
        lemma_through_has_four(b, c, r, 0, 1, v);
    } else if four_through(b, c, r, 1, 1, v) {
        lemma_through_has_four(b, c, r, 1, 1, v);
    } else {
        lemma_through_has_four(b, c, r, 1, -1, v);
    }
}

proof fn lemma_through_has_four(b: Board, c: int, r: int, dc: int, dr: int, v: u8)
    requires
        is_line_direction(dc, dr),
        four_through(b, c, r, dc, dr, v),
    ensures
        has_four(b, v),
{
    if four_from(b, c, r, dc, dr, v) {
        lemma_has_four_intro(b, c, r, dc, dr, v);
    } else if four_from(b, c - dc, r - dr, dc, dr, v) {
        lemma_has_four_intro(b, c - dc, r - dr, dc, dr, v);
    } else if four_from(b, c - 2 * dc, r - 2 * dr, dc, dr, v) {
        lemma_has_four_intro(b, c - 2 * dc, r - 2 * dr, dc, dr, v);
    } else {
        lemma_has_four_intro(b, c - 3 * dc, r - 3 * dr, dc, dr, v);
    }
}

/// Writing `v` into an empty cell destroys no row of four stones.
pub proof fn lemma_four_survives_place(
    b: Board,
    c: int,
    r: int,
    v: u8,
    x: int,
    y: int,
    dc: int,
    dr: int,
    w: u8,
)
    requires
        shaped(b),
        on_board(c, r),
        b[c][r] == 0,
        w != 0,
        four_from(b, x, y, dc, dr, w),
    ensures
        four_from(place(b, c, r, v), x, y, dc, dr, w),
{
    crate::board::lemma_place(b, c, r, v);
}

/// A row of four on the board after a stone was written into `(c, r)` either
/// was there before or runs through `(c, r)` and is of the new stone's value.
pub proof fn lemma_four_after_place(
    b: Board,
    c: int,
    r: int,
    v: u8,
    x: int,
    y: int,
    dc: int,
    dr: int,
    w: u8,
)
    requires
        shaped(b),
        on_board(c, r),
        four_from(place(b, c, r, v), x, y, dc, dr, w),
    ensures
        four_from(b, x, y, dc, dr, w) || (w == v && four_through(
            place(b, c, r, v),
            c,
            r,
            dc,
            dr,
            v,
        )),
{
    crate::board::lemma_place(b, c, r, v);
    let after = place(b, c, r, v);
    if x == c && y == r {
    } else if x + dc == c && y + dr == r {
        assert(four_from(after, c - dc, r - dr, dc, dr, w));
    } else if x + 2 * dc == c && y + 2 * dr == r {
        assert(four_from(after, c - 2 * dc, r - 2 * dr, dc, dr, w));
    } else if x + 3 * dc == c && y + 3 * dr == r {
        assert(four_from(after, c - 3 * dc, r - 3 * dr, dc, dr, w));
    } else {
        assert(four_from(b, x, y, dc, dr, w));
    }
}

} // verus!
