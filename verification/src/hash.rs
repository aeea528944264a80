//! The encoding of a board as one wide integer, seen from one player's side.
//!
//! Cells are numbered column by column, bottom row first. A stone of the
//! player whose perspective is taken sets the bit of its cell's number; a
//! stone of the opponent sets the bit `BOARD_SIZE` places higher.

use vstd::prelude::*;
use vstd::arithmetic::power2::{
    pow2, lemma2_to64_rest, lemma_pow2_adds, lemma_pow2_pos, lemma_pow2_unfold,
    lemma_pow2_strictly_increases,
};
use crate::board::{
    Board, BOARD_SIZE, COLUMNS, ROWS, EMPTY_VALUE, on_board, shaped, cells_valid, empty_board,
    place, lemma_place,
};
use crate::player::Player;

verus! {

/// The number of cell `(c, r)` in the order the encoding goes through the
/// board.
pub open spec fn cell_index(c: int, r: int) -> int {
    c * ROWS + r
}

/// The value of the cell numbered `i`.
pub open spec fn cell_at(b: Board, i: int) -> u8 {
    b[i / (ROWS as int)][i % (ROWS as int)]
}

/// What the cell numbered `i` adds to the encoding when it holds `v` and the
/// perspective is that of the player with value `me`.
pub open spec fn cell_weight(v: u8, me: u8, i: nat) -> nat {
    if v == EMPTY_VALUE {
        0
    } else if v == me {
        pow2(i)
    } else {
        pow2(i + BOARD_SIZE as nat)
    }
}

/// The sum of the weights of the cells numbered below `n`.
pub open spec fn hash_prefix(b: Board, me: u8, n: nat) -> nat
    decreases n,
{
    if n == 0 {
        0
    } else {
        hash_prefix(b, me, (n - 1) as nat) + cell_weight(cell_at(b, n - 1), me, (n - 1) as nat)
    }
}

/// The encoding of `b` from the perspective of `me`.
pub open spec fn board_hash(b: Board, me: Player) -> nat {
    hash_prefix(b, me.spec_value(), BOARD_SIZE as nat)
}

/// The weights of the first `n` cells sum to less than `2^(n + BOARD_SIZE)`.
pub proof fn lemma_hash_prefix_bound(b: Board, me: u8, n: nat)
    ensures
        hash_prefix(b, me, n) < pow2(n + BOARD_SIZE as nat),
    decreases n,
{
    if n == 0 {
        lemma_pow2_pos(BOARD_SIZE as nat);
    } else {
        let m = (n - 1) as nat;
        lemma_hash_prefix_bound(b, me, m);
        lemma_pow2_unfold(n + BOARD_SIZE as nat);
        lemma_pow2_strictly_increases(m, m + BOARD_SIZE as nat);
    }
}

/// An encoding takes up at most `2 * BOARD_SIZE` bits.
pub proof fn lemma_board_hash_bound(b: Board, me: Player)
    ensures
        board_hash(b, me) < pow2(2 * BOARD_SIZE as nat),
        pow2(2 * BOARD_SIZE as nat) == 0x10_0000_0000_0000_0000_0000,
{
    lemma_hash_prefix_bound(b, me.spec_value(), BOARD_SIZE as nat);
    lemma_pow2_adds(42, 42);
    lemma2_to64_rest();
}

/// Shifting one to the left by `k` places gives `2^k`.
pub proof fn lemma_shl_one(k: usize)
    requires
        k < 128,
    ensures
        (1u128 << k) == pow2(k as nat),
    decreases k,
{
    if k == 0 {
        assert(1u128 << 0usize == 1) by (bit_vector);
        vstd::arithmetic::power2::lemma2_to64();
    } else {
        let j: usize = (k - 1) as usize;
        lemma_shl_one(j);
        assert((1u128 << k) == 2 * (1u128 << j)) by (bit_vector)
            requires
                0 < k < 128,
                j == k - 1,
        ;
        lemma_pow2_unfold(k as nat);
    }
}

/// The cell numbered `cell_index(c, r)` is the cell `(c, r)`, and its number
/// is below `BOARD_SIZE`.
pub proof fn lemma_cell_index(c: int, r: int)
    requires
        on_board(c, r),
    ensures
        0 <= cell_index(c, r) < BOARD_SIZE,
        cell_index(c, r) / (ROWS as int) == c,
        cell_index(c, r) % (ROWS as int) == r,
{
}

/// Every number below `BOARD_SIZE` is the number of one cell of the board.
pub proof fn lemma_cell_of_index(i: int)
    requires
        0 <= i < BOARD_SIZE,
    ensures
        on_board(i / (ROWS as int), i % (ROWS as int)),
        cell_index(i / (ROWS as int), i % (ROWS as int)) == i,
{
}

/// The empty board is encoded as zero, whoever looks at it.
pub proof fn lemma_empty_board_hash(me: Player)
    ensures
        board_hash(empty_board(), me) == 0,
{
    lemma_empty_prefix(me.spec_value(), BOARD_SIZE as nat);
}

proof fn lemma_empty_prefix(me: u8, n: nat)
    requires
        n <= BOARD_SIZE,
    ensures
        hash_prefix(empty_board(), me, n) == 0,
    decreases n,
{
    if n > 0 {
        lemma_empty_prefix(me, (n - 1) as nat);
        assert(cell_at(empty_board(), n - 1) == EMPTY_VALUE);
    }
}

/// A stone placed in an empty cell adds the weight of that cell to the
/// encoding and changes nothing else: from the perspective of the player who
/// placed it the bit of the cell's number is set, from the opponent's the bit
/// `BOARD_SIZE` places higher.
pub proof fn lemma_hash_after_place(b: Board, c: int, r: int, player: Player, me: Player)
    requires
        shaped(b),
        on_board(c, r),
        b[c][r] == EMPTY_VALUE,
    ensures
        board_hash(place(b, c, r, player.spec_value()), me) == board_hash(b, me) + (if me
            == player {
            pow2(cell_index(c, r) as nat)
        } else {
            pow2((cell_index(c, r) + BOARD_SIZE) as nat)
        }),
{
    lemma_prefix_after_place(b, c, r, player.spec_value(), me.spec_value(), BOARD_SIZE as nat);
    lemma_cell_index(c, r);
}

proof fn lemma_prefix_after_place(b: Board, c: int, r: int, v: u8, me: u8, n: nat)
    requires
        shaped(b),
        on_board(c, r),
        b[c][r] == EMPTY_VALUE,
        n <= BOARD_SIZE,
    ensures
        hash_prefix(place(b, c, r, v), me, n) == hash_prefix(b, me, n) + (if cell_index(c, r)
            < n {
            cell_weight(v, me, cell_index(c, r) as nat)
        } else {
            0
        }),
    decreases n,
{
    if n > 0 {
        let i = n - 1;
        lemma_prefix_after_place(b, c, r, v, me, i as nat);
        lemma_place(b, c, r, v);
        lemma_cell_index(c, r);
        let after = place(b, c, r, v);
        if i == cell_index(c, r) {
            assert(cell_at(after, i) == v);
            assert(cell_at(b, i) == EMPTY_VALUE);
        } else {
            lemma_cell_of_index(i);
            assert(cell_at(after, i) == cell_at(b, i));
        }
    }
}

/// The stones of value `v` among the cells numbered below `n`, as a bit mask:
/// bit `i` is set exactly when cell `i` holds `v`.
pub open spec fn stone_mask(b: Board, v: u8, n: nat) -> nat
    decreases n,
{
    if n == 0 {
        0
    } else {
        stone_mask(b, v, (n - 1) as nat) + (if cell_at(b, n - 1) == v {
            pow2((n - 1) as nat)
        } else {
            0
        })
    }
}

/// A mask over the first `n` cells has no bit at or above `n`.
pub proof fn lemma_stone_mask_bound(b: Board, v: u8, n: nat)
    ensures
        stone_mask(b, v, n) < pow2(n),
    decreases n,
{
    if n == 0 {
        lemma_pow2_pos(0);
    } else {
        lemma_stone_mask_bound(b, v, (n - 1) as nat);
        lemma_pow2_unfold(n);
    }
}

/// The low half of an encoding: the bits below `BOARD_SIZE`.
pub open spec fn low_half(h: nat) -> nat {
    h % pow2(BOARD_SIZE as nat)
}

/// The high half of an encoding: the bits from `BOARD_SIZE` upward.
pub open spec fn high_half(h: nat) -> nat {
    h / pow2(BOARD_SIZE as nat)
}

proof fn lemma_prefix_splits(b: Board, me: Player, n: nat)
    requires
        shaped(b),
        cells_valid(b),
        n <= BOARD_SIZE,
    ensures
        hash_prefix(b, me.spec_value(), n) == stone_mask(b, me.spec_value(), n) + pow2(
            BOARD_SIZE as nat,
        ) * stone_mask(b, me.opponent().spec_value(), n),
    decreases n,
{
    lemma2_to64_rest();
    if n > 0 {
        let i = (n - 1) as nat;
        lemma_prefix_splits(b, me, i);
        lemma_pow2_adds(i, BOARD_SIZE as nat);
        let c = i as int / (ROWS as int);
        let r = i as int % (ROWS as int);
        assert(on_board(c, r));
        assert(crate::board::is_cell_value(b[c][r]));
        let own = stone_mask(b, me.spec_value(), i);
        let other = stone_mask(b, me.opponent().spec_value(), i);
        assert(pow2(BOARD_SIZE as nat) * (other + pow2(i)) == pow2(BOARD_SIZE as nat) * other
            + pow2(BOARD_SIZE as nat) * pow2(i)) by (nonlinear_arith);
        assert(pow2(i) * pow2(BOARD_SIZE as nat) == pow2(BOARD_SIZE as nat) * pow2(i))
            by (nonlinear_arith);
    }
}

/// On a board of valid cells the low half of an encoding is the mask of the
/// stones of the player whose perspective it is, and the high half is the mask
/// of the opponent's stones.
pub proof fn lemma_hash_halves(b: Board, me: Player)
    requires
        shaped(b),
        cells_valid(b),
    ensures
        low_half(board_hash(b, me)) == stone_mask(b, me.spec_value(), BOARD_SIZE as nat),
        high_half(board_hash(b, me)) == stone_mask(
            b,
            me.opponent().spec_value(),
            BOARD_SIZE as nat,
        ),
{
    let n = BOARD_SIZE as nat;
    lemma_prefix_splits(b, me, n);
    lemma_stone_mask_bound(b, me.spec_value(), n);
    lemma_stone_mask_bound(b, me.opponent().spec_value(), n);
    lemma2_to64_rest();
    let own = stone_mask(b, me.spec_value(), n) as int;
    let other = stone_mask(b, me.opponent().spec_value(), n) as int;
    let size = pow2(n) as int;
    assert(size == 0x400_0000_0000);
    assert((own + size * other) % size == own && (own + size * other) / size == other)
        by (nonlinear_arith)
        requires
            0 <= own < size,
            0 <= other,
    ;
}

/// Taking the other player's perspective swaps the two halves of the
/// encoding: what was the low half is the high half and the other way round.
pub proof fn lemma_perspective_swap(b: Board, me: Player)
    requires
        shaped(b),
        cells_valid(b),
    ensures
        low_half(board_hash(b, me)) == high_half(board_hash(b, me.opponent())),
        high_half(board_hash(b, me)) == low_half(board_hash(b, me.opponent())),
{
    lemma_hash_halves(b, me);
    lemma_hash_halves(b, me.opponent());
}

/// Two boards with the same mask of the stones of value `v` hold `v` in the
/// same cells.
pub proof fn lemma_mask_determines_cells(b1: Board, b2: Board, v: u8, n: nat)
    requires
        stone_mask(b1, v, n) == stone_mask(b2, v, n),
    ensures
        forall|i: int| 0 <= i < n ==> (cell_at(b1, i) == v <==> cell_at(b2, i) == v),
    decreases n,
{
    if n > 0 {
        let m = (n - 1) as nat;
        lemma_stone_mask_bound(b1, v, m);
        lemma_stone_mask_bound(b2, v, m);
        lemma_pow2_pos(m);
        assert(cell_at(b1, m as int) == v <==> stone_mask(b1, v, n) >= pow2(m));
        assert(cell_at(b2, m as int) == v <==> stone_mask(b2, v, n) >= pow2(m));
        lemma_mask_determines_cells(b1, b2, v, m);
    }
}

/// The encoding tells boards apart: two boards of valid cells that one player
/// sees encoded alike are the same board.
pub proof fn lemma_hash_determines_board(b1: Board, b2: Board, me: Player)
    requires
        shaped(b1),
        shaped(b2),
        cells_valid(b1),
        cells_valid(b2),
        board_hash(b1, me) == board_hash(b2, me),
    ensures
        b1 == b2,
{
    let n = BOARD_SIZE as nat;
    lemma_hash_halves(b1, me);
    lemma_hash_halves(b2, me);
    lemma_mask_determines_cells(b1, b2, me.spec_value(), n);
    lemma_mask_determines_cells(b1, b2, me.opponent().spec_value(), n);
    assert forall|c: int| 0 <= c < COLUMNS implies #[trigger] b1[c] == b2[c] by {
        assert forall|r: int| 0 <= r < ROWS implies b1[c][r] == b2[c][r] by {
            lemma_cell_index(c, r);
            let i = cell_index(c, r);
            assert(cell_at(b1, i) == b1[c][r] && cell_at(b2, i) == b2[c][r]);
            assert(on_board(c, r));
            assert(crate::board::is_cell_value(b1[c][r]));
            assert(crate::board::is_cell_value(b2[c][r]));
        }
        assert(b1[c] =~= b2[c]);
    }
    assert(b1 =~= b2);
}

} // verus!
