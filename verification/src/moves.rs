//! A move: the cell that a stone is dropped into.

use vstd::prelude::*;

verus! {

/// The cell, by column and row, that a stone goes to. Rows count from the
/// bottom of the board.
#[derive(Clone, Copy, Hash, Eq, PartialEq, Debug, Structural)]
pub struct Move {
    pub row: u8,
    pub column: u8,
}

impl Move {
    /// The number that stands for this move where moves serve as keys: the
    /// column in the high byte and the row in the low byte.
    pub open spec fn spec_code(&self) -> u16 {
        (self.column as int * 256 + self.row as int) as u16
    }

    /// The number that stands for this move where moves serve as keys.
    #[verifier::when_used_as_spec(spec_code)]
    pub fn code(&self) -> (code: u16)
        ensures
            code == self.spec_code(),
            code == self.column * 256 + self.row,
    {
        self.column as u16 * 256 + self.row as u16
    }

    /// The move that `code` stands for.
    pub fn from_code(code: u16) -> (m: Move)
        ensures
            m.spec_code() == code,
            m.column == code / 256,
            m.row == code % 256,
    {
        Move { row: (code % 256) as u8, column: (code / 256) as u8 }
    }

    /// Different moves have different codes.
    pub proof fn lemma_code_one_to_one(a: Move, b: Move)
        ensures
            a.spec_code() == b.spec_code() <==> a == b,
            a.spec_code() == a.column * 256 + a.row,
    {
    }
}

} // verus!
