//! A running score: how often something was seen, and how the games in
//! which it was seen ended.

use vstd::prelude::*;

verus! {

/// What a `Score` stands for: the number of observations and the sum of
/// their outcomes, each outcome being plus one or minus one.
pub struct Tally {
    pub count: nat,
    pub score: int,
}

/// Observations counted, with the wins among them counted up and the losses
/// counted down.
#[derive(Clone, Copy, Hash, Eq, PartialEq, Debug, Structural)]
pub struct Score {
    count: u32,
    score: i32,
}

impl View for Score {
    type V = Tally;

    closed spec fn view(&self) -> Tally {
        Tally { count: self.count as nat, score: self.score as int }
    }
}

impl Score {
    /// A score without observations.
    pub fn new() -> (s: Score)
        ensures
            s@ == (Tally { count: 0, score: 0 }),
    {
        Score { count: 0, score: 0 }
    }

    /// Counts one observation that ended well.
    pub fn plus_one(&mut self)
        requires
            old(self)@.count < u32::MAX,
            old(self)@.score < i32::MAX,
        ensures
            final(self)@ == (Tally { count: old(self)@.count + 1, score: old(self)@.score + 1 }),
    {
        self.score += 1;
        self.count += 1;
    }

    /// Counts one observation that ended badly.
    pub fn minus_one(&mut self)
        requires
            old(self)@.count < u32::MAX,
            old(self)@.score > i32::MIN,
        ensures
            final(self)@ == (Tally { count: old(self)@.count + 1, score: old(self)@.score - 1 }),
    {
        self.score -= 1;
        self.count += 1;
    }

    /// The number of observations.
    pub fn count(&self) -> (n: u32)
        ensures
            n == self@.count,
    {
        self.count
    }

    /// The sum of the outcomes.
    pub fn score(&self) -> (n: i32)
        ensures
            n == self@.score,
    {
        self.score
    }

    /// The score that stands for `count` observations whose outcomes sum to
    /// `score`.
    pub fn from_parts(count: u32, score: i32) -> (s: Score)
        ensures
            s@ == (Tally { count: count as nat, score: score as int }),
    {
        Score { count, score }
    }

    /// Two scores that stand for the same tally are the same score.
    pub proof fn lemma_view_determines(a: Score, b: Score)
        requires
            a@ == b@,
        ensures
            a == b,
    {
    }

    /// What a score stands for fits the machine integers that hold it.
    pub proof fn lemma_view_bounds(self)
        ensures
            self@.count <= u32::MAX,
            i32::MIN <= self@.score <= i32::MAX,
    {
    }
}

} // verus!
