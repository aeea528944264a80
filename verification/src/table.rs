//! Scores kept by key: for every key that was observed, how often it was
//! observed and how the games in which it was observed ended.

use vstd::prelude::*;
use std::collections::HashMap;
use std::hash::Hash;
use vstd::std_specs::hash::obeys_key_model;
use crate::score::{Score, Tally};

verus! {

/// The tally after one more observation, of a game won or of a game lost.
pub open spec fn bump(t: Tally, won: bool) -> Tally {
    Tally {
        count: t.count + 1,
        score: if won {
            t.score + 1
        } else {
            t.score - 1
        },
    }
}

/// The tally kept for `key`; a key not yet observed has the empty tally.
pub open spec fn tally_of<K>(m: Map<K, Tally>, key: K) -> Tally {
    if m.contains_key(key) {
        m[key]
    } else {
        Tally { count: 0, score: 0 }
    }
}

/// The tallies after `key` was observed once more.
pub open spec fn credited<K>(m: Map<K, Tally>, key: K, won: bool) -> Map<K, Tally> {
    m.insert(key, bump(tally_of(m, key), won))
}

/// The tallies after each of `keys` was observed once more, one after the
/// other; a key that comes twice is counted twice.
pub open spec fn credited_all<K>(m: Map<K, Tally>, keys: Seq<K>, won: bool) -> Map<K, Tally>
    decreases keys.len(),
{
    if keys.len() == 0 {
        m
    } else {
        credited(credited_all(m, keys.drop_last(), won), keys.last(), won)
    }
}

/// Scores by key, with the number of observations made in all.
pub struct ScoreTable<K> {
    scores: HashMap<K, Score>,
    observed: u32,
}

impl<K> View for ScoreTable<K> {
    type V = Map<K, Tally>;

    closed spec fn view(&self) -> Map<K, Tally> {
        Map::new(|k: K| self.scores@.contains_key(k), |k: K| self.scores@[k]@)
    }
}

impl<K: Copy + Eq + Hash> ScoreTable<K> {
    /// The number of observations that were recorded in this table.
    pub closed spec fn observed(&self) -> nat {
        self.observed as nat
    }

    /// Whether the table is in order: its keys can be told apart by the hash
    /// map, no key was observed more often than observations were made, and no
    /// score lies further from zero than its count.
    pub closed spec fn wf(&self) -> bool {
        &&& obeys_key_model::<K>()
        &&& forall|k: K| #[trigger]
            self.scores@.contains_key(k) ==> self.scores@[k]@.count <= self.observed
                && -self.scores@[k]@.count <= self.scores@[k]@.score <= self.scores@[k]@.count
    }

    /// In a table that is in order every tally is bounded by the number of
    /// observations, which fits 32 bits.
    pub proof fn lemma_wf(&self)
        requires
            self.wf(),
        ensures
            obeys_key_model::<K>(),
            self.observed() <= u32::MAX,
            forall|k: K| #[trigger]
                self@.contains_key(k) ==> self@[k].count <= self.observed() && -self@[k].count
                    <= self@[k].score <= self@[k].count,
    {
    }

    /// A table without observations.
    pub fn new() -> (table: Self)
        requires
            obeys_key_model::<K>(),
        ensures
            table.wf(),
            table@ == Map::<K, Tally>::empty(),
            table.observed() == 0,
    {
        let table = ScoreTable { scores: HashMap::new(), observed: 0 };
        assert(table@ =~= Map::<K, Tally>::empty());
        table
    }

    /// The number of observations recorded so far.
    pub fn observations(&self) -> (n: u32)
        ensures
            n == self.observed(),
    {
        self.observed
    }

    /// The score kept for `key`, if `key` was ever observed.
    pub fn get(&self, key: K) -> (found: Option<Score>)
        requires
            self.wf(),
        ensures
            match found {
                Some(score) => self@.contains_key(key) && self@[key] == score@,
                None => !self@.contains_key(key),
            },
    {
        match self.scores.get(&key) {
            Some(score) => Some(*score),
            None => None,
        }
    }

    /// The scores as the hash map that holds them.
    pub fn scores(&self) -> (scores: &HashMap<K, Score>)
        ensures
            forall|k: K| scores@.contains_key(k) <==> self@.contains_key(k),
            forall|k: K| scores@.contains_key(k) ==> #[trigger] scores@[k]@ == self@[k],
    {
        &self.scores
    }

    /// Records one observation of `key`, in a game that was won or lost.
    pub fn record(&mut self, key: K, won: bool)
        requires
            old(self).wf(),
            old(self).observed() < i32::MAX,
        ensures
            final(self).wf(),
            final(self)@ == credited(old(self)@, key, won),
            final(self).observed() == old(self).observed() + 1,
    {
        let mut score = match self.scores.get(&key) {
            Some(score) => *score,
            None => Score::new(),
        };
        assert(score@ == tally_of(self@, key));
        if won {
            score.plus_one();
        } else {
            score.minus_one();
        }
        self.scores.insert(key, score);
        self.observed += 1;
        assert(self@ =~= credited(old(self)@, key, won));
    }

    /// Records one observation of each of `keys`, in the order they come.
    pub fn record_all(&mut self, keys: &Vec<K>, won: bool)
        requires
            old(self).wf(),
            old(self).observed() + keys@.len() <= i32::MAX,
        ensures
            final(self).wf(),
            final(self)@ == credited_all(old(self)@, keys@, won),
            final(self).observed() == old(self).observed() + keys@.len(),
    {
        let mut i: usize = 0;
        while i < keys.len()
            invariant
                i <= keys@.len(),
                self.wf(),
                old(self).observed() + keys@.len() <= i32::MAX,
                self.observed() == old(self).observed() + i,
                self@ == credited_all(old(self)@, keys@.take(i as int), won),
            decreases keys@.len() - i,
        {
            assert(keys@.take(i + 1).drop_last() =~= keys@.take(i as int));
            self.record(keys[i], won);
            i += 1;
        }
        assert(keys@.take(i as int) =~= keys@);
    }
}

} // verus!
