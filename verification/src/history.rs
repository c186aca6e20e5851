//! The positions a game has passed through.

use vstd::prelude::*;
use crate::chess::{Position, fen_hash, position_hash};

verus! {

/// What one visit of the position `fen` adds to the history: its hash, or
/// nothing when the text does not read as a position.
pub open spec fn hash_entry(fen: Seq<char>) -> Seq<u64> {
    match position_hash(fen) {
        Some(k) => seq![k],
        None => Seq::empty(),
    }
}

/// The hashes of the positions a game has passed through, oldest first.
pub struct History {
    pub h: Vec<u64>,
}

impl History {
    /// An empty history.
    pub fn new() -> (history: History)
        ensures
            history.h@.len() == 0,
    {
        History { h: Vec::new() }
    }

    /// Records one more occurrence of a position: its hash is added at the
    /// end (nothing when its text does not read as a position).
    pub fn inc(&mut self, position: &Position)
        ensures
            final(self).h@ == old(self).h@ + hash_entry(position.fen@),
    {
        match fen_hash(position.fen.as_str()) {
            Some(key) => {
                self.record(key);
            },
            None => {
                assert(old(self).h@ + hash_entry(position.fen@) == old(self).h@);
            },
        }
    }

    /// Records one more occurrence of the position with hash `key`.
    pub fn record(&mut self, key: u64)
        ensures
            final(self).h@ == old(self).h@.push(key),
    {
        self.h.push(key);
    }
}

} // verus!
