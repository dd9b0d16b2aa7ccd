//! The single-slot hand-off between a background fetch and the host's
//! per-tick poll: a write-once-then-drain container.  A write fills the
//! slot; draining takes the content and clears it, so no result is ever
//! delivered twice.

use vstd::prelude::*;
use crate::model::Score;

verus! {

/// A single-item slot holding the result of a completed leaderboard fetch
/// until the host's poll step drains it.
pub struct ScoreSlot {
    /// The pending result, if one is waiting to be drained.
    pub value: Option<Vec<Score>>,
}

impl ScoreSlot {
    /// What the slot holds, if anything.
    pub open spec fn contents(&self) -> Option<Seq<Score>> {
        match self.value {
            Option::Some(v) => Option::Some(v@),
            Option::None => Option::None,
        }
    }

    /// An empty slot.
    pub fn new() -> (r: ScoreSlot)
        ensures
            r.contents() is None,
    {
        ScoreSlot { value: Option::None }
    }

    /// Whether a result is waiting.
    pub fn is_filled(&self) -> (r: bool)
        ensures
            r == (self.contents() is Some),
    {
        self.value.is_some()
    }

    /// Deposit a completed fetch.  Overwrites whatever was there: the slot
    /// holds at most one result at a time.
    pub fn put(&mut self, scores: Vec<Score>)
        ensures
            final(self).contents() matches Some(c) && c == scores@,
    {
        self.value = Option::Some(scores);
    }

    /// Drain the slot: take the content, if any, and leave the slot empty.
    /// Cheap to call when nothing is pending.
    pub fn take(&mut self) -> (r: Option<Vec<Score>>)
        ensures
            final(self).contents() is None,
            match r {
                Option::Some(v) => old(self).contents() matches Some(c) && c == v@,
                Option::None => old(self).contents() is None,
            },
    {
        self.value.take()
    }
}

/// The drain transition: `r` is what the slot held before, and the slot is
/// empty after.
pub open spec fn drained(pre: Option<Seq<Score>>, post: Option<Seq<Score>>, r: Option<Seq<Score>>) -> bool {
    r == pre && post is None
}

/// Law: no double delivery.  Draining the slot twice in a row, with no
/// intervening write, yields nothing the second time.
pub proof fn lemma_no_double_delivery(
    s0: Option<Seq<Score>>,
    s1: Option<Seq<Score>>,
    s2: Option<Seq<Score>>,
    r1: Option<Seq<Score>>,
    r2: Option<Seq<Score>>,
)
    requires
        drained(s0, s1, r1),
        drained(s1, s2, r2),
    ensures
        r2 is None,
{
}

} // verus!
