//! Gathering the rows of one operation as they arrive. One failed round trip
//! fails the whole operation: the rows that came before it are dropped, and
//! those that come after it are ignored.

use vstd::prelude::*;
use crate::error::DispatchError;

verus! {

/// What a run of round trips amounts to, each either a row or a failure: the
/// rows in arrival order, or nothing if one of them failed.
pub open spec fn gathered<T>(outcomes: Seq<Option<T>>) -> Option<Seq<T>>
    decreases outcomes.len(),
{
    if outcomes.len() == 0 {
        Some(Seq::empty())
    } else {
        match (gathered(outcomes.drop_last()), outcomes.last()) {
            (Some(rows), Some(row)) => Some(rows.push(row)),
            _ => None,
        }
    }
}

/// The rows of one operation so far.
pub struct Gather<T> {
    rows: Vec<T>,
    failed: bool,
}

impl<T> View for Gather<T> {
    type V = Option<Seq<T>>;

    /// The rows in arrival order, or nothing once a round trip has failed.
    closed spec fn view(&self) -> Option<Seq<T>> {
        if self.failed {
            None
        } else {
            Some(self.rows@)
        }
    }
}

impl<T> Gather<T> {
    /// No rows yet, and no failure.
    pub fn new() -> (gather: Gather<T>)
        ensures
            gather@ == Some(Seq::<T>::empty()),
    {
        Gather { rows: Vec::new(), failed: false }
    }

    /// Takes the next row.
    pub fn accept(&mut self, row: T)
        ensures
            final(self)@ == match old(self)@ {
                Some(rows) => Some(rows.push(row)),
                None => None,
            },
    {
        if !self.failed {
            self.rows.push(row);
        }
    }

    /// Records that a round trip failed.
    pub fn fail(&mut self)
        ensures
            final(self)@.is_none(),
    {
        self.failed = true;
        self.rows = Vec::new();
    }

    /// Takes the outcome of the next round trip, a row or a failure.
    pub fn feed(&mut self, outcome: Option<T>)
        ensures
            final(self)@ == taking(old(self)@, outcome),
    {
        match outcome {
            Some(row) => self.accept(row),
            None => self.fail(),
        }
    }

    /// Whether a round trip has failed.
    pub fn has_failed(&self) -> (failed: bool)
        ensures
            failed == self@.is_none(),
    {
        self.failed
    }

    /// How many rows would be handed out now.
    pub fn len(&self) -> (len: usize)
        ensures
            len == match self@ {
                Some(rows) => rows.len(),
                None => 0,
            },
    {
        if self.failed {
            0
        } else {
            self.rows.len()
        }
    }

    /// The rows in arrival order, all of them, or the error if any round trip
    /// failed.
    pub fn finish(self) -> (rows: Result<Vec<T>, DispatchError>)
        ensures
            match self@ {
                Some(arrived) => rows.is_ok() && rows.unwrap()@ == arrived,
                None => rows == Err::<Vec<T>, DispatchError>(DispatchError::Store),
            },
    {
        if self.failed {
            Err(DispatchError::Store)
        } else {
            Ok(self.rows)
        }
    }
}

/// What the rows so far become with the outcome of one more round trip.
pub open spec fn taking<T>(so_far: Option<Seq<T>>, outcome: Option<T>) -> Option<Seq<T>> {
    match (so_far, outcome) {
        (Some(rows), Some(row)) => Some(rows.push(row)),
        _ => None,
    }
}

/// What the rows so far become with the outcomes of a run of round trips,
/// oldest first.
pub open spec fn taking_all<T>(so_far: Option<Seq<T>>, outcomes: Seq<Option<T>>) -> Option<Seq<T>>
    decreases outcomes.len(),
{
    if outcomes.len() == 0 {
        so_far
    } else {
        taking(taking_all(so_far, outcomes.drop_last()), outcomes.last())
    }
}

/// Feeding the outcomes of an operation one by one, from nothing, gathers
/// them.
pub proof fn lemma_feeding_gathers<T>(outcomes: Seq<Option<T>>)
    ensures
        taking_all(Some(Seq::<T>::empty()), outcomes) == gathered(outcomes),
    decreases outcomes.len(),
{
    if outcomes.len() > 0 {
        lemma_feeding_gathers(outcomes.drop_last());
    }
}

/// An operation hands out rows exactly when none of its round trips failed,
/// and then it hands out every row that arrived, once, in arrival order:
/// none is dropped and none is added.
pub proof fn lemma_gathered_rows<T>(outcomes: Seq<Option<T>>)
    ensures
        gathered(outcomes).is_some() <==> forall|i: int|
            0 <= i < outcomes.len() ==> (#[trigger] outcomes[i]).is_some(),
        gathered(outcomes) matches Some(rows) ==> {
            &&& rows.len() == outcomes.len()
            &&& forall|i: int| 0 <= i < rows.len() ==> outcomes[i] == Some(#[trigger] rows[i])
        },
    decreases outcomes.len(),
{
    if outcomes.len() > 0 {
        let before = outcomes.drop_last();
        lemma_gathered_rows(before);
        if gathered(outcomes).is_some() {
            assert forall|i: int| 0 <= i < outcomes.len() implies (#[trigger] outcomes[i]).is_some() by {
                if i < before.len() {
                    assert(before[i].is_some());
                }
            }
        }
    }
}

/// A scan whose round trips all succeed hands out exactly the rows that
/// were streamed: as many as there were, each once, in the order of arrival.
pub proof fn lemma_scan_hands_out_every_row<T>(streamed: Seq<T>)
    ensures
        gathered(Seq::new(streamed.len(), |i: int| Some(streamed[i]))) == Some(streamed),
    decreases streamed.len(),
{
    let outcomes = Seq::new(streamed.len(), |i: int| Some(streamed[i]));
    if streamed.len() > 0 {
        let before = streamed.drop_last();
        lemma_scan_hands_out_every_row(before);
        assert(outcomes.drop_last() =~= Seq::new(before.len(), |i: int| Some(before[i])));
    } else {
        assert(streamed =~= Seq::<T>::empty());
    }
}

} // verus!
