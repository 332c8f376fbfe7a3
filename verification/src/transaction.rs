//! The transactional batch update: open a transaction, lock and fetch the
//! rows one after another, write them all with one statement, commit. Any
//! failure on the way rolls the transaction back, so either every row of the
//! batch is written or none is.

use vstd::prelude::*;
use crate::error::DispatchError;
use crate::model::{ids_of, in_domain, numbers_of, World};
use crate::sampling::Sampler;
use crate::store::{lemma_batch_reads_back, written};
use crate::update::renumbered;

verus! {

/// Where a transaction stands.
#[derive(Clone, Copy, Debug, PartialEq, Eq, Structural)]
pub enum Phase {
    /// The transaction is to be opened.
    Opening,
    /// The next row is to be fetched under its lock.
    Locking,
    /// Every row is locked; the batch statement is to run.
    Writing,
    /// The batch statement has run; the transaction is to be committed.
    Committing,
    /// A step failed; the transaction is to be rolled back.
    RollingBack,
    /// The transaction is committed.
    Committed,
    /// The transaction is over and nothing was written.
    Aborted,
}

/// What the driver does next.
#[derive(Clone, Copy, Debug, PartialEq, Eq, Structural)]
pub enum TxCommand {
    /// Open a transaction.
    Begin,
    /// Fetch the row of this id with the row-locking lookup.
    LockRow(i32),
    /// Run the batch statement with the ids and the values of the
    /// transaction.
    Write,
    /// Commit.
    Commit,
    /// Roll back.
    Rollback,
    /// Hand out the rows: the update is done.
    Done,
    /// Report the failure: nothing was written.
    Failed,
}

impl TxCommand {
    /// The text that opens, commits or rolls back a transaction; nothing for
    /// the commands that run a compiled statement or end the update.
    pub open spec fn text(self) -> Option<Seq<char>> {
        match self {
            TxCommand::Begin => Some("BEGIN"@),
            TxCommand::Commit => Some("COMMIT"@),
            TxCommand::Rollback => Some("ROLLBACK"@),
            _ => None,
        }
    }

    /// The text to send for this command, if it is sent as text.
    pub fn sql(self) -> (sql: Option<&'static str>)
        ensures
            match self.text() {
                Some(text) => sql.is_some() && sql.unwrap()@ == text,
                None => sql.is_none(),
            },
    {
        match self {
            TxCommand::Begin => Some("BEGIN"),
            TxCommand::Commit => Some("COMMIT"),
            TxCommand::Rollback => Some("ROLLBACK"),
            _ => None,
        }
    }
}

/// What the driver reports of the step it was told to do.
#[derive(Clone, Copy, Debug, PartialEq, Eq, Structural)]
pub enum TxReply {
    /// The step succeeded and brought no row.
    Done,
    /// The lookup succeeded and brought this row.
    Row(World),
    /// The step failed.
    Failed,
}

/// A transaction as a value: the ids it updates, the value each is to take,
/// the rows locked so far, and the step it waits for.
pub struct TransactionState {
    pub ids: Seq<i32>,
    pub numbers: Seq<i32>,
    pub locked: Seq<World>,
    pub phase: Phase,
}

impl TransactionState {
    /// The transaction before its first step.
    pub open spec fn fresh(ids: Seq<i32>, numbers: Seq<i32>) -> TransactionState {
        TransactionState { ids, numbers, locked: Seq::empty(), phase: Phase::Opening }
    }

    /// The rows locked are those of the first ids, in order, and the batch
    /// statement is only reached with all of them.
    pub open spec fn wf(self) -> bool {
        &&& self.ids.len() == self.numbers.len()
        &&& self.locked.len() <= self.ids.len()
        &&& forall|j: int| 0 <= j < self.locked.len() ==> (#[trigger] self.locked[j]).id == self.ids[j]
        &&& match self.phase {
            Phase::Opening => self.locked.len() == 0,
            Phase::Locking => self.locked.len() < self.ids.len(),
            Phase::Writing | Phase::Committing | Phase::Committed => self.locked.len()
                == self.ids.len(),
            Phase::RollingBack | Phase::Aborted => true,
        }
    }

    /// The step the transaction waits for.
    pub open spec fn command(self) -> TxCommand {
        match self.phase {
            Phase::Opening => TxCommand::Begin,
            Phase::Locking => TxCommand::LockRow(self.ids[self.locked.len() as int]),
            Phase::Writing => TxCommand::Write,
            Phase::Committing => TxCommand::Commit,
            Phase::RollingBack => TxCommand::Rollback,
            Phase::Committed => TxCommand::Done,
            Phase::Aborted => TxCommand::Failed,
        }
    }

    /// Whether `reply` reports the success of the step the transaction waits
    /// for: a plain success, or for a lookup the row of the id asked for.
    pub open spec fn moves_on(self, reply: TxReply) -> bool {
        match self.phase {
            Phase::Opening | Phase::Writing | Phase::Committing => reply == TxReply::Done,
            Phase::Locking => reply matches TxReply::Row(world) && world.id
                == self.ids[self.locked.len() as int],
            _ => false,
        }
    }

    /// The transaction once the driver has reported on the awaited step.
    pub open spec fn after(self, reply: TxReply) -> TransactionState {
        match self.phase {
            Phase::Committed | Phase::Aborted => self,
            Phase::RollingBack => TransactionState { phase: Phase::Aborted, ..self },
            Phase::Opening => if !self.moves_on(reply) {
                TransactionState { phase: Phase::RollingBack, ..self }
            } else if self.ids.len() == 0 {
                TransactionState { phase: Phase::Writing, ..self }
            } else {
                TransactionState { phase: Phase::Locking, ..self }
            },
            Phase::Locking => match reply {
                TxReply::Row(world) if self.moves_on(reply) => TransactionState {
                    locked: self.locked.push(world),
                    phase: if self.locked.len() + 1 == self.ids.len() {
                        Phase::Writing
                    } else {
                        Phase::Locking
                    },
                    ..self
                },
                _ => TransactionState { phase: Phase::RollingBack, ..self },
            },
            Phase::Writing => if self.moves_on(reply) {
                TransactionState { phase: Phase::Committing, ..self }
            } else {
                TransactionState { phase: Phase::RollingBack, ..self }
            },
            Phase::Committing => if self.moves_on(reply) {
                TransactionState { phase: Phase::Committed, ..self }
            } else {
                TransactionState { phase: Phase::RollingBack, ..self }
            },
        }
    }

    /// The transaction after a run of reports, oldest first.
    pub open spec fn after_all(self, replies: Seq<TxReply>) -> TransactionState
        decreases replies.len(),
    {
        if replies.len() == 0 {
            self
        } else {
            self.after(replies[0]).after_all(replies.skip(1))
        }
    }

    /// The rows the update hands out: once committed, the rows that were
    /// locked, each with its new value.
    pub open spec fn outcome(self) -> Option<Seq<World>> {
        if self.phase == Phase::Committed {
            Some(renumbered(self.locked, self.numbers))
        } else {
            None
        }
    }

    /// Whether the transaction has failed: it is being rolled back or is
    /// over with nothing written.
    pub open spec fn failed(self) -> bool {
        self.phase == Phase::RollingBack || self.phase == Phase::Aborted
    }

    /// How many successful steps still separate the transaction from its
    /// commit.
    pub open spec fn remaining(self) -> int {
        match self.phase {
            Phase::Opening => (self.ids.len() + 3) as int,
            Phase::Locking => self.ids.len() - self.locked.len() + 2,
            Phase::Writing => 2,
            Phase::Committing => 1,
            _ => 0,
        }
    }
}

/// One transactional batch update in progress.
pub struct Transaction {
    ids: Vec<i32>,
    numbers: Vec<i32>,
    locked: Vec<World>,
    phase: Phase,
}

impl View for Transaction {
    type V = TransactionState;

    closed spec fn view(&self) -> TransactionState {
        TransactionState {
            ids: self.ids@,
            numbers: self.numbers@,
            locked: self.locked@,
            phase: self.phase,
        }
    }
}

impl Transaction {
    /// Holds of every value of the type, at every moment.
    #[verifier::type_invariant]
    spec fn inv(self) -> bool {
        self@.wf()
    }

    /// A transaction that gives the row of each of `ids` the value beside it
    /// in `numbers`, or nothing when the two differ in length.
    pub fn new(ids: Vec<i32>, numbers: Vec<i32>) -> (transaction: Option<Transaction>)
        ensures
            transaction.is_some() == (ids@.len() == numbers@.len()),
            transaction matches Some(t) ==> t@ == TransactionState::fresh(ids@, numbers@),
    {
        if ids.len() != numbers.len() {
            None
        } else {
            Some(Transaction { ids, numbers, locked: Vec::new(), phase: Phase::Opening })
        }
    }

    /// A transaction over `count` ids drawn from the domain, each with a new
    /// value drawn from the domain.
    pub fn sampled(count: usize, sampler: &mut Sampler) -> (transaction: Transaction)
        ensures
            transaction@ == TransactionState::fresh(transaction@.ids, transaction@.numbers),
            transaction@.ids.len() == count,
            transaction@.numbers.len() == count,
            forall|i: int| 0 <= i < count ==> in_domain(#[trigger] transaction@.ids[i] as int),
            forall|i: int| 0 <= i < count ==> in_domain(#[trigger] transaction@.numbers[i] as int),
    {
        let ids: Vec<i32> = sampler.ids(count);
        let numbers: Vec<i32> = sampler.ids(count);
        Transaction { ids, numbers, locked: Vec::new(), phase: Phase::Opening }
    }

    /// Where the transaction stands.
    pub fn phase(&self) -> (phase: Phase)
        ensures
            phase == self@.phase,
    {
        self.phase
    }

    /// The ids the batch statement is handed.
    pub fn ids(&self) -> (ids: &Vec<i32>)
        ensures
            ids@ == self@.ids,
    {
        &self.ids
    }

    /// The values the batch statement is handed, each beside its id.
    pub fn numbers(&self) -> (numbers: &Vec<i32>)
        ensures
            numbers@ == self@.numbers,
            numbers@.len() == self@.ids.len(),
    {
        proof {
            use_type_invariant(self);
        }
        &self.numbers
    }

    /// What the driver does next.
    pub fn command(&self) -> (command: TxCommand)
        ensures
            command == self@.command(),
    {
        proof {
            use_type_invariant(self);
        }
        match self.phase {
            Phase::Opening => TxCommand::Begin,
            Phase::Locking => TxCommand::LockRow(self.ids[self.locked.len()]),
            Phase::Writing => TxCommand::Write,
            Phase::Committing => TxCommand::Commit,
            Phase::RollingBack => TxCommand::Rollback,
            Phase::Committed => TxCommand::Done,
            Phase::Aborted => TxCommand::Failed,
        }
    }

    /// Takes the driver's report on the step it was told to do.
    pub fn advance(&mut self, reply: TxReply)
        ensures
            final(self)@ == old(self)@.after(reply),
    {
        proof {
            use_type_invariant(&*self);
        }
        let mut current = Transaction {
            ids: Vec::new(),
            numbers: Vec::new(),
            locked: Vec::new(),
            phase: Phase::Aborted,
        };
        std::mem::swap(self, &mut current);
        let Transaction { ids, numbers, mut locked, phase } = current;
        let next: Phase = match phase {
            Phase::Committed => Phase::Committed,
            Phase::Aborted => Phase::Aborted,
            Phase::RollingBack => Phase::Aborted,
            Phase::Opening => match reply {
                TxReply::Done => if ids.len() == 0 {
                    Phase::Writing
                } else {
                    Phase::Locking
                },
                _ => Phase::RollingBack,
            },
            Phase::Locking => match reply {
                TxReply::Row(world) => if world.id == ids[locked.len()] {
                    locked.push(world);
                    if locked.len() == ids.len() {
                        Phase::Writing
                    } else {
                        Phase::Locking
                    }
                } else {
                    Phase::RollingBack
                },
                _ => Phase::RollingBack,
            },
            Phase::Writing => match reply {
                TxReply::Done => Phase::Committing,
                _ => Phase::RollingBack,
            },
            Phase::Committing => match reply {
                TxReply::Done => Phase::Committed,
                _ => Phase::RollingBack,
            },
        };
        *self = Transaction { ids, numbers, locked, phase: next };
    }

    /// The rows of the update, each with its new value, once the transaction
    /// is committed; the error at any other point.
    pub fn finish(self) -> (rows: Result<Vec<World>, DispatchError>)
        ensures
            match self@.outcome() {
                Some(updated) => rows.is_ok() && rows.unwrap()@ == updated,
                None => rows == Err::<Vec<World>, DispatchError>(DispatchError::Store),
            },
    {
        proof {
            use_type_invariant(&self);
        }
        match self.phase {
            Phase::Committed => {
                let count: usize = self.locked.len();
                let mut updated: Vec<World> = Vec::with_capacity(count);
                let mut i: usize = 0;
                while i < count
                    invariant
                        i <= count,
                        count == self.locked@.len(),
                        count == self.numbers@.len(),
                        updated@.len() == i,
                        forall|j: int|
                            0 <= j < i ==> #[trigger] updated@[j] == (World {
                                id: self.locked@[j].id,
                                randomnumber: self.numbers@[j],
                            }),
                    decreases count - i,
                {
                    updated.push(self.locked[i].with_randomnumber(self.numbers[i]));
                    i = i + 1;
                }
                proof {
                    assert(updated@ =~= renumbered(self.locked@, self.numbers@));
                }
                Ok(updated)
            },
            _ => Err(DispatchError::Store),
        }
    }
}

/// The reports of a run without failure: the opening, one row per id, the
/// batch statement, the commit.
pub open spec fn clean_run(rows: Seq<World>) -> Seq<TxReply> {
    seq![TxReply::Done] + Seq::new(rows.len(), |i: int| TxReply::Row(rows[i])) + seq![
        TxReply::Done,
        TxReply::Done,
    ]
}

/// Every step keeps a transaction well formed, with the same ids and
/// values.
pub proof fn lemma_tx_step_keeps_wf(s: TransactionState, reply: TxReply)
    requires
        s.wf(),
    ensures
        s.after(reply).wf(),
        s.after(reply).ids == s.ids,
        s.after(reply).numbers == s.numbers,
        s.moves_on(reply) ==> s.after(reply).remaining() == s.remaining() - 1,
        !s.moves_on(reply) && s.phase != Phase::Committed ==> s.after(reply).failed(),
{
}

/// The batch statement and the commit are only ever asked for with every row
/// of the batch locked, each under the id it was asked for.
pub proof fn lemma_write_needs_every_row(s: TransactionState)
    requires
        s.wf(),
        s.command() == TxCommand::Write || s.command() == TxCommand::Commit || s.command()
            == TxCommand::Done,
    ensures
        s.locked.len() == s.ids.len(),
        ids_match(s.locked, s.ids),
{
}

/// Whether `rows` are the rows of `ids`, one for one.
pub open spec fn ids_match(rows: Seq<World>, ids: Seq<i32>) -> bool {
    &&& rows.len() == ids.len()
    &&& forall|j: int| 0 <= j < rows.len() ==> (#[trigger] rows[j]).id == ids[j]
}

/// A transaction that has failed never commits: whatever is reported
/// afterwards, it asks for the rollback, then reports the failure, and hands
/// out no row.
pub proof fn lemma_failed_stays_failed(s: TransactionState, later: Seq<TxReply>)
    requires
        s.failed(),
    ensures
        s.after_all(later).failed(),
        s.after_all(later).outcome().is_none(),
        s.after_all(later).command() == TxCommand::Rollback || s.after_all(later).command()
            == TxCommand::Failed,
    decreases later.len(),
{
    if later.len() > 0 {
        lemma_failed_stays_failed(s.after(later[0]), later.skip(1));
    }
}

/// A failure reported at any step before the commit is through ends the
/// update with nothing committed, whatever is reported afterwards.
pub proof fn lemma_failure_never_commits(s: TransactionState, later: Seq<TxReply>)
    requires
        s.wf(),
        s.phase != Phase::Committed,
    ensures
        s.after(TxReply::Failed).after_all(later).failed(),
        s.after(TxReply::Failed).after_all(later).outcome().is_none(),
{
    lemma_failed_stays_failed(s.after(TxReply::Failed), later);
}

/// Once committed, always committed.
pub proof fn lemma_committed_is_final(s: TransactionState, later: Seq<TxReply>)
    requires
        s.phase == Phase::Committed,
    ensures
        s.after_all(later) == s,
    decreases later.len(),
{
    if later.len() > 0 {
        lemma_committed_is_final(s, later.skip(1));
    }
}

/// A transaction commits only when every one of the steps it was still
/// waiting for was reported, in order, as a success: none is skipped and
/// none may fail.
pub proof fn lemma_commit_takes_every_step(s: TransactionState, replies: Seq<TxReply>)
    requires
        s.wf(),
        s.after_all(replies).phase == Phase::Committed,
    ensures
        replies.len() >= s.remaining(),
        forall|k: int|
            0 <= k < s.remaining() ==> (#[trigger] s.after_all(replies.take(k))).moves_on(
                replies[k],
            ),
        s.after_all(replies).ids == s.ids,
        s.after_all(replies).numbers == s.numbers,
    decreases replies.len(),
{
    if s.phase == Phase::Committed {
        lemma_committed_is_final(s, replies);
    } else if replies.len() == 0 {
    } else {
        let next = s.after(replies[0]);
        let rest = replies.skip(1);
        lemma_tx_step_keeps_wf(s, replies[0]);
        if !s.moves_on(replies[0]) {
            lemma_failed_stays_failed(next, rest);
        } else {
            lemma_commit_takes_every_step(next, rest);
            assert forall|k: int| 0 <= k < s.remaining() implies (#[trigger] s.after_all(
                replies.take(k),
            )).moves_on(replies[k]) by {
                if k == 0 {
                    assert(s.after_all(replies.take(0)) == s);
                } else {
                    assert(replies.take(k).skip(1) =~= rest.take(k - 1));
                    assert(s.after_all(replies.take(k)) == next.after_all(rest.take(k - 1)));
                }
            }
        }
    }
}

/// Rows that arrive in the order of the ids still to lock are all locked,
/// and the batch statement is next.
proof fn lemma_rows_lock_in_turn(s: TransactionState, rows: Seq<World>, tail: Seq<TxReply>)
    requires
        s.wf(),
        s.phase == Phase::Locking || (s.phase == Phase::Writing && rows.len() == 0),
        s.locked.len() + rows.len() == s.ids.len(),
        forall|j: int| 0 <= j < rows.len() ==> (#[trigger] rows[j]).id == s.ids[s.locked.len() + j],
    ensures
        s.after_all(Seq::new(rows.len(), |i: int| TxReply::Row(rows[i])) + tail)
            == (TransactionState { locked: s.locked + rows, phase: Phase::Writing, ..s }).after_all(
            tail,
        ),
    decreases rows.len(),
{
    let replies = Seq::new(rows.len(), |i: int| TxReply::Row(rows[i])) + tail;
    if rows.len() == 0 {
        assert(s.locked + rows =~= s.locked);
    } else {
        let next = s.after(replies[0]);
        let rest = rows.skip(1);
        assert(replies[0] == TxReply::Row(rows[0]));
        assert(replies.skip(1) =~= Seq::new(rest.len(), |i: int| TxReply::Row(rest[i])) + tail);
        assert forall|j: int| 0 <= j < rest.len() implies (#[trigger] rest[j]).id == next.ids[next.locked.len()
            + j] by {
            assert(rest[j] == rows[j + 1]);
        }
        lemma_rows_lock_in_turn(next, rest, tail);
        assert(next.locked + rest =~= s.locked + rows);
    }
}

/// A run without failure commits, and hands out the rows that were locked,
/// each with the value that stood beside its id.
pub proof fn lemma_clean_run_commits(ids: Seq<i32>, numbers: Seq<i32>, rows: Seq<World>)
    requires
        ids.len() == numbers.len(),
        ids_match(rows, ids),
    ensures
        ({
            let end = TransactionState::fresh(ids, numbers).after_all(clean_run(rows));
            &&& end.phase == Phase::Committed
            &&& end.outcome() == Some(renumbered(rows, numbers))
            &&& forall|i: int|
                0 <= i < rows.len() ==> (#[trigger] renumbered(rows, numbers)[i]).id == ids[i]
                    && renumbered(rows, numbers)[i].randomnumber == numbers[i]
        }),
{
    let s = TransactionState::fresh(ids, numbers);
    let run = clean_run(rows);
    let tail = seq![TxReply::Done, TxReply::Done];
    let opened = s.after(TxReply::Done);
    assert(run[0] == TxReply::Done);
    assert(run.skip(1) =~= Seq::new(rows.len(), |i: int| TxReply::Row(rows[i])) + tail);
    lemma_rows_lock_in_turn(opened, rows, tail);
    let writing = TransactionState { locked: opened.locked + rows, phase: Phase::Writing, ..opened };
    assert(opened.locked + rows =~= rows);
    let committing = writing.after(tail[0]);
    let committed = committing.after(tail.skip(1)[0]);
    assert(writing.after_all(tail) == committing.after_all(tail.skip(1)));
    assert(committed.after_all(tail.skip(1).skip(1)) == committed);
}

/// What a committed transaction hands out is what its batch statement was
/// handed: the ids and the values of the rows are the two arrays, position
/// by position. So with ids that are all different each row reads back with
/// the value it was returned with, and every other row of the table reads as
/// before.
pub proof fn lemma_committed_rows_read_back(s: TransactionState, table: Map<i32, i32>)
    requires
        s.wf(),
        s.phase == Phase::Committed,
        s.ids.no_duplicates(),
    ensures
        s.outcome() matches Some(rows) && {
            &&& ids_of(rows) == s.ids
            &&& numbers_of(rows) == s.numbers
            &&& written(table, s.ids, s.numbers).dom() == table.dom()
            &&& forall|i: int|
                0 <= i < rows.len() && table.contains_key(#[trigger] rows[i].id) ==> written(
                    table,
                    s.ids,
                    s.numbers,
                )[rows[i].id] == rows[i].randomnumber
            &&& forall|id: i32|
                table.contains_key(id) && !s.ids.contains(id) ==> #[trigger] written(
                    table,
                    s.ids,
                    s.numbers,
                )[id] == table[id]
        },
{
    let rows = renumbered(s.locked, s.numbers);
    assert(ids_of(rows) =~= s.ids);
    lemma_batch_reads_back(table, rows);
}

} // verus!
