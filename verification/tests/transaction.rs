use session_pool::error::DispatchError;
use session_pool::model::World;
use session_pool::transaction::{Phase, Transaction, TxCommand, TxReply};

fn transaction(ids: Vec<i32>, numbers: Vec<i32>) -> Transaction {
    match Transaction::new(ids, numbers) {
        Some(transaction) => transaction,
        None => panic!("ids and values differ in length"),
    }
}

#[test]
fn ids_and_values_must_pair_up() {
    assert!(Transaction::new(vec![1, 2], vec![3]).is_none());
    assert!(Transaction::new(vec![], vec![3]).is_none());
    assert!(Transaction::new(vec![1], vec![3]).is_some());
}

#[test]
fn a_clean_run_commits_every_row() {
    let mut tx = transaction(vec![7, 3], vec![70, 30]);
    assert_eq!(tx.command(), TxCommand::Begin);
    tx.advance(TxReply::Done);
    assert_eq!(tx.command(), TxCommand::LockRow(7));
    tx.advance(TxReply::Row(World::new(7, 1)));
    assert_eq!(tx.command(), TxCommand::LockRow(3));
    tx.advance(TxReply::Row(World::new(3, 2)));
    assert_eq!(tx.command(), TxCommand::Write);
    assert_eq!(tx.ids(), &vec![7, 3]);
    assert_eq!(tx.numbers(), &vec![70, 30]);
    tx.advance(TxReply::Done);
    assert_eq!(tx.command(), TxCommand::Commit);
    tx.advance(TxReply::Done);
    assert_eq!(tx.phase(), Phase::Committed);
    assert_eq!(tx.command(), TxCommand::Done);
    assert_eq!(tx.finish(), Ok(vec![World::new(7, 70), World::new(3, 30)]));
}

#[test]
fn an_empty_batch_still_writes_and_commits() {
    let mut tx = transaction(vec![], vec![]);
    tx.advance(TxReply::Done);
    assert_eq!(tx.command(), TxCommand::Write);
    tx.advance(TxReply::Done);
    tx.advance(TxReply::Done);
    assert_eq!(tx.finish(), Ok(Vec::new()));
}

#[test]
fn a_failed_opening_rolls_back() {
    let mut tx = transaction(vec![1], vec![2]);
    tx.advance(TxReply::Failed);
    assert_eq!(tx.phase(), Phase::RollingBack);
    assert_eq!(tx.command(), TxCommand::Rollback);
    tx.advance(TxReply::Failed);
    assert_eq!(tx.phase(), Phase::Aborted);
    assert_eq!(tx.command(), TxCommand::Failed);
    assert_eq!(tx.finish(), Err(DispatchError::Store));
}

#[test]
fn a_failed_lookup_rolls_back() {
    let mut tx = transaction(vec![1, 2], vec![10, 20]);
    tx.advance(TxReply::Done);
    tx.advance(TxReply::Row(World::new(1, 0)));
    tx.advance(TxReply::Failed);
    assert_eq!(tx.command(), TxCommand::Rollback);
    tx.advance(TxReply::Done);
    assert_eq!(tx.phase(), Phase::Aborted);
    assert_eq!(tx.finish(), Err(DispatchError::Store));
}

#[test]
fn a_row_of_another_id_rolls_back() {
    let mut tx = transaction(vec![1, 2], vec![10, 20]);
    tx.advance(TxReply::Done);
    tx.advance(TxReply::Row(World::new(2, 0)));
    assert_eq!(tx.phase(), Phase::RollingBack);
    assert_eq!(tx.command(), TxCommand::Rollback);
}

#[test]
fn a_failed_write_rolls_back() {
    let mut tx = transaction(vec![1], vec![10]);
    tx.advance(TxReply::Done);
    tx.advance(TxReply::Row(World::new(1, 0)));
    tx.advance(TxReply::Failed);
    assert_eq!(tx.command(), TxCommand::Rollback);
    tx.advance(TxReply::Failed);
    assert_eq!(tx.command(), TxCommand::Failed);
}

#[test]
fn a_failed_commit_rolls_back() {
    let mut tx = transaction(vec![1], vec![10]);
    tx.advance(TxReply::Done);
    tx.advance(TxReply::Row(World::new(1, 0)));
    tx.advance(TxReply::Done);
    assert_eq!(tx.command(), TxCommand::Commit);
    tx.advance(TxReply::Failed);
    assert_eq!(tx.command(), TxCommand::Rollback);
    tx.advance(TxReply::Done);
    assert_eq!(tx.finish(), Err(DispatchError::Store));
}

#[test]
fn a_row_where_a_plain_success_is_due_is_a_failure() {
    let mut tx = transaction(vec![1], vec![10]);
    tx.advance(TxReply::Row(World::new(1, 0)));
    assert_eq!(tx.phase(), Phase::RollingBack);

    let mut tx = transaction(vec![1], vec![10]);
    tx.advance(TxReply::Done);
    tx.advance(TxReply::Done);
    assert_eq!(tx.phase(), Phase::RollingBack);
}

#[test]
fn nothing_is_handed_out_before_the_commit() {
    let mut tx = transaction(vec![1], vec![10]);
    tx.advance(TxReply::Done);
    tx.advance(TxReply::Row(World::new(1, 0)));
    tx.advance(TxReply::Done);
    assert_eq!(tx.phase(), Phase::Committing);
    assert_eq!(tx.finish(), Err(DispatchError::Store));
}

#[test]
fn a_failed_transaction_never_commits() {
    let mut tx = transaction(vec![1], vec![10]);
    tx.advance(TxReply::Done);
    tx.advance(TxReply::Failed);
    assert_eq!(tx.phase(), Phase::RollingBack);
    for reply in [TxReply::Done, TxReply::Row(World::new(1, 0)), TxReply::Done, TxReply::Done] {
        tx.advance(reply);
        assert_eq!(tx.phase(), Phase::Aborted);
    }
}

#[test]
fn a_committed_transaction_stays_committed() {
    let mut tx = transaction(vec![], vec![]);
    for _ in 0..3 {
        tx.advance(TxReply::Done);
    }
    tx.advance(TxReply::Failed);
    assert_eq!(tx.phase(), Phase::Committed);
}

#[test]
fn a_sampled_transaction_pairs_n_ids_with_n_values() {
    let mut sampler = match session_pool::sampling::Sampler::new() {
        Ok(sampler) => sampler,
        Err(e) => panic!("no sampler: {:?}", e),
    };
    for count in [0usize, 1, 20] {
        let tx = Transaction::sampled(count, &mut sampler);
        assert_eq!(tx.phase(), Phase::Opening);
        assert_eq!(tx.ids().len(), count);
        assert_eq!(tx.numbers().len(), count);
        assert!(tx.ids().iter().all(|id| (1..=10000).contains(id)));
        assert!(tx.numbers().iter().all(|n| (1..=10000).contains(n)));
    }
}

#[test]
fn only_the_three_control_commands_are_sent_as_text() {
    assert_eq!(TxCommand::Begin.sql(), Some("BEGIN"));
    assert_eq!(TxCommand::Commit.sql(), Some("COMMIT"));
    assert_eq!(TxCommand::Rollback.sql(), Some("ROLLBACK"));
    assert_eq!(TxCommand::LockRow(1).sql(), None);
    assert_eq!(TxCommand::Write.sql(), None);
    assert_eq!(TxCommand::Done.sql(), None);
    assert_eq!(TxCommand::Failed.sql(), None);
}

#[test]
fn the_rows_handed_out_are_the_rows_written() {
    let mut table: std::collections::HashMap<i32, i32> = (1..=10).map(|id| (id, -id)).collect();
    let mut tx = transaction(vec![4, 9, 2], vec![40, 90, 20]);
    tx.advance(TxReply::Done);
    for id in [4, 9, 2] {
        assert_eq!(tx.command(), TxCommand::LockRow(id));
        tx.advance(TxReply::Row(World::new(id, table[&id])));
    }
    assert_eq!(tx.command(), TxCommand::Write);
    for (id, number) in tx.ids().iter().zip(tx.numbers().iter()) {
        table.insert(*id, *number);
    }
    tx.advance(TxReply::Done);
    tx.advance(TxReply::Done);
    let updated = match tx.finish() {
        Ok(updated) => updated,
        Err(e) => panic!("not committed: {:?}", e),
    };
    assert_eq!(updated.len(), 3);
    for world in updated.iter() {
        assert_eq!(table[&world.id], world.randomnumber);
    }
    for id in [1, 3, 5, 6, 7, 8, 10] {
        assert_eq!(table[&id], -id);
    }
}
