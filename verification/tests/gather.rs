use session_pool::error::DispatchError;
use session_pool::gather::Gather;
use session_pool::model::{Fortune, World};

#[test]
fn nothing_gathered_is_an_empty_result() {
    let gather: Gather<World> = Gather::new();
    assert_eq!(gather.len(), 0);
    assert!(!gather.has_failed());
    assert_eq!(gather.finish(), Ok(Vec::new()));
}

#[test]
fn rows_come_out_in_arrival_order() {
    let mut gather = Gather::new();
    gather.accept(World::new(3, 30));
    gather.accept(World::new(1, 10));
    gather.accept(World::new(3, 30));
    assert_eq!(gather.len(), 3);
    assert_eq!(
        gather.finish(),
        Ok(vec![World::new(3, 30), World::new(1, 10), World::new(3, 30)])
    );
}

#[test]
fn one_failure_fails_the_whole_operation() {
    let mut gather = Gather::new();
    gather.accept(World::new(3, 30));
    gather.fail();
    assert!(gather.has_failed());
    assert_eq!(gather.len(), 0);
    gather.accept(World::new(4, 40));
    assert_eq!(gather.len(), 0);
    assert_eq!(gather.finish(), Err(DispatchError::Store));
}

#[test]
fn feeding_outcomes_gathers_or_fails() {
    let mut gather = Gather::new();
    gather.feed(Some(1));
    gather.feed(Some(2));
    assert_eq!(gather.finish(), Ok(vec![1, 2]));

    let mut gather = Gather::new();
    gather.feed(Some(1));
    gather.feed(None);
    gather.feed(Some(3));
    assert_eq!(gather.finish(), Err(DispatchError::Store));
}

#[test]
fn a_scan_keeps_every_fortune_once() {
    let stored = vec![
        Fortune::new(1, String::from("fortune: No such file or directory")),
        Fortune::new(2, String::from("A computer scientist is someone who fixes things that aren't broken.")),
        Fortune::new(3, String::from("After enough decimal places, nobody gives a damn.")),
    ];
    let mut gather = Gather::new();
    for fortune in stored.iter() {
        gather.accept(fortune.clone());
    }
    match gather.finish() {
        Ok(rows) => {
            assert_eq!(rows.len(), stored.len());
            assert_eq!(rows, stored);
            let mut ids: Vec<i32> = rows.iter().map(|f| f.id).collect();
            ids.dedup();
            assert_eq!(ids, vec![1, 2, 3]);
        }
        Err(e) => panic!("scan failed: {:?}", e),
    }
}
