use session_pool::policy::AssignmentPolicy;
use session_pool::pool::Pool;
use session_pool::startup::StartupError;

fn pool_of(names: &[&str], policy: AssignmentPolicy) -> Pool<String> {
    let sessions: Vec<String> = names.iter().map(|name| name.to_string()).collect();
    match Pool::new(sessions, policy) {
        Ok(pool) => pool,
        Err(e) => panic!("no pool: {:?}", e),
    }
}

#[test]
fn a_pool_needs_a_session() {
    let empty: Vec<u8> = Vec::new();
    assert!(matches!(Pool::new(empty, AssignmentPolicy::Affinity), Err(StartupError::EmptyPool)));
    let empty: Vec<u8> = Vec::new();
    assert!(matches!(Pool::new(empty, AssignmentPolicy::RoundRobin), Err(StartupError::EmptyPool)));
}

#[test]
fn the_pool_reports_its_policy_and_size() {
    let pool = pool_of(&["a", "b", "c"], AssignmentPolicy::RoundRobin);
    assert_eq!(pool.policy(), AssignmentPolicy::RoundRobin);
    assert_eq!(pool.size(), 3);
    let pool = pool_of(&["a"], AssignmentPolicy::Affinity);
    assert_eq!(pool.policy(), AssignmentPolicy::Affinity);
    assert_eq!(pool.size(), 1);
}

#[test]
fn sessions_are_found_by_slot() {
    let pool = pool_of(&["a", "b", "c"], AssignmentPolicy::Affinity);
    assert_eq!(pool.session(0).map(|s| s.as_str()), Some("a"));
    assert_eq!(pool.session(2).map(|s| s.as_str()), Some("c"));
    assert_eq!(pool.session(3), None);
    assert_eq!(pool.session(usize::MAX), None);
}

#[test]
fn round_robin_walks_the_sessions_whoever_asks() {
    let mut pool = pool_of(&["a", "b", "c"], AssignmentPolicy::RoundRobin);
    let mut seen = Vec::new();
    for caller in [5u64, 5, 9, 1, 5, 9] {
        let slot = pool.try_acquire(caller);
        seen.push(slot.and_then(|s| pool.session(s)).map(|s| s.clone()));
    }
    let expected: Vec<Option<String>> =
        ["a", "b", "c", "a", "b", "c"].iter().map(|s| Some(s.to_string())).collect();
    assert_eq!(seen, expected);
    assert_eq!(pool.assigned(5), None);
}

#[test]
fn affinity_keeps_each_caller_on_its_session() {
    let mut pool = pool_of(&["a", "b", "c"], AssignmentPolicy::Affinity);
    assert_eq!(pool.assigned(5), None);
    assert_eq!(pool.try_acquire(5), Some(2));
    assert_eq!(pool.try_acquire(9), Some(1));
    assert_eq!(pool.try_acquire(5), Some(2));
    assert_eq!(pool.assigned(5), Some(2));
    assert_eq!(pool.assigned(9), Some(1));
    assert_eq!(pool.acquire(1), 0);
    assert_eq!(pool.try_acquire(2), None);
    assert_eq!(pool.assigned(5), Some(2));
    assert_eq!(pool.assigned(9), Some(1));
    assert_eq!(pool.assigned(1), Some(0));
}

#[test]
fn more_callers_than_sessions_never_break_the_bookkeeping() {
    let mut sticky = pool_of(&["a", "b"], AssignmentPolicy::Affinity);
    let mut cyclic = pool_of(&["a", "b"], AssignmentPolicy::RoundRobin);
    for round in 0..3 {
        for caller in 0..5u64 {
            let slot = sticky.try_acquire(caller);
            match caller {
                0 => assert_eq!(slot, Some(1), "round {}", round),
                1 => assert_eq!(slot, Some(0), "round {}", round),
                _ => assert_eq!(slot, None, "round {}", round),
            }
            match cyclic.try_acquire(caller) {
                Some(slot) => assert!(cyclic.session(slot).is_some()),
                None => panic!("round robin refused caller {}", caller),
            }
        }
    }
}

#[test]
fn a_caller_is_handed_its_session_itself() {
    let mut pool = pool_of(&["a", "b"], AssignmentPolicy::Affinity);
    assert_eq!(pool.try_acquire_session(4).map(|s| s.as_str()), Some("b"));
    assert_eq!(pool.acquire_session(4).as_str(), "b");
    assert_eq!(pool.acquire_session(6).as_str(), "a");
    assert_eq!(pool.try_acquire_session(8), None);

    let mut pool = pool_of(&["a", "b"], AssignmentPolicy::RoundRobin);
    assert_eq!(pool.acquire_session(1).as_str(), "a");
    assert_eq!(pool.acquire_session(1).as_str(), "b");
    assert_eq!(pool.acquire_session(2).as_str(), "a");
}
