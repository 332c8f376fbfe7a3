use session_pool::error::DispatchError;
use session_pool::sampling::{random_id, random_ids, Sampler};

fn sampler() -> Sampler {
    match Sampler::new() {
        Ok(sampler) => sampler,
        Err(e) => panic!("no sampler: {:?}", e),
    }
}

fn ids(count: usize) -> Vec<i32> {
    match random_ids(count) {
        Ok(ids) => ids,
        Err(e) => panic!("no ids: {:?}", e),
    }
}

#[test]
fn a_single_id_lies_in_the_domain() {
    for _ in 0..1000 {
        match random_id() {
            Ok(id) => assert!((1..=10000).contains(&id)),
            Err(e) => panic!("no id: {:?}", e),
        }
    }
}

#[test]
fn n_ids_are_exactly_n_ids_of_the_domain() {
    for count in [0usize, 1, 2, 20, 500] {
        let ids = ids(count);
        assert_eq!(ids.len(), count);
        assert!(ids.iter().all(|id| (1..=10000).contains(id)));
    }
}

#[test]
fn the_sampler_draws_more_than_one_value() {
    let drawn = sampler().ids(200);
    assert_eq!(drawn.len(), 200);
    assert!(drawn.iter().any(|id| *id != drawn[0]));
}

#[test]
fn a_sampler_can_be_asked_again_and_again() {
    let mut sampler = sampler();
    let first = sampler.ids(3);
    let second = sampler.ids(4);
    let single = sampler.id();
    assert_eq!(first.len(), 3);
    assert_eq!(second.len(), 4);
    assert!((1..=10000).contains(&single));
}

#[test]
fn an_entropy_failure_is_the_only_error() {
    match random_ids(5) {
        Ok(ids) => assert_eq!(ids.len(), 5),
        Err(e) => assert_eq!(e, DispatchError::Entropy),
    }
}

#[test]
fn a_failed_seeding_is_an_entropy_error() {
    let failed = Sampler::from_seeding(Err(rand::Error::new("no entropy")));
    assert!(matches!(failed, Err(DispatchError::Entropy)));
}

#[test]
fn a_seeded_generator_makes_a_sampler() {
    let seeded = <rand::rngs::SmallRng as rand::SeedableRng>::seed_from_u64(7);
    match Sampler::from_seeding(Ok(seeded)) {
        Ok(mut sampler) => {
            let ids = sampler.ids(100);
            assert_eq!(ids.len(), 100);
            assert!(ids.iter().all(|id| (1..=10000).contains(id)));
        }
        Err(e) => panic!("no sampler: {:?}", e),
    }
}
