use session_pool::model::World;
use session_pool::sampling::Sampler;
use session_pool::update::UpdateBatch;

#[test]
fn each_row_takes_the_value_at_its_position() {
    let worlds = vec![World::new(5, 1), World::new(9, 2), World::new(5, 3)];
    let batch = UpdateBatch::assign(worlds, vec![100, 200, 300]);
    assert_eq!(
        batch.worlds,
        vec![World::new(5, 100), World::new(9, 200), World::new(5, 300)]
    );
    assert_eq!(batch.ids, vec![5, 9, 5]);
    assert_eq!(batch.randomnumbers, vec![100, 200, 300]);
    assert_eq!(batch.len(), 3);
}

#[test]
fn an_empty_batch_is_empty() {
    let batch = UpdateBatch::assign(Vec::new(), Vec::new());
    assert!(batch.worlds.is_empty());
    assert!(batch.ids.is_empty());
    assert!(batch.randomnumbers.is_empty());
    assert_eq!(batch.len(), 0);
}

#[test]
fn random_values_are_paired_with_the_ids_of_the_rows() {
    let mut sampler = match Sampler::new() {
        Ok(sampler) => sampler,
        Err(e) => panic!("no sampler: {:?}", e),
    };
    let worlds: Vec<World> = (1..=50).map(|id| World::new(id, -1)).collect();
    let batch = UpdateBatch::randomize(worlds.clone(), &mut sampler);
    assert_eq!(batch.len(), 50);
    assert_eq!(batch.ids, (1..=50).collect::<Vec<i32>>());
    for (i, world) in batch.worlds.iter().enumerate() {
        assert_eq!(world.id, worlds[i].id);
        assert_eq!(world.id, batch.ids[i]);
        assert_eq!(world.randomnumber, batch.randomnumbers[i]);
        assert!((1..=10000).contains(&world.randomnumber));
    }
}

#[test]
fn two_batches_without_a_common_id_can_be_written_in_either_order() {
    let first = UpdateBatch::assign(vec![World::new(1, 0), World::new(2, 0)], vec![11, 12]);
    let second = UpdateBatch::assign(vec![World::new(3, 0), World::new(4, 0)], vec![23, 24]);
    let write = |table: &mut std::collections::HashMap<i32, i32>, batch: &UpdateBatch| {
        for (id, number) in batch.ids.iter().zip(batch.randomnumbers.iter()) {
            table.insert(*id, *number);
        }
    };
    let start: std::collections::HashMap<i32, i32> = (1..=5).map(|id| (id, 0)).collect();
    let mut one_way = start.clone();
    write(&mut one_way, &first);
    write(&mut one_way, &second);
    let mut other_way = start.clone();
    write(&mut other_way, &second);
    write(&mut other_way, &first);
    assert_eq!(one_way, other_way);
    for world in first.worlds.iter().chain(second.worlds.iter()) {
        assert_eq!(one_way[&world.id], world.randomnumber);
    }
    assert_eq!(one_way[&5], 0);
}
