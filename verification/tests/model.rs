use session_pool::model::{is_world_id, Fortune, World, MAX_ID, MIN_ID};

#[test]
fn world_keeps_what_the_row_held() {
    let world = World::new(42, 7);
    assert_eq!(world.id, 42);
    assert_eq!(world.randomnumber, 7);
    assert_eq!(world, World { id: 42, randomnumber: 7 });
}

#[test]
fn with_randomnumber_changes_the_value_only() {
    let world = World::new(9999, 3).with_randomnumber(8);
    assert_eq!(world, World { id: 9999, randomnumber: 8 });
}

#[test]
fn the_domain_is_one_to_ten_thousand() {
    assert_eq!(MIN_ID, 1);
    assert_eq!(MAX_ID, 10000);
    assert!(!is_world_id(0));
    assert!(is_world_id(1));
    assert!(is_world_id(10000));
    assert!(!is_world_id(10001));
    assert!(!is_world_id(-1));
    assert!(!is_world_id(i32::MAX));
    assert!(!is_world_id(i32::MIN));
}

#[test]
fn fortune_keeps_what_the_row_held() {
    let fortune = Fortune::new(3, String::from("After enough decimal places, nobody gives a damn."));
    assert_eq!(fortune.id, 3);
    assert_eq!(fortune.message, "After enough decimal places, nobody gives a damn.");
}
