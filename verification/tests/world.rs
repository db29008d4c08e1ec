use flatlanders::error::InputError;
use flatlanders::world::World;
use flatlanders::world::MAX_ANG;
use flatlanders::world::MAX_FLATLANDERS;
use flatlanders::world::MIN_ANG;
use flatlanders::world::MIN_FLATLANDERS;

#[test]
fn test_new_world_valid_params() {
    let ang = (MIN_ANG + MAX_ANG) / 2;
    let capacity = (MIN_FLATLANDERS + MAX_FLATLANDERS) / 2;
    let world = World::new(ang, capacity);
    assert!(matches!(world, Ok(ref w) if w.len_flatlanders() == 0));
}

#[test]
fn test_new_world_angle_too_low() {
    let ang = MIN_ANG - 1;
    let capacity = (MIN_FLATLANDERS + MAX_FLATLANDERS) / 2;
    let world = World::new(ang, capacity);
    assert!(matches!(world, Err(InputError::OutOfRange)));
}

#[test]
fn test_new_world_angle_too_high() {
    let ang = MAX_ANG + 1;
    let capacity = (MIN_FLATLANDERS + MAX_FLATLANDERS) / 2;
    let world = World::new(ang, capacity);
    assert!(matches!(world, Err(InputError::OutOfRange)));
}

#[test]
fn test_new_world_capacity_too_low() {
    let ang = (MIN_ANG + MAX_ANG) / 2;
    let capacity = MIN_FLATLANDERS - 1;
    let world = World::new(ang, capacity);
    assert!(matches!(world, Err(InputError::OutOfRange)));
}

#[test]
fn test_new_world_capacity_too_high() {
    let ang = (MIN_ANG + MAX_ANG) / 2;
    let capacity = MAX_FLATLANDERS + 1;
    let world = World::new(ang, capacity);
    assert!(matches!(world, Err(InputError::OutOfRange)));
}

#[test]
fn test_new_world_min_angle_and_capacity() {
    let ang = MIN_ANG;
    let capacity = MIN_FLATLANDERS;
    let world = World::new(ang, capacity);
    assert!(matches!(world, Ok(_)));
}

#[test]
fn test_new_world_max_angle_and_capacity() {
    let ang = MAX_ANG;
    let capacity = MAX_FLATLANDERS;
    let world = World::new(ang, capacity);
    assert!(matches!(world, Ok(_)));
}

#[test]
fn add_beyond_capacity_fails_and_count_unchanged() {
    let mut world = World::new(45, 1).unwrap();
    assert!(matches!(world.add_flatlander(0, 10), Ok(())));
    assert_eq!(world.len_flatlanders(), 1);
    assert!(matches!(world.add_flatlander(5, 10), Err(InputError::OutOfRange)));
    assert_eq!(world.len_flatlanders(), 1);
}

#[test]
fn add_invalid_flatlander_fails_and_count_unchanged() {
    let mut world = World::new(45, 5).unwrap();
    assert!(matches!(world.add_flatlander(-1, 10), Err(InputError::OutOfRange)));
    assert!(matches!(world.add_flatlander(0, 0), Err(InputError::OutOfRange)));
    assert!(matches!(world.add_flatlander(0, 1001), Err(InputError::OutOfRange)));
    assert_eq!(world.len_flatlanders(), 0);
}

#[test]
fn count_tracks_each_added_inhabitant() {
    let mut world = World::new(30, 3).unwrap();
    assert_eq!(world.len_flatlanders(), 0);
    world.add_flatlander(1, 1).unwrap();
    assert_eq!(world.len_flatlanders(), 1);
    world.add_flatlander(300_000, 1000).unwrap();
    assert_eq!(world.len_flatlanders(), 2);
    world.add_flatlander(1, 1).unwrap();
    assert_eq!(world.len_flatlanders(), 3);
}
