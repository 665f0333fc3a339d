use asteroids::components::{Bundle, GameData, Position};
use asteroids::game::load_world;
use asteroids::store::EntityStore;

fn empty() -> Bundle {
    Bundle::empty()
}

#[test]
fn new_store_is_empty() {
    let s = EntityStore::new();
    assert_eq!(s.bundles().len(), 0);
}

#[test]
fn create_adds_one_entity_with_its_components() {
    let mut s = EntityStore::new();
    let b = Bundle {
        position: Some(Position { x: 1000, y: 2000, rot: 90_000 }),
        game_data: Some(GameData { score: 3, level: 4 }),
        ..empty()
    };
    assert!(s.create(b));
    let all = s.bundles();
    assert_eq!(all.len(), 1);
    assert_eq!(all[0], b);
}

#[test]
fn create_refuses_an_unnormalised_rotation() {
    let mut s = EntityStore::new();
    let b = Bundle { position: Some(Position { x: 0, y: 0, rot: 360_000 }), ..empty() };
    assert!(!s.create(b));
    assert_eq!(s.bundles().len(), 0);
}

#[test]
fn delete_all_leaves_nothing() {
    let mut s = EntityStore::new();
    assert!(s.create(empty()));
    assert!(s.create(empty()));
    assert_eq!(s.bundles().len(), 2);
    s.delete_all();
    assert_eq!(s.bundles().len(), 0);
}

#[test]
fn room_goes_with_each_entity_created() {
    let mut s = EntityStore::new();
    assert_eq!(s.room_left(), 1_048_576);
    assert!(s.create(empty()));
    assert!(s.create(empty()));
    assert_eq!(s.room_left(), 1_048_574);
    s.delete_all();
    assert_eq!(s.room_left(), 1_048_574);
    let b = Bundle { position: Some(Position { x: 0, y: 0, rot: -1 }), ..empty() };
    assert!(!s.create(b));
    assert_eq!(s.room_left(), 1_048_574);
}

#[test]
fn a_full_store_creates_nothing_more() {
    let mut s = EntityStore::new();
    for n in 0..1_048_576u32 {
        assert!(s.create(empty()));
        if n % 65_536 == 0 {
            s.delete_all();
        }
    }
    assert_eq!(s.room_left(), 0);
    assert!(!s.create(empty()));
    assert_eq!(s.bundles().len(), 65_535);
}

#[test]
fn maintain_leaves_a_roomy_store_alone() {
    let mut s = EntityStore::new();
    load_world(&mut s);
    s.delete_all();
    assert!(s.create(empty()));
    s.maintain();
    assert_eq!(s.room_left(), 1_048_576 - 4);
    assert_eq!(s.bundles(), vec![empty()]);
}

#[test]
fn maintain_makes_a_crowded_store_anew() {
    let mut s = EntityStore::new();
    for _ in 0..524_289u32 {
        assert!(s.create(empty()));
    }
    s.delete_all();
    load_world(&mut s);
    assert_eq!(s.room_left(), 524_284);
    let mut before = s.bundles();
    s.maintain();
    assert_eq!(s.room_left(), 1_048_576 - 3);
    let mut after = s.bundles();
    let key = |b: &Bundle| (b.player.is_some(), b.asteroid.is_some());
    before.sort_by_key(key);
    after.sort_by_key(key);
    assert_eq!(before, after);
    assert_eq!(after.len(), 3);
    // The store goes on as before.
    assert!(s.create(empty()));
    assert_eq!(s.bundles().len(), 4);
}

#[test]
fn maintain_keeps_a_store_that_is_just_roomy_enough() {
    let mut s = EntityStore::new();
    for _ in 0..524_288u32 {
        assert!(s.create(empty()));
    }
    s.delete_all();
    s.maintain();
    assert_eq!(s.room_left(), 524_288);
}
