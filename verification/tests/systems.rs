use asteroids::asteroid::{plan_asteroids, AsteroidMover};
use asteroids::components::{
    Asteroid, Bundle, GameData, Missile, Position, Renderable, Texture,
};
use asteroids::game::{fire_missile, load_world};
use asteroids::missile::{plan_missiles, plan_strike, MissileMover, MissileStriker};
use asteroids::store::EntityStore;

fn rock(x: i64, y: i64, rot: i64, size: u32) -> Bundle {
    Bundle {
        position: Some(Position { x, y, rot }),
        renderable: Some(Renderable {
            tex_name: Texture::Asteroid,
            i_w: 100,
            i_h: 100,
            o_w: size,
            o_h: size,
            frame: 0,
            total_frames: 1,
            rot: 0,
        }),
        asteroid: Some(Asteroid { speed: 2500, rot_speed: 500, size }),
        ..Bundle::empty()
    }
}

fn shot(x: i64, y: i64, rot: i64) -> Bundle {
    Bundle {
        position: Some(Position { x, y, rot }),
        renderable: Some(Renderable {
            tex_name: Texture::Missile,
            i_w: 100,
            i_h: 100,
            o_w: 25,
            o_h: 25,
            frame: 0,
            total_frames: 1,
            rot: 0,
        }),
        missile: Some(Missile { speed: 5000 }),
        ..Bundle::empty()
    }
}

fn data(score: u32, level: u32) -> Bundle {
    Bundle { game_data: Some(GameData { score, level }), ..Bundle::empty() }
}

fn asteroids_of(s: &EntityStore) -> Vec<Bundle> {
    s.bundles().into_iter().filter(|b| b.asteroid.is_some()).collect()
}

fn missiles_of(s: &EntityStore) -> Vec<Bundle> {
    s.bundles().into_iter().filter(|b| b.missile.is_some()).collect()
}

fn score_of(s: &EntityStore) -> u32 {
    s.bundles().into_iter().find_map(|b| b.game_data).unwrap().score
}

#[test]
fn a_missile_flies_along_its_rotation() {
    let mut s = EntityStore::new();
    assert!(s.create(shot(100_000, 100_000, 90_000)));
    MissileMover.run(&mut s);
    let m = missiles_of(&s);
    assert_eq!(m.len(), 1);
    assert_eq!(m[0].position.unwrap(), Position { x: 105_000, y: 100_000, rot: 90_000 });
    assert_eq!(m[0].renderable.unwrap().rot, 90_000);
    MissileMover.run(&mut s);
    assert_eq!(missiles_of(&s)[0].position.unwrap().x, 110_000);
}

#[test]
fn a_missile_upward_loses_y() {
    let rows = plan_missiles(&vec![shot(100_000, 100_000, 0)]).rows;
    assert_eq!(rows[0].unwrap().position.unwrap(), Position { x: 100_000, y: 95_000, rot: 0 });
}

#[test]
fn a_missile_that_leaves_the_screen_is_deleted() {
    let mut s = EntityStore::new();
    assert!(s.create(shot(798_000, 100_000, 90_000)));
    assert!(s.create(shot(100_000, 2_000, 0)));
    assert!(s.create(shot(2_000, 100_000, 270_000)));
    assert!(s.create(shot(100_000, 598_000, 180_000)));
    assert!(s.create(shot(400_000, 300_000, 0)));
    MissileMover.run(&mut s);
    let m = missiles_of(&s);
    assert_eq!(m.len(), 1);
    assert_eq!(m[0].position.unwrap(), Position { x: 400_000, y: 295_000, rot: 0 });
}

#[test]
fn a_missile_on_the_edge_stays() {
    let rows = plan_missiles(&vec![
        shot(795_000, 100_000, 90_000),
        shot(795_001, 100_000, 90_000),
        shot(5_000, 100_000, 270_000),
        shot(4_999, 100_000, 270_000),
    ])
    .rows;
    assert_eq!(rows[0].unwrap().position.unwrap().x, 800_000);
    assert_eq!(rows[1], None);
    assert_eq!(rows[2].unwrap().position.unwrap().x, 0);
    assert_eq!(rows[3], None);
}

#[test]
fn the_mover_leaves_other_entities() {
    let bs = vec![rock(1, 2, 3, 50), data(1, 2), Bundle::empty()];
    let plan = plan_missiles(&bs);
    assert_eq!(plan.rows, vec![Some(bs[0]), Some(bs[1]), Some(bs[2])]);
    assert!(plan.spawned.is_empty());
}

#[test]
fn an_asteroid_drifts_and_spins() {
    let mut s = EntityStore::new();
    assert!(s.create(rock(400_000, 235_000, 45_000, 50)));
    AsteroidMover.run(&mut s);
    let a = asteroids_of(&s);
    assert_eq!(a.len(), 1);
    // 2500 along 45 degrees: 1767 on each axis, toward zero.
    assert_eq!(a[0].position.unwrap(), Position { x: 401_767, y: 233_233, rot: 45_000 });
    assert_eq!(a[0].renderable.unwrap().rot, 500);
    AsteroidMover.run(&mut s);
    let a = asteroids_of(&s);
    assert_eq!(a[0].position.unwrap(), Position { x: 403_534, y: 231_466, rot: 45_000 });
    assert_eq!(a[0].renderable.unwrap().rot, 1_000);
}

#[test]
fn an_asteroid_wraps_round_the_screen() {
    let rows = plan_asteroids(&vec![
        rock(799_000, 100_000, 90_000, 50),
        rock(1_000, 100_000, 270_000, 50),
        rock(100_000, 1_000, 0, 50),
        rock(100_000, 599_000, 180_000, 50),
    ])
    .rows;
    assert_eq!(rows[0].unwrap().position.unwrap(), Position { x: 1_500, y: 100_000, rot: 90_000 });
    assert_eq!(rows[1].unwrap().position.unwrap(), Position { x: 798_500, y: 100_000, rot: 270_000 });
    assert_eq!(rows[2].unwrap().position.unwrap(), Position { x: 100_000, y: 598_500, rot: 0 });
    assert_eq!(rows[3].unwrap().position.unwrap(), Position { x: 100_000, y: 1_500, rot: 180_000 });
}

#[test]
fn the_spin_stays_within_a_turn() {
    let mut b = rock(100_000, 100_000, 0, 50);
    b.renderable = Some(Renderable { rot: 359_800, ..b.renderable.unwrap() });
    let rows = plan_asteroids(&vec![b]).rows;
    assert_eq!(rows[0].unwrap().renderable.unwrap().rot, 300);
    b.asteroid = Some(Asteroid { speed: 0, rot_speed: -500, size: 50 });
    b.renderable = Some(Renderable { rot: 200, ..b.renderable.unwrap() });
    let rows = plan_asteroids(&vec![b]).rows;
    assert_eq!(rows[0].unwrap().renderable.unwrap().rot, 359_700);
    assert_eq!(rows[0].unwrap().position.unwrap(), Position { x: 100_000, y: 100_000, rot: 0 });
}

#[test]
fn a_hit_splits_a_large_asteroid() {
    let bs = vec![rock(400_000, 235_000, 45_000, 50), shot(410_000, 235_000, 0), data(5, 1)];
    let plan = plan_strike(&bs);
    assert_eq!(plan.rows, vec![None, None, Some(data(15, 1))]);
    assert_eq!(
        plan.spawned,
        vec![rock(400_000, 235_000, 315_000, 25), rock(400_000, 235_000, 135_000, 25)]
    );
}

#[test]
fn a_hit_on_a_small_asteroid_leaves_nothing() {
    let bs = vec![data(0, 1), rock(400_000, 235_000, 45_000, 49), shot(400_000, 235_000, 0)];
    let plan = plan_strike(&bs);
    assert_eq!(plan.rows, vec![Some(data(10, 1)), None, None]);
    assert!(plan.spawned.is_empty());
}

#[test]
fn children_have_half_the_width() {
    for (width, half) in [(50u32, Some(25u32)), (51, Some(25)), (100, Some(50)), (49, None), (25, None)] {
        let plan = plan_strike(&vec![rock(100_000, 100_000, 0, width), shot(100_000, 100_000, 0)]);
        match half {
            Some(h) => {
                assert_eq!(
                    plan.spawned,
                    vec![rock(100_000, 100_000, 270_000, h), rock(100_000, 100_000, 90_000, h)]
                );
            }
            None => assert!(plan.spawned.is_empty()),
        }
        assert_eq!(plan.rows, vec![None, None]);
    }
}

#[test]
fn the_hit_distance_is_half_the_width() {
    // Width 50: the radius is 25 units.
    let near = plan_strike(&vec![rock(400_000, 235_000, 0, 50), shot(424_999, 235_000, 0)]);
    assert_eq!(near.rows, vec![None, None]);
    let far = plan_strike(&vec![rock(400_000, 235_000, 0, 50), shot(425_000, 235_000, 0)]);
    assert_eq!(far.rows[0], Some(rock(400_000, 235_000, 0, 50)));
    assert_eq!(far.rows[1], Some(shot(425_000, 235_000, 0)));
    // Width 25: the radius is 12.5 units.
    let odd = plan_strike(&vec![rock(0, 0, 0, 25), shot(0, 12_499, 0)]);
    assert_eq!(odd.rows, vec![None, None]);
    let odd = plan_strike(&vec![rock(0, 0, 0, 25), shot(0, 12_500, 0)]);
    assert_eq!(odd.rows[0], Some(rock(0, 0, 0, 25)));
}

#[test]
fn a_missile_destroys_every_asteroid_it_is_within() {
    let bs = vec![
        rock(100_000, 100_000, 0, 50),
        rock(100_000, 100_000, 0, 50),
        shot(100_000, 100_000, 0),
        data(0, 1),
    ];
    let plan = plan_strike(&bs);
    assert_eq!(plan.rows, vec![None, None, None, Some(data(20, 1))]);
    assert_eq!(
        plan.spawned,
        vec![
            rock(100_000, 100_000, 270_000, 25),
            rock(100_000, 100_000, 90_000, 25),
            rock(100_000, 100_000, 270_000, 25),
            rock(100_000, 100_000, 90_000, 25),
        ]
    );
}

#[test]
fn every_missile_within_an_asteroid_is_destroyed() {
    let bs = vec![
        shot(100_000, 100_000, 0),
        rock(100_000, 100_000, 0, 30),
        shot(100_000, 100_000, 90_000),
        data(0, 1),
    ];
    let plan = plan_strike(&bs);
    assert_eq!(plan.rows, vec![None, None, None, Some(data(20, 1))]);
    assert!(plan.spawned.is_empty());
}

#[test]
fn an_asteroid_leaves_its_children_once() {
    let bs = vec![
        shot(100_000, 100_000, 0),
        shot(101_000, 100_000, 0),
        shot(100_000, 101_000, 0),
        rock(100_000, 100_000, 0, 50),
        shot(500_000, 500_000, 0),
        data(5, 3),
    ];
    let plan = plan_strike(&bs);
    assert_eq!(plan.rows, vec![None, None, None, None, Some(bs[4]), Some(data(35, 3))]);
    assert_eq!(
        plan.spawned,
        vec![rock(100_000, 100_000, 270_000, 25), rock(100_000, 100_000, 90_000, 25)]
    );
}

#[test]
fn the_order_of_the_listing_does_not_change_what_is_destroyed() {
    let a = rock(100_000, 100_000, 0, 50);
    let b = rock(110_000, 100_000, 0, 50);
    let m = shot(105_000, 100_000, 0);
    let n = shot(130_000, 100_000, 0);
    let d = data(0, 1);
    let one = plan_strike(&vec![a, b, m, n, d]);
    assert_eq!(one.rows, vec![None, None, None, None, Some(data(30, 1))]);
    let other = plan_strike(&vec![n, d, m, b, a]);
    assert_eq!(other.rows, vec![None, Some(data(30, 1)), None, None, None]);
    assert_eq!(one.spawned.len(), 4);
    assert_eq!(other.spawned.len(), 4);
}

#[test]
fn two_missiles_on_the_first_asteroid_of_a_new_world() {
    let mut s = EntityStore::new();
    load_world(&mut s);
    let seed = Position { x: 400_000, y: 235_000, rot: 0 };
    fire_missile(&mut s, seed);
    fire_missile(&mut s, seed);
    assert_eq!(missiles_of(&s).len(), 2);
    MissileStriker.run(&mut s);
    assert_eq!(score_of(&s), 20);
    assert!(missiles_of(&s).is_empty());
    let mut left = asteroids_of(&s);
    left.sort_by_key(|b| b.position.unwrap().rot);
    assert_eq!(
        left,
        vec![rock(400_000, 235_000, 135_000, 25), rock(400_000, 235_000, 315_000, 25)]
    );
}

#[test]
fn each_pair_scores_ten() {
    let bs = vec![
        data(7, 2),
        rock(100_000, 100_000, 0, 30),
        rock(500_000, 100_000, 0, 30),
        rock(300_000, 400_000, 0, 30),
        shot(100_000, 100_000, 0),
        shot(500_000, 100_000, 0),
    ];
    let plan = plan_strike(&bs);
    assert_eq!(plan.rows, vec![Some(data(27, 2)), None, None, Some(bs[3]), None, None]);
}

#[test]
fn the_score_stops_at_its_maximum() {
    let bs = vec![data(u32::MAX - 3, 2), rock(0, 0, 0, 30), shot(0, 0, 0)];
    let plan = plan_strike(&bs);
    assert_eq!(plan.rows[0], Some(data(u32::MAX, 2)));
}

#[test]
fn no_hit_changes_nothing() {
    let bs = vec![data(5, 1), rock(100_000, 100_000, 0, 50), shot(500_000, 500_000, 0)];
    let plan = plan_strike(&bs);
    assert_eq!(plan.rows, vec![Some(bs[0]), Some(bs[1]), Some(bs[2])]);
    assert!(plan.spawned.is_empty());
}

#[test]
fn one_hit_after_another_on_the_first_asteroid_of_a_new_world() {
    let mut s = EntityStore::new();
    load_world(&mut s);
    let seed = Position { x: 400_000, y: 235_000, rot: 0 };
    fire_missile(&mut s, seed);
    MissileStriker.run(&mut s);
    assert_eq!(score_of(&s), 10);
    assert!(missiles_of(&s).is_empty());
    let mut left = asteroids_of(&s);
    left.sort_by_key(|b| b.position.unwrap().rot);
    assert_eq!(
        left,
        vec![rock(400_000, 235_000, 135_000, 25), rock(400_000, 235_000, 315_000, 25)]
    );
    // A second missile at the same place is within both halves, which are
    // too small to split.
    fire_missile(&mut s, seed);
    MissileStriker.run(&mut s);
    assert_eq!(score_of(&s), 30);
    assert!(missiles_of(&s).is_empty());
    assert!(asteroids_of(&s).is_empty());
}

#[test]
fn the_striker_changes_the_store() {
    let mut s = EntityStore::new();
    assert!(s.create(data(0, 1)));
    assert!(s.create(rock(100_000, 100_000, 10_000, 100)));
    assert!(s.create(shot(100_000, 100_000, 0)));
    MissileStriker.run(&mut s);
    assert_eq!(score_of(&s), 10);
    assert!(missiles_of(&s).is_empty());
    let mut left = asteroids_of(&s);
    left.sort_by_key(|b| b.position.unwrap().rot);
    assert_eq!(
        left,
        vec![rock(100_000, 100_000, 100_000, 50), rock(100_000, 100_000, 280_000, 50)]
    );
}
