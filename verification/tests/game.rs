use asteroids::components::{
    Asteroid, Bundle, GameData, Missile, Player, Position, Renderable, Sound, SoundCue,
    SoundCueType, Texture, Vec2,
};
use asteroids::game::{
    create_asteroid, fire_missile, load_world, plan_tick, take_sound_cues, update,
    update_movement, MAX_MISSILES,
};
use asteroids::store::EntityStore;
use asteroids::utils::KeyState;

fn ship() -> Bundle {
    Bundle {
        position: Some(Position { x: 350_000, y: 250_000, rot: 0 }),
        renderable: Some(Renderable {
            tex_name: Texture::Ship,
            i_w: 100,
            i_h: 100,
            o_w: 50,
            o_h: 50,
            frame: 0,
            total_frames: 1,
            rot: 0,
        }),
        player: Some(Player { impulse: Vec2 { x: 0, y: 0 }, cur_speed: Vec2 { x: 0, y: 0 } }),
        ..Bundle::empty()
    }
}

fn rock(x: i64, y: i64, rot: i64, size: u32) -> Bundle {
    Bundle {
        position: Some(Position { x, y, rot }),
        renderable: Some(Renderable {
            tex_name: Texture::Asteroid,
            i_w: 100,
            i_h: 100,
            o_w: size,
            o_h: size,
            frame: 0,
            total_frames: 1,
            rot: 0,
        }),
        asteroid: Some(Asteroid { speed: 2500, rot_speed: 500, size }),
        ..Bundle::empty()
    }
}

fn data(score: u32, level: u32) -> Bundle {
    Bundle { game_data: Some(GameData { score, level }), ..Bundle::empty() }
}

fn count(bs: &[Bundle], pick: fn(&Bundle) -> bool) -> usize {
    bs.iter().filter(|b| pick(b)).count()
}

fn is_player(b: &Bundle) -> bool {
    b.player.is_some()
}

fn is_asteroid(b: &Bundle) -> bool {
    b.asteroid.is_some()
}

fn is_missile(b: &Bundle) -> bool {
    b.missile.is_some()
}

fn is_data(b: &Bundle) -> bool {
    b.game_data.is_some()
}

fn is_cue(b: &Bundle) -> bool {
    b.sound_cue.is_some()
}

fn held(rotate_left: bool, rotate_right: bool, thrust: bool, fire: bool) -> KeyState {
    KeyState { rotate_left, rotate_right, thrust, fire }
}

#[test]
fn load_world_adds_ship_asteroid_and_game_data() {
    let mut s = EntityStore::new();
    load_world(&mut s);
    let bs = s.bundles();
    assert_eq!(bs.len(), 3);
    assert!(bs.contains(&ship()));
    assert!(bs.contains(&rock(400_000, 235_000, 45_000, 50)));
    assert!(bs.contains(&data(0, 1)));
}

#[test]
fn load_world_keeps_what_is_there() {
    let mut s = EntityStore::new();
    assert!(s.create(data(70, 3)));
    load_world(&mut s);
    let bs = s.bundles();
    assert_eq!(bs.len(), 4);
    assert!(bs.contains(&data(70, 3)));
    assert!(bs.contains(&data(0, 1)));
}

#[test]
fn create_asteroid_adds_one() {
    let mut s = EntityStore::new();
    create_asteroid(&mut s, Position { x: 1000, y: 2000, rot: 3000 }, 100);
    let bs = s.bundles();
    assert_eq!(bs.len(), 1);
    assert_eq!(bs[0], rock(1000, 2000, 3000, 100));
}

#[test]
fn movement_without_impulse_or_velocity_stands_still() {
    let mut pos = Position { x: 350_000, y: 250_000, rot: 90_000 };
    let mut player = Player { impulse: Vec2 { x: 0, y: 0 }, cur_speed: Vec2 { x: 0, y: 0 } };
    for _ in 0..3 {
        update_movement(&mut pos, &mut player);
        assert_eq!(pos, Position { x: 350_000, y: 250_000, rot: 90_000 });
        assert_eq!(player, Player { impulse: Vec2 { x: 0, y: 0 }, cur_speed: Vec2 { x: 0, y: 0 } });
    }
}

#[test]
fn movement_applies_friction_then_impulse() {
    let mut pos = Position { x: 100_000, y: 100_000, rot: 0 };
    let mut player = Player { impulse: Vec2 { x: 300, y: -200 }, cur_speed: Vec2 { x: 1000, y: 500 } };
    update_movement(&mut pos, &mut player);
    // 1000 * 0.96 + 300 and 500 * 0.96 - 200.
    assert_eq!(player.cur_speed, Vec2 { x: 1260, y: 280 });
    assert_eq!(player.impulse, Vec2 { x: 0, y: 0 });
    assert_eq!(pos, Position { x: 101_260, y: 100_280, rot: 0 });
}

#[test]
fn movement_rounds_friction_toward_zero() {
    let mut pos = Position { x: 0, y: 0, rot: 0 };
    let mut player = Player { impulse: Vec2 { x: 0, y: 0 }, cur_speed: Vec2 { x: 101, y: -101 } };
    update_movement(&mut pos, &mut player);
    // 101 * 96 / 100 = 96.96.
    assert_eq!(player.cur_speed, Vec2 { x: 96, y: -96 });
    assert_eq!(pos, Position { x: 96, y: -96, rot: 0 });
}

#[test]
fn movement_holds_the_speed_limit() {
    let mut pos = Position { x: 0, y: 0, rot: 0 };
    let mut player = Player { impulse: Vec2 { x: 3000, y: 0 }, cur_speed: Vec2 { x: 6000, y: 0 } };
    update_movement(&mut pos, &mut player);
    // 5760 + 3000 = 8760, cut back to 6000.
    assert_eq!(player.cur_speed, Vec2 { x: 6000, y: 0 });
    assert_eq!(pos.x, 6000);
}

#[test]
fn first_update_of_an_empty_store_builds_the_world() {
    let mut s = EntityStore::new();
    let mut keys = KeyState::new();
    update(&mut s, &mut keys);
    let bs = s.bundles();
    assert_eq!(count(&bs, is_player), 1);
    assert_eq!(count(&bs, is_data), 1);
    assert_eq!(count(&bs, is_asteroid), 1);
    assert!(bs.contains(&ship()));
    assert!(bs.contains(&data(0, 1)));
    assert!(bs.contains(&rock(400_000, 235_000, 45_000, 50)));
    // The thruster cue is the fourth entity.
    assert_eq!(bs.len(), 4);
    assert_eq!(count(&bs, is_cue), 1);
}

#[test]
fn update_without_a_ship_replaces_the_world() {
    let mut s = EntityStore::new();
    assert!(s.create(data(120, 7)));
    assert!(s.create(rock(10_000, 10_000, 0, 100)));
    assert!(s.create(rock(20_000, 20_000, 0, 100)));
    let mut keys = KeyState::new();
    update(&mut s, &mut keys);
    let bs = s.bundles();
    assert_eq!(count(&bs, is_player), 1);
    assert_eq!(count(&bs, is_data), 1);
    assert_eq!(count(&bs, is_asteroid), 1);
    assert!(bs.contains(&data(0, 1)));
    assert!(bs.contains(&rock(400_000, 235_000, 45_000, 50)));
    assert!(!bs.contains(&data(120, 7)));
}

#[test]
fn update_without_asteroids_sends_a_wave() {
    let mut s = EntityStore::new();
    assert!(s.create(ship()));
    assert!(s.create(data(40, 4)));
    let mut keys = KeyState::new();
    update(&mut s, &mut keys);
    let bs = s.bundles();
    assert!(bs.contains(&data(40, 5)));
    // Level 5: 5 / 3 + 1 asteroids.
    assert_eq!(count(&bs, is_asteroid), 2);
    for b in bs.iter().filter(|b| is_asteroid(b)) {
        let p = b.position.unwrap();
        assert!(50_000 <= p.x && p.x < 750_000);
        assert!(50_000 <= p.y && p.y < 550_000);
        assert!(0 <= p.rot && p.rot < 360_000);
        let (dx, dy) = (p.x - 350_000, p.y - 250_000);
        assert!(dx * dx + dy * dy >= 150_000i64 * 150_000);
        assert_eq!(b.renderable.unwrap().o_w, 100);
        assert_eq!(b.renderable.unwrap().o_h, 100);
        assert_eq!(b.asteroid.unwrap(), Asteroid { speed: 2500, rot_speed: 500, size: 100 });
    }
}

#[test]
fn wave_sizes_follow_the_level() {
    for (level, expected) in [(1u32, 1usize), (2, 2), (4, 2), (5, 3), (8, 4), (29, 11)] {
        let mut s = EntityStore::new();
        assert!(s.create(ship()));
        assert!(s.create(data(0, level)));
        let mut keys = KeyState::new();
        update(&mut s, &mut keys);
        let bs = s.bundles();
        assert!(bs.contains(&data(0, level + 1)));
        assert_eq!(count(&bs, is_asteroid), expected);
    }
}

#[test]
fn wave_places_are_drawn_at_random() {
    let mut s = EntityStore::new();
    assert!(s.create(ship()));
    assert!(s.create(data(0, 59)));
    let mut keys = KeyState::new();
    update(&mut s, &mut keys);
    let bs = s.bundles();
    let places: Vec<Position> =
        bs.iter().filter(|b| is_asteroid(b)).map(|b| b.position.unwrap()).collect();
    assert_eq!(places.len(), 21);
    assert!(places.iter().any(|p| *p != places[0]));
    assert!(places.iter().any(|p| p.x != 50_000));
    assert!(places.iter().any(|p| p.rot != 0));
}

#[test]
fn no_wave_while_an_asteroid_is_left() {
    let mut s = EntityStore::new();
    assert!(s.create(ship()));
    assert!(s.create(data(0, 4)));
    assert!(s.create(rock(100_000, 100_000, 0, 25)));
    let mut keys = KeyState::new();
    update(&mut s, &mut keys);
    let bs = s.bundles();
    assert!(bs.contains(&data(0, 4)));
    assert_eq!(count(&bs, is_asteroid), 1);
}

#[test]
fn the_highest_level_stays() {
    let bs = vec![ship(), data(0, u32::MAX)];
    let t = plan_tick(&bs, KeyState::new(), &Vec::new());
    assert_eq!(t.plan.rows[1], Some(data(0, u32::MAX)));
}

#[test]
fn turn_keys_turn_the_ship_and_its_picture() {
    let mut s = EntityStore::new();
    load_world(&mut s);
    let mut keys = held(false, true, false, false);
    update(&mut s, &mut keys);
    let bs = s.bundles();
    let p = bs.iter().find(|b| is_player(b)).unwrap();
    assert_eq!(p.position.unwrap(), Position { x: 350_000, y: 250_000, rot: 2_000 });
    assert_eq!(p.renderable.unwrap().rot, 2_000);
    let mut keys = held(true, false, false, false);
    update(&mut s, &mut keys);
    update(&mut s, &mut keys);
    let bs = s.bundles();
    let p = bs.iter().find(|b| is_player(b)).unwrap();
    assert_eq!(p.position.unwrap().rot, 358_000);
    assert_eq!(p.renderable.unwrap().rot, 358_000);
}

#[test]
fn both_turn_keys_cancel() {
    let bs = vec![ship()];
    let t = plan_tick(&bs, held(true, true, false, false), &Vec::new());
    assert_eq!(t.plan.rows[0], Some(ship()));
}

#[test]
fn thrust_pushes_along_the_heading() {
    let mut b = ship();
    b.position = Some(Position { x: 350_000, y: 250_000, rot: 90_000 });
    let t = plan_tick(&vec![b], held(false, false, true, false), &Vec::new());
    let r = t.plan.rows[0].unwrap();
    // Heading 90 degrees points along x: impulse (3000, 0).
    assert_eq!(r.player.unwrap(), Player { impulse: Vec2 { x: 0, y: 0 }, cur_speed: Vec2 { x: 3000, y: 0 } });
    assert_eq!(r.position.unwrap(), Position { x: 353_000, y: 250_000, rot: 90_000 });
}

#[test]
fn thrust_uses_the_rotation_of_this_tick() {
    let mut b = ship();
    b.position = Some(Position { x: 350_000, y: 250_000, rot: 88_000 });
    let t = plan_tick(&vec![b], held(false, true, true, false), &Vec::new());
    let r = t.plan.rows[0].unwrap();
    assert_eq!(r.position.unwrap().rot, 90_000);
    assert_eq!(r.player.unwrap().cur_speed, Vec2 { x: 3000, y: 0 });
}

#[test]
fn thrust_upward_reduces_y() {
    let t = plan_tick(&vec![ship()], held(false, false, true, false), &Vec::new());
    let r = t.plan.rows[0].unwrap();
    assert_eq!(r.player.unwrap().cur_speed, Vec2 { x: 0, y: -3000 });
    assert_eq!(r.position.unwrap(), Position { x: 350_000, y: 247_000, rot: 0 });
}

#[test]
fn the_ship_wraps_round_the_screen() {
    let mut b = ship();
    b.position = Some(Position { x: 799_000, y: 1_000, rot: 0 });
    b.player = Some(Player { impulse: Vec2 { x: 0, y: 0 }, cur_speed: Vec2 { x: 3000, y: -3000 } });
    let t = plan_tick(&vec![b], KeyState::new(), &Vec::new());
    let r = t.plan.rows[0].unwrap();
    // The velocity becomes (2880, -2880): x 801880 wraps to 1880, y -1880 to 598120.
    assert_eq!(r.player.unwrap().cur_speed, Vec2 { x: 2880, y: -2880 });
    assert_eq!(r.position.unwrap(), Position { x: 1_880, y: 598_120, rot: 0 });
}

#[test]
fn the_thruster_cue_follows_the_keys() {
    let looped = Bundle {
        sound_cue: Some(SoundCue { filename: Sound::Thruster, sc_type: SoundCueType::LoopSound }),
        ..Bundle::empty()
    };
    let stopped = Bundle {
        sound_cue: Some(SoundCue { filename: Sound::Thruster, sc_type: SoundCueType::StopSound }),
        ..Bundle::empty()
    };
    let bs = vec![ship()];
    for keys in [
        held(true, false, false, false),
        held(false, true, false, false),
        held(false, false, true, false),
    ] {
        assert_eq!(plan_tick(&bs, keys, &Vec::new()).plan.spawned, vec![looped]);
    }
    assert_eq!(plan_tick(&bs, KeyState::new(), &Vec::new()).plan.spawned, vec![stopped]);
    assert_eq!(plan_tick(&bs, held(false, false, false, true), &Vec::new()).plan.spawned, vec![stopped]);
    // Without a ship to steer the thruster is silent.
    assert_eq!(plan_tick(&Vec::new(), held(true, true, true, false), &Vec::new()).plan.spawned, vec![stopped]);
}

#[test]
fn fire_key_is_used_up_by_one_shot() {
    let mut s = EntityStore::new();
    load_world(&mut s);
    let mut keys = held(false, false, false, true);
    update(&mut s, &mut keys);
    assert!(!keys.fire);
    let bs = s.bundles();
    assert_eq!(count(&bs, is_missile), 1);
    let m = bs.iter().find(|b| is_missile(b)).unwrap();
    assert_eq!(m.position.unwrap(), Position { x: 350_000, y: 250_000, rot: 0 });
    assert_eq!(m.missile.unwrap(), Missile { speed: 5000 });
    assert_eq!(m.renderable.unwrap().o_w, 25);
    // The held key does not fire again.
    update(&mut s, &mut keys);
    assert_eq!(count(&s.bundles(), is_missile), 1);
}

#[test]
fn fire_key_without_a_ship_to_steer_stays_held() {
    let t = plan_tick(&vec![data(0, 1)], held(false, false, false, true), &Vec::new());
    assert_eq!(t.fire, None);
    assert!(t.keys.fire);
}

#[test]
fn the_shot_leaves_from_where_the_ship_has_come_to() {
    let mut b = ship();
    b.position = Some(Position { x: 350_000, y: 250_000, rot: 88_000 });
    let t = plan_tick(&vec![b], held(false, true, true, true), &Vec::new());
    assert_eq!(t.fire, Some(Position { x: 353_000, y: 250_000, rot: 90_000 }));
    assert_eq!(t.keys, held(false, true, true, false));
}

#[test]
fn missiles_are_fired_up_to_the_cap() {
    let mut s = EntityStore::new();
    let at = Position { x: 100_000, y: 100_000, rot: 0 };
    for n in 1..=MAX_MISSILES {
        fire_missile(&mut s, at);
        let bs = s.bundles();
        assert_eq!(count(&bs, is_missile), n);
        assert_eq!(count(&bs, is_cue), n);
    }
    assert_eq!(MAX_MISSILES, 5);
    fire_missile(&mut s, at);
    let bs = s.bundles();
    assert_eq!(count(&bs, is_missile), 5);
    assert_eq!(count(&bs, is_cue), 5);
    assert_eq!(bs.len(), 10);
}

#[test]
fn a_shot_raises_the_shoot_cue() {
    let mut s = EntityStore::new();
    fire_missile(&mut s, Position { x: 1, y: 2, rot: 3 });
    let cues = take_sound_cues(&mut s);
    assert_eq!(cues, vec![SoundCue { filename: Sound::Shoot, sc_type: SoundCueType::PlaySound }]);
}

#[test]
fn cues_are_taken_once() {
    let mut s = EntityStore::new();
    load_world(&mut s);
    let mut keys = held(false, false, true, true);
    update(&mut s, &mut keys);
    let cues = take_sound_cues(&mut s);
    assert_eq!(cues.len(), 2);
    assert!(cues.contains(&SoundCue { filename: Sound::Thruster, sc_type: SoundCueType::LoopSound }));
    assert!(cues.contains(&SoundCue { filename: Sound::Shoot, sc_type: SoundCueType::PlaySound }));
    let bs = s.bundles();
    assert_eq!(count(&bs, is_cue), 0);
    assert_eq!(bs.len(), 4);
    assert_eq!(take_sound_cues(&mut s), Vec::new());
}

#[test]
fn the_velocity_of_the_ship_is_kept_in_the_store() {
    let mut s = EntityStore::new();
    load_world(&mut s);
    let mut keys = held(false, false, true, false);
    update(&mut s, &mut keys);
    let bs = s.bundles();
    let p = bs.iter().find(|b| is_player(b)).unwrap();
    assert_eq!(p.player.unwrap(), Player { impulse: Vec2 { x: 0, y: 0 }, cur_speed: Vec2 { x: 0, y: -3000 } });
    assert_eq!(p.position.unwrap(), Position { x: 350_000, y: 247_000, rot: 0 });
    let mut keys = KeyState::new();
    update(&mut s, &mut keys);
    let bs = s.bundles();
    let p = bs.iter().find(|b| is_player(b)).unwrap();
    // Friction leaves 2880 of 3000.
    assert_eq!(p.player.unwrap().cur_speed, Vec2 { x: 0, y: -2880 });
    assert_eq!(p.position.unwrap(), Position { x: 350_000, y: 244_120, rot: 0 });
}

#[test]
fn rotations_stay_within_a_turn() {
    let mut s = EntityStore::new();
    let mut keys = held(true, false, true, false);
    for round in 0..400 {
        if round == 200 {
            keys = held(false, true, true, true);
        }
        asteroids::tick(&mut s, &mut keys);
        for b in s.bundles() {
            if let Some(p) = b.position {
                assert!(0 <= p.rot && p.rot < 360_000);
                if b.missile.is_none() {
                    assert!(0 <= p.x && p.x < 800_000);
                    assert!(0 <= p.y && p.y < 600_000);
                }
            }
            if let Some(r) = b.renderable {
                assert!(0 <= r.rot && r.rot < 360_000);
            }
        }
        take_sound_cues(&mut s);
    }
}

#[test]
fn a_tick_of_a_new_world() {
    let mut s = EntityStore::new();
    let mut keys = KeyState::new();
    asteroids::tick(&mut s, &mut keys);
    let bs = s.bundles();
    assert_eq!(bs.len(), 4);
    assert!(bs.contains(&ship()));
    assert!(bs.contains(&data(0, 1)));
    let a = bs.iter().find(|b| is_asteroid(b)).unwrap();
    assert_eq!(a.position.unwrap(), Position { x: 401_767, y: 233_233, rot: 45_000 });
    assert_eq!(a.renderable.unwrap().rot, 500);
    assert_eq!(
        take_sound_cues(&mut s),
        vec![SoundCue { filename: Sound::Thruster, sc_type: SoundCueType::StopSound }]
    );
}

#[test]
fn a_shot_moves_in_the_tick_it_is_fired() {
    let mut s = EntityStore::new();
    load_world(&mut s);
    let mut keys = held(false, false, false, true);
    asteroids::tick(&mut s, &mut keys);
    let bs = s.bundles();
    let m = bs.iter().find(|b| is_missile(b)).unwrap();
    assert_eq!(m.position.unwrap(), Position { x: 350_000, y: 245_000, rot: 0 });
}

#[test]
fn the_speed_of_the_ship_never_passes_the_limit() {
    let mut s = EntityStore::new();
    load_world(&mut s);
    let mut keys = held(false, true, true, false);
    for _ in 0..200 {
        update(&mut s, &mut keys);
        let bs = s.bundles();
        let v = bs.iter().find(|b| is_player(b)).unwrap().player.unwrap().cur_speed;
        assert!(v.x * v.x + v.y * v.y <= 6000 * 6000);
        take_sound_cues(&mut s);
    }
}

#[test]
fn bundles_are_tested_for_their_bounds() {
    let mut b = ship();
    assert!(b.is_wf());
    b.position = Some(Position { x: 1_000_000_001, y: 0, rot: 0 });
    assert!(!b.is_wf());
    b.position = Some(Position { x: -1_000_000_000, y: 1_000_000_000, rot: 359_999 });
    assert!(b.is_wf());
    b.position = Some(Position { x: 0, y: 0, rot: -1 });
    assert!(!b.is_wf());
    let mut b = ship();
    b.player = Some(Player { impulse: Vec2 { x: 900_001, y: 0 }, cur_speed: Vec2 { x: 0, y: 0 } });
    assert!(!b.is_wf());
    b.player = Some(Player { impulse: Vec2 { x: 900_000, y: 0 }, cur_speed: Vec2 { x: 0, y: -1_000_000 } });
    assert!(b.is_wf());
    let mut b = rock(0, 0, 0, 50);
    b.asteroid = Some(Asteroid { speed: -1, rot_speed: 0, size: 50 });
    assert!(!b.is_wf());
    b.asteroid = Some(Asteroid { speed: 0, rot_speed: 360_000, size: 50 });
    assert!(!b.is_wf());
    let mut b = Bundle::empty();
    b.missile = Some(Missile { speed: 1_000_001 });
    assert!(!b.is_wf());
    b.missile = None;
    b.renderable = Some(Renderable { rot: 360_000, ..rock(0, 0, 0, 1).renderable.unwrap() });
    assert!(!b.is_wf());
}

fn nearly_full(room: u32) -> EntityStore {
    let mut s = EntityStore::new();
    for _ in 0..(1_048_576 - room) {
        assert!(s.create(Bundle::empty()));
    }
    s.delete_all();
    assert_eq!(s.room_left(), room);
    s
}

#[test]
fn a_store_without_room_for_missile_and_cue_fires_nothing() {
    let mut s = nearly_full(1);
    fire_missile(&mut s, Position { x: 1, y: 2, rot: 3 });
    assert!(s.bundles().is_empty());
    assert_eq!(s.room_left(), 1);
    let mut s = nearly_full(2);
    fire_missile(&mut s, Position { x: 1, y: 2, rot: 3 });
    assert_eq!(s.bundles().len(), 2);
    assert_eq!(s.room_left(), 0);
}

#[test]
fn a_store_without_room_for_a_world_loads_none() {
    let mut s = nearly_full(2);
    load_world(&mut s);
    assert!(s.bundles().is_empty());
    assert_eq!(s.room_left(), 2);
    create_asteroid(&mut s, Position { x: 1000, y: 2000, rot: 3000 }, 100);
    assert_eq!(s.bundles().len(), 1);
    assert_eq!(s.room_left(), 1);
}

#[test]
fn update_in_a_full_store_steers_and_creates_nothing() {
    let mut s = nearly_full(3);
    load_world(&mut s);
    assert_eq!(s.room_left(), 0);
    let mut keys = held(false, true, false, true);
    update(&mut s, &mut keys);
    let bs = s.bundles();
    assert_eq!(bs.len(), 3);
    let p = bs.iter().find(|b| is_player(b)).unwrap();
    assert_eq!(p.position.unwrap().rot, 2_000);
    assert!(!keys.fire);
    s.maintain();
    assert_eq!(s.room_left(), 1_048_576 - 3);
    let mut keys = held(false, false, false, true);
    update(&mut s, &mut keys);
    assert_eq!(count(&s.bundles(), is_missile), 1);
    assert_eq!(count(&s.bundles(), is_cue), 2);
}
