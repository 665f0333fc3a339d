use asteroids::components::{Bundle, GameData, Position, Renderable, Texture};
use asteroids::game::load_world;
use asteroids::render::{plan_frame, render, Hud, Rect, Sprite};
use asteroids::store::EntityStore;
use asteroids::GameState;

fn thing(x: i64, y: i64, w: u32, h: u32, rot: i64) -> Bundle {
    Bundle {
        position: Some(Position { x, y, rot: 0 }),
        renderable: Some(Renderable {
            tex_name: Texture::Ship,
            i_w: 100,
            i_h: 90,
            o_w: w,
            o_h: h,
            frame: 0,
            total_frames: 1,
            rot,
        }),
        ..Bundle::empty()
    }
}

fn sprite(x: i64, y: i64, w: u32, h: u32, angle: i64) -> Sprite {
    Sprite {
        texture: Texture::Ship,
        src: Rect { x: 0, y: 0, w: 100, h: 90 },
        dest: Rect { x, y, w, h },
        angle,
        center_x: w / 2,
        center_y: h / 2,
    }
}

#[test]
fn a_picture_is_centred_on_the_position() {
    let f = plan_frame(&vec![thing(350_999, 250_000, 50, 30, 12_000)], 0);
    assert_eq!(f.sprites, vec![sprite(325, 235, 50, 30, 12_000)]);
    assert!(f.huds.is_empty());
}

#[test]
fn a_picture_over_the_left_edge_is_shown_again_at_the_right() {
    let f = plan_frame(&vec![thing(10_000, 300_000, 50, 50, 0)], 0);
    assert_eq!(f.sprites, vec![sprite(-15, 275, 50, 50, 0), sprite(785, 275, 50, 50, 0)]);
}

#[test]
fn a_picture_over_the_right_edge_is_shown_again_at_the_left() {
    let f = plan_frame(&vec![thing(790_000, 300_000, 50, 50, 0)], 0);
    assert_eq!(f.sprites, vec![sprite(765, 275, 50, 50, 0), sprite(-35, 275, 50, 50, 0)]);
}

#[test]
fn a_picture_over_the_top_or_bottom_edge_is_shown_again() {
    let f = plan_frame(&vec![thing(400_000, 5_000, 50, 50, 0), thing(400_000, 590_000, 50, 50, 0)], 0);
    assert_eq!(
        f.sprites,
        vec![
            sprite(375, -20, 50, 50, 0),
            sprite(375, 580, 50, 50, 0),
            sprite(375, 565, 50, 50, 0),
            sprite(375, -35, 50, 50, 0),
        ]
    );
}

#[test]
fn a_picture_in_a_corner_is_shown_again_once() {
    let f = plan_frame(&vec![thing(0, 599_000, 50, 50, 0)], 0);
    assert_eq!(f.sprites, vec![sprite(-25, 574, 50, 50, 0), sprite(775, -26, 50, 50, 0)]);
}

#[test]
fn a_picture_that_touches_an_edge_is_shown_once() {
    let f = plan_frame(&vec![thing(25_000, 25_000, 50, 50, 0), thing(775_000, 575_000, 50, 50, 0)], 0);
    assert_eq!(f.sprites, vec![sprite(0, 0, 50, 50, 0), sprite(750, 550, 50, 50, 0)]);
}

#[test]
fn entities_without_position_or_picture_are_not_drawn() {
    let mut no_picture = thing(1, 1, 1, 1, 0);
    no_picture.renderable = None;
    let mut no_place = thing(1, 1, 1, 1, 0);
    no_place.position = None;
    let f = plan_frame(&vec![no_picture, no_place, Bundle::empty()], 0);
    assert!(f.sprites.is_empty());
}

#[test]
fn the_display_shows_score_level_and_high_score() {
    let data = Bundle { game_data: Some(GameData { score: 30, level: 2 }), ..Bundle::empty() };
    let f = plan_frame(&vec![data], 90);
    assert_eq!(f.huds, vec![Hud { score: 30, level: 2, highscore: 90 }]);
}

#[test]
fn a_new_world_is_drawn() {
    let mut s = EntityStore::new();
    load_world(&mut s);
    let mut state = GameState::new();
    state.record(50);
    let f = render(&s, &state);
    assert_eq!(f.sprites.len(), 2);
    assert!(f.sprites.contains(&Sprite {
        texture: Texture::Ship,
        src: Rect { x: 0, y: 0, w: 100, h: 100 },
        dest: Rect { x: 325, y: 225, w: 50, h: 50 },
        angle: 0,
        center_x: 25,
        center_y: 25,
    }));
    assert!(f.sprites.contains(&Sprite {
        texture: Texture::Asteroid,
        src: Rect { x: 0, y: 0, w: 100, h: 100 },
        dest: Rect { x: 375, y: 210, w: 50, h: 50 },
        angle: 0,
        center_x: 25,
        center_y: 25,
    }));
    assert_eq!(f.huds, vec![Hud { score: 0, level: 1, highscore: 50 }]);
}
