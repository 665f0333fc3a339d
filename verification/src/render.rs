//! What is to be drawn: for each entity with a position and a picture the
//! rectangle it fills on the screen, a second rectangle where it reaches
//! over an edge, and the numbers of the display.

use vstd::prelude::*;
use crate::components::{Bundle, Texture, UNIT};
use crate::geometry::trunc_div;
use crate::store::{listed, EntityStore};
use crate::{GameState, SCREEN_HEIGHT, SCREEN_WIDTH};

verus! {

/// A rectangle in whole screen units: its upper left corner and its size.
#[derive(Clone, Copy, Debug, PartialEq, Eq, Structural)]
pub struct Rect {
    pub x: i64,
    pub y: i64,
    pub w: u32,
    pub h: u32,
}

/// One picture to draw: the part `src` of the texture goes to `dest`,
/// turned by `angle` thousandths of a degree about the point
/// (`center_x`, `center_y`) of `dest`.
#[derive(Clone, Copy, Debug, PartialEq, Eq, Structural)]
pub struct Sprite {
    pub texture: Texture,
    pub src: Rect,
    pub dest: Rect,
    pub angle: i64,
    pub center_x: u32,
    pub center_y: u32,
}

/// The numbers of the display.
#[derive(Clone, Copy, Debug, PartialEq, Eq, Structural)]
pub struct Hud {
    pub score: u32,
    pub level: u32,
    pub highscore: u32,
}

/// All that one frame shows.
pub struct Frame {
    pub sprites: Vec<Sprite>,
    pub huds: Vec<Hud>,
}

/// An entity that is drawn: it has a position and a picture.
pub open spec fn visible(b: Bundle) -> bool {
    b.position is Some && b.renderable is Some
}

/// The picture of an entity, centred on its position, whose coordinates
/// are taken at the whole unit toward zero.
pub open spec fn sprite_of(b: Bundle) -> Sprite {
    let p = b.position->0;
    let r = b.renderable->0;
    Sprite {
        texture: r.tex_name,
        src: Rect { x: 0, y: 0, w: r.i_w, h: r.i_h },
        dest: Rect {
            x: (trunc_div(p.x as int, UNIT as int) - r.o_w / 2) as i64,
            y: (trunc_div(p.y as int, UNIT as int) - r.o_h / 2) as i64,
            w: r.o_w,
            h: r.o_h,
        },
        angle: r.rot,
        center_x: (r.o_w / 2) as u32,
        center_y: (r.o_h / 2) as u32,
    }
}

/// By how much a stretch of `len` from `start` is to be shown again on an
/// axis of length `extent`: by `extent` where it begins before the axis,
/// by as much back where it ends beyond it, and not at all otherwise.
pub open spec fn wrap_offset(start: int, len: int, extent: int) -> int {
    if start < 0 {
        extent
    } else if start + len > extent {
        -extent
    } else {
        0
    }
}

/// Whether a picture reaches over an edge of the screen.
pub open spec fn straddles(s: Sprite) -> bool {
    wrap_offset(s.dest.x as int, s.dest.w as int, SCREEN_WIDTH as int) != 0 || wrap_offset(
        s.dest.y as int,
        s.dest.h as int,
        SCREEN_HEIGHT as int,
    ) != 0
}

/// A picture shown again at the other side of the screen, on each axis on
/// which it reaches over an edge.
pub open spec fn wrapped_copy(s: Sprite) -> Sprite {
    Sprite {
        dest: Rect {
            x: (s.dest.x + wrap_offset(s.dest.x as int, s.dest.w as int, SCREEN_WIDTH as int)) as i64,
            y: (s.dest.y + wrap_offset(s.dest.y as int, s.dest.h as int, SCREEN_HEIGHT as int)) as i64,
            ..s.dest
        },
        ..s
    }
}

/// The pictures of one entity: none where it is not drawn, else its
/// picture, and the wrapped copy after it where it reaches over an edge.
pub open spec fn sprites_of(b: Bundle) -> Seq<Sprite> {
    if !visible(b) {
        Seq::empty()
    } else if straddles(sprite_of(b)) {
        seq![sprite_of(b), wrapped_copy(sprite_of(b))]
    } else {
        seq![sprite_of(b)]
    }
}

/// The pictures of the first `n` entities of a listing, in its order.
pub open spec fn frame_sprites(bs: Seq<Bundle>, n: nat) -> Seq<Sprite>
    decreases n,
{
    if n == 0 {
        Seq::empty()
    } else {
        frame_sprites(bs, (n - 1) as nat) + sprites_of(bs[n - 1])
    }
}

/// The displays of the first `n` entities of a listing: one for each
/// entity with game data.
pub open spec fn frame_huds(bs: Seq<Bundle>, highscore: u32, n: nat) -> Seq<Hud>
    decreases n,
{
    if n == 0 {
        Seq::empty()
    } else if bs[n - 1].game_data is Some {
        frame_huds(bs, highscore, (n - 1) as nat).push(
            Hud {
                score: bs[n - 1].game_data->0.score,
                level: bs[n - 1].game_data->0.level,
                highscore,
            },
        )
    } else {
        frame_huds(bs, highscore, (n - 1) as nat)
    }
}

/// The offset of `wrap_offset`.
fn offset(start: i64, len: u32, extent: u32) -> (d: i64)
    requires
        -2_000_000_000_000 <= start <= 2_000_000_000_000,
    ensures
        d == wrap_offset(start as int, len as int, extent as int),
{
    if start < 0 {
        extent as i64
    } else if start + len as i64 > extent as i64 {
        -(extent as i64)
    } else {
        0
    }
}

/// Lays out a frame for a listing.
pub fn plan_frame(bs: &Vec<Bundle>, highscore: u32) -> (f: Frame)
    requires
        forall|i: int| 0 <= i < bs@.len() ==> (#[trigger] bs@[i]).wf(),
    ensures
        f.sprites@ == frame_sprites(bs@, bs@.len()),
        f.huds@ == frame_huds(bs@, highscore, bs@.len()),
{
    let mut sprites: Vec<Sprite> = Vec::new();
    let mut huds: Vec<Hud> = Vec::new();
    let mut i: usize = 0;
    while i < bs.len()
        invariant
            0 <= i <= bs.len(),
            forall|k: int| 0 <= k < bs@.len() ==> (#[trigger] bs@[k]).wf(),
            sprites@ == frame_sprites(bs@, i as nat),
            huds@ == frame_huds(bs@, highscore, i as nat),
        decreases bs.len() - i,
    {
        let b = bs[i];
        if let Some(p) = b.position {
            if let Some(r) = b.renderable {
                let dest = Rect {
                    x: p.x / UNIT - (r.o_w / 2) as i64,
                    y: p.y / UNIT - (r.o_h / 2) as i64,
                    w: r.o_w,
                    h: r.o_h,
                };
                let s = Sprite {
                    texture: r.tex_name,
                    src: Rect { x: 0, y: 0, w: r.i_w, h: r.i_h },
                    dest,
                    angle: r.rot,
                    center_x: r.o_w / 2,
                    center_y: r.o_h / 2,
                };
                sprites.push(s);
                let dx = offset(dest.x, dest.w, SCREEN_WIDTH);
                let dy = offset(dest.y, dest.h, SCREEN_HEIGHT);
                if dx != 0 || dy != 0 {
                    let copy = Sprite {
                        texture: s.texture,
                        src: s.src,
                        dest: Rect { x: dest.x + dx, y: dest.y + dy, w: dest.w, h: dest.h },
                        angle: s.angle,
                        center_x: s.center_x,
                        center_y: s.center_y,
                    };
                    sprites.push(copy);
                }
            }
        }
        if let Some(g) = b.game_data {
            huds.push(Hud { score: g.score, level: g.level, highscore });
        }
        i += 1;
    }
    Frame { sprites, huds }
}

/// Lays out the frame that shows a store as it is.
pub fn render(ecs: &EntityStore, state: &GameState) -> (f: Frame)
    requires
        ecs.wf(),
    ensures
        exists|bs: Seq<Bundle>| #[trigger]
            listed(bs, ecs@) && f.sprites@ == frame_sprites(bs, bs.len()) && f.huds@
                == frame_huds(bs, state@, bs.len()),
{
    let bs = ecs.bundles();
    let f = plan_frame(&bs, state.highscore());
    f
}

} // verus!
