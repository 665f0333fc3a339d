//! The game loop: building the world, steering the ship, sending out waves
//! of asteroids and firing missiles.

use vstd::prelude::*;
use rand::Rng;
use crate::components::{
    Asteroid, Bundle, GameData, Missile, Player, Position, Renderable, Sound, SoundCue,
    SoundCueType, Texture, Vec2, COORD_LIMIT, FULL_TURN,
};
use crate::geometry::{
    clamp_speed, clamped, dist_sq, lemma_clamped_within, normalize_angle, step, step_x, step_y,
    trunc_div, within, wrap, wrapped,
};
use crate::store::{
    added, admitted, evolves, grown, grown_by, room_after, lemma_evolved, lemma_listed, listed, lists, EntityStore, Plan,
};
use crate::utils::KeyState;
use crate::{FIELD_HEIGHT, FIELD_WIDTH};

verus! {

/// How far the ship turns in a tick while a turn key is held.
pub const ROTATION_SPEED: i64 = 2000;

/// The impulse one tick of thrust adds.
pub const IMPULSE_SPEED: i64 = 3000;

/// The share of its velocity the ship keeps from one tick to the next, in
/// hundredths.
pub const FRICTION: i64 = 96;

/// The greatest speed of the ship.
pub const MAX_SPEED: i64 = 6000;

/// How many missiles may be in flight at once.
pub const MAX_MISSILES: usize = 5;

/// The speed of a missile.
pub const MISSILE_SPEED: i64 = 5000;

/// The speed of an asteroid.
pub const ASTEROID_SPEED: i64 = 2500;

/// How far the picture of an asteroid spins in a tick.
pub const ASTEROID_SPIN: i64 = 500;

/// The ship as a new world has it.
pub open spec fn ship_bundle() -> Bundle {
    Bundle {
        position: Some(Position { x: 350_000, y: 250_000, rot: 0 }),
        renderable: Some(
            Renderable {
                tex_name: Texture::Ship,
                i_w: 100,
                i_h: 100,
                o_w: 50,
                o_h: 50,
                frame: 0,
                total_frames: 1,
                rot: 0,
            },
        ),
        player: Some(Player { impulse: Vec2::zero(), cur_speed: Vec2::zero() }),
        ..Bundle::empty()
    }
}

/// An asteroid of `size` at `position`.
pub open spec fn asteroid_bundle(position: Position, size: u32) -> Bundle {
    Bundle {
        position: Some(position),
        renderable: Some(
            Renderable {
                tex_name: Texture::Asteroid,
                i_w: 100,
                i_h: 100,
                o_w: size,
                o_h: size,
                frame: 0,
                total_frames: 1,
                rot: 0,
            },
        ),
        asteroid: Some(Asteroid { speed: ASTEROID_SPEED, rot_speed: ASTEROID_SPIN, size }),
        ..Bundle::empty()
    }
}

/// The asteroid a new world starts with.
pub open spec fn seed_asteroid() -> Bundle {
    asteroid_bundle(Position { x: 400_000, y: 235_000, rot: 45_000 }, 50)
}

/// The game data a new world starts with.
pub open spec fn game_data_bundle() -> Bundle {
    Bundle { game_data: Some(GameData { score: 0, level: 1 }), ..Bundle::empty() }
}

/// A missile fired from `position`.
pub open spec fn missile_bundle(position: Position) -> Bundle {
    Bundle {
        position: Some(position),
        renderable: Some(
            Renderable {
                tex_name: Texture::Missile,
                i_w: 100,
                i_h: 100,
                o_w: 25,
                o_h: 25,
                frame: 0,
                total_frames: 1,
                rot: 0,
            },
        ),
        missile: Some(Missile { speed: MISSILE_SPEED }),
        ..Bundle::empty()
    }
}

/// A request to the audio side.
pub open spec fn cue_bundle(filename: Sound, sc_type: SoundCueType) -> Bundle {
    Bundle { sound_cue: Some(SoundCue { filename, sc_type }), ..Bundle::empty() }
}

fn make_ship() -> (b: Bundle)
    ensures
        b == ship_bundle(),
{
    let mut b = Bundle::empty();
    b.position = Some(Position { x: 350_000, y: 250_000, rot: 0 });
    b.renderable = Some(
        Renderable {
            tex_name: Texture::Ship,
            i_w: 100,
            i_h: 100,
            o_w: 50,
            o_h: 50,
            frame: 0,
            total_frames: 1,
            rot: 0,
        },
    );
    b.player = Some(Player { impulse: Vec2 { x: 0, y: 0 }, cur_speed: Vec2 { x: 0, y: 0 } });
    b
}

/// An asteroid of `size` at `position`.
pub(crate) fn make_asteroid(position: Position, size: u32) -> (b: Bundle)
    ensures
        b == asteroid_bundle(position, size),
{
    let mut b = Bundle::empty();
    b.position = Some(position);
    b.renderable = Some(
        Renderable {
            tex_name: Texture::Asteroid,
            i_w: 100,
            i_h: 100,
            o_w: size,
            o_h: size,
            frame: 0,
            total_frames: 1,
            rot: 0,
        },
    );
    b.asteroid = Some(Asteroid { speed: ASTEROID_SPEED, rot_speed: ASTEROID_SPIN, size });
    b
}

fn make_missile(position: Position) -> (b: Bundle)
    ensures
        b == missile_bundle(position),
{
    let mut b = Bundle::empty();
    b.position = Some(position);
    b.renderable = Some(
        Renderable {
            tex_name: Texture::Missile,
            i_w: 100,
            i_h: 100,
            o_w: 25,
            o_h: 25,
            frame: 0,
            total_frames: 1,
            rot: 0,
        },
    );
    b.missile = Some(Missile { speed: MISSILE_SPEED });
    b
}

fn make_cue(filename: Sound, sc_type: SoundCueType) -> (b: Bundle)
    ensures
        b == cue_bundle(filename, sc_type),
{
    let mut b = Bundle::empty();
    b.sound_cue = Some(SoundCue { filename, sc_type });
    b
}

/// The velocity of the ship after a tick: what friction leaves of the old
/// one, plus the impulse, cut back to `MAX_SPEED`.
pub open spec fn integrated(player: Player) -> Vec2 {
    clamped(
        Vec2 {
            x: (trunc_div(player.cur_speed.x * FRICTION, 100) + player.impulse.x) as i64,
            y: (trunc_div(player.cur_speed.y * FRICTION, 100) + player.impulse.y) as i64,
        },
        MAX_SPEED as int,
    )
}

/// The ship is never faster than `MAX_SPEED`: its velocity after a tick is
/// no longer than that, and so is each component, whatever velocity and
/// impulse within their bounds it had.
pub proof fn lemma_integrated_within(player: Player)
    requires
        player.cur_speed.wf(),
        player.impulse.wf(),
    ensures
        integrated(player).x * integrated(player).x + integrated(player).y * integrated(player).y
            <= MAX_SPEED * MAX_SPEED,
        -MAX_SPEED <= integrated(player).x <= MAX_SPEED,
        -MAX_SPEED <= integrated(player).y <= MAX_SPEED,
{
    let v = Vec2 {
        x: (trunc_div(player.cur_speed.x * FRICTION, 100) + player.impulse.x) as i64,
        y: (trunc_div(player.cur_speed.y * FRICTION, 100) + player.impulse.y) as i64,
    };
    lemma_clamped_within(v, MAX_SPEED as int);
}

/// A component whose square is at most that of a bound is within the bound.
proof fn lemma_component_bound(x: int, y: int, max: int)
    requires
        0 <= max,
        x * x + y * y <= max * max,
    ensures
        -max <= x <= max,
        -max <= y <= max,
{
    assert(-max <= x <= max && -max <= y <= max) by (nonlinear_arith)
        requires
            0 <= max,
            x * x + y * y <= max * max,
    ;
}

/// Moves the ship by one tick: friction, then the impulse, then the speed
/// limit; the position advances by the new velocity and the impulse is
/// spent.
pub fn update_movement(pos: &mut Position, player: &mut Player)
    requires
        -COORD_LIMIT <= old(pos).x <= COORD_LIMIT,
        -COORD_LIMIT <= old(pos).y <= COORD_LIMIT,
        old(player).cur_speed.wf(),
        old(player).impulse.wf(),
    ensures
        final(player).cur_speed == integrated(*old(player)),
        final(player).impulse == Vec2::zero(),
        final(pos).x == old(pos).x + final(player).cur_speed.x,
        final(pos).y == old(pos).y + final(player).cur_speed.y,
        final(pos).rot == old(pos).rot,
        final(player).cur_speed.x * final(player).cur_speed.x
            + final(player).cur_speed.y * final(player).cur_speed.y <= MAX_SPEED * MAX_SPEED,
        -MAX_SPEED <= final(player).cur_speed.x <= MAX_SPEED,
        -MAX_SPEED <= final(player).cur_speed.y <= MAX_SPEED,
        old(player).impulse == Vec2::zero() && old(player).cur_speed == Vec2::zero() ==> *final(pos)
            == *old(pos) && *final(player) == *old(player),
{
    let vx: i64 = player.cur_speed.x * FRICTION / 100 + player.impulse.x;
    let vy: i64 = player.cur_speed.y * FRICTION / 100 + player.impulse.y;
    assert(vx == 0 && vy == 0 ==> vx * vx + vy * vy <= MAX_SPEED * MAX_SPEED) by (nonlinear_arith);
    let v = clamp_speed(Vec2 { x: vx, y: vy }, MAX_SPEED);
    proof {
        lemma_component_bound(v.x as int, v.y as int, MAX_SPEED as int);
    }
    player.cur_speed = v;
    pos.x = pos.x + v.x;
    pos.y = pos.y + v.y;
    player.impulse = Vec2 { x: 0, y: 0 };
}

/// Creates an asteroid of `asteroid_size` at `position`, where the store
/// has room for it.
pub fn create_asteroid(ecs: &mut EntityStore, position: Position, asteroid_size: u32)
    requires
        old(ecs).wf(),
        position.wf(),
    ensures
        final(ecs).wf(),
        grown(
            old(ecs)@,
            admitted(old(ecs).room(), seq![asteroid_bundle(position, asteroid_size)]),
            final(ecs)@,
        ),
        final(ecs).room() == room_after(
            old(ecs).room(),
            seq![asteroid_bundle(position, asteroid_size)],
        ),
{
    let bundles = vec![make_asteroid(position, asteroid_size)];
    assert(bundles@ =~= seq![asteroid_bundle(position, asteroid_size)]);
    ecs.create_all(&bundles);
}

/// What a new world holds: the ship, the first asteroid and the game data.
pub open spec fn world_start() -> Seq<Bundle> {
    seq![ship_bundle(), seed_asteroid(), game_data_bundle()]
}

/// Adds the entities a game starts with, where the store has room for
/// them. What is in the store stays.
pub fn load_world(ecs: &mut EntityStore)
    requires
        old(ecs).wf(),
    ensures
        final(ecs).wf(),
        grown(old(ecs)@, admitted(old(ecs).room(), world_start()), final(ecs)@),
        final(ecs).room() == room_after(old(ecs).room(), world_start()),
{
    let seed = make_asteroid(Position { x: 400_000, y: 235_000, rot: 45_000 }, 50);
    let mut data = Bundle::empty();
    data.game_data = Some(GameData { score: 0, level: 1 });
    let bundles = vec![make_ship(), seed, data];
    ecs.create_all(&bundles);
}

/// The entities of `m` that are missiles.
pub open spec fn missiles_of(m: Map<specs::Entity, Bundle>) -> Set<specs::Entity> {
    m.dom().filter(|e: specs::Entity| m[e].missile is Some)
}

/// How many bundles of a listing are missiles.
pub open spec fn count_missiles(bs: Seq<Bundle>) -> nat
    decreases bs.len(),
{
    if bs.len() == 0 {
        0
    } else {
        count_missiles(bs.drop_last()) + if bs.last().missile is Some {
            1nat
        } else {
            0nat
        }
    }
}

/// A listing has as many missiles as the store it lists.
pub proof fn lemma_count_missiles(
    hs: Seq<specs::Entity>,
    bs: Seq<Bundle>,
    m: Map<specs::Entity, Bundle>,
)
    requires
        lists(hs, bs, m),
    ensures
        missiles_of(m).finite(),
        missiles_of(m).len() == count_missiles(bs),
    decreases hs.len(),
{
    if hs.len() == 0 {
        assert(missiles_of(m) =~= Set::empty());
    } else {
        let last = hs.last();
        let rest = m.remove(last);
        let hs1 = hs.drop_last();
        let bs1 = bs.drop_last();
        assert forall|e: specs::Entity| #[trigger] rest.contains_key(e) implies hs1.contains(
            e,
        ) by {
            let k = choose|k: int| 0 <= k < hs.len() && hs[k] == e;
            assert(hs1[k] == e);
        }
        lemma_count_missiles(hs1, bs1, rest);
        if bs.last().missile is Some {
            assert(missiles_of(m) =~= missiles_of(rest).insert(last));
        } else {
            assert(missiles_of(m) =~= missiles_of(rest));
        }
    }
}

/// What a shot from `position` creates: the missile and the cue that
/// plays the shot.
pub open spec fn shot(position: Position) -> Seq<Bundle> {
    seq![missile_bundle(position), cue_bundle(Sound::Shoot, SoundCueType::PlaySound)]
}

/// What firing from `position` does to a store with room for `room` more
/// entities: nothing where `MAX_MISSILES` missiles are in flight, else a
/// missile at `position` and the cue that plays the shot, where the store
/// has room for both.
pub open spec fn fired(
    before: Map<specs::Entity, Bundle>,
    room: nat,
    position: Position,
    after: Map<specs::Entity, Bundle>,
) -> bool {
    if missiles_of(before).len() >= MAX_MISSILES {
        after == before
    } else {
        grown(before, admitted(room, shot(position)), after)
    }
}

/// The room that firing from `position` leaves.
pub open spec fn fired_room(before: Map<specs::Entity, Bundle>, room: nat, position: Position)
    -> nat {
    if missiles_of(before).len() >= MAX_MISSILES {
        room
    } else {
        room_after(room, shot(position))
    }
}

/// The cap on missiles holds. Where no more than `MAX_MISSILES` missiles
/// are in flight before a shot, no more are in flight after it; a shot
/// below the cap, in a store with room for the missile and its cue, adds
/// exactly one; and a shot at the cap changes nothing.
pub proof fn lemma_fire_keeps_cap(
    before: Map<specs::Entity, Bundle>,
    room: nat,
    position: Position,
    after: Map<specs::Entity, Bundle>,
)
    requires
        fired(before, room, position, after),
        missiles_of(before).finite(),
        missiles_of(before).len() <= MAX_MISSILES,
    ensures
        missiles_of(after).finite(),
        missiles_of(after).len() <= MAX_MISSILES,
        missiles_of(before).len() < MAX_MISSILES && room >= 2 ==> missiles_of(after).len()
            == missiles_of(before).len() + 1,
        missiles_of(before).len() >= MAX_MISSILES ==> after == before,
{
    if missiles_of(before).len() < MAX_MISSILES {
        let added = admitted(room, shot(position));
        let h = choose|h: Seq<specs::Entity>| grown_by(before, h, added, after);
        if room >= 2 {
            assert(after.contains_key(h[0]) && after[h[0]] == added[0]);
            assert(after.contains_key(h[1]) && after[h[1]] == added[1]);
            assert(missiles_of(after) =~= missiles_of(before).insert(h[0]));
        } else {
            assert(missiles_of(after) =~= missiles_of(before));
        }
    }
}

/// Fires a missile from `position`, unless `MAX_MISSILES` are in flight or
/// the store has no room for the missile and its cue.
pub fn fire_missile(ecs: &mut EntityStore, position: Position)
    requires
        old(ecs).wf(),
        position.wf(),
    ensures
        final(ecs).wf(),
        fired(old(ecs)@, old(ecs).room(), position, final(ecs)@),
        final(ecs).room() == fired_room(old(ecs)@, old(ecs).room(), position),
{
    let l = ecs.listing();
    let mut n: usize = 0;
    let mut i: usize = 0;
    while i < l.bundles.len()
        invariant
            0 <= i <= l.bundles.len(),
            n == count_missiles(l.bundles@.take(i as int)),
            n <= i,
        decreases l.bundles.len() - i,
    {
        assert(l.bundles@.take(i + 1).drop_last() =~= l.bundles@.take(i as int));
        if l.bundles[i].missile.is_some() {
            n += 1;
        }
        i += 1;
    }
    proof {
        assert(l.bundles@.take(i as int) =~= l.bundles@);
        lemma_count_missiles(l.handles@, l.bundles@, ecs@);
    }
    if n > MAX_MISSILES - 1 {
        return ;
    }
    let bundles = vec![make_missile(position), make_cue(Sound::Shoot, SoundCueType::PlaySound)];
    assert(bundles@ =~= shot(position));
    ecs.create_all(&bundles);
}

/// How close to an edge of the screen no wave asteroid appears.
pub const SPAWN_MARGIN: i64 = 50_000;

/// How far from the ship a wave asteroid appears at least.
pub const SAFE_DISTANCE: i64 = 150_000;

/// The size of a wave asteroid.
pub const WAVE_ASTEROID_SIZE: u32 = 100;

/// How many random places are tried for a wave asteroid before it is put
/// in the corner farthest from the ship.
pub const SPAWN_TRIES: u32 = 64;

/// Whether a listing has a ship.
pub open spec fn has_player(bs: Seq<Bundle>) -> bool {
    exists|i: int| 0 <= i < bs.len() && (#[trigger] bs[i]).player is Some
}

/// Whether a listing has an asteroid.
pub open spec fn has_asteroid(bs: Seq<Bundle>) -> bool {
    exists|i: int| 0 <= i < bs.len() && (#[trigger] bs[i]).asteroid is Some
}

/// A ship that is somewhere.
pub open spec fn placed_ship(b: Bundle) -> bool {
    b.player is Some && b.position is Some
}

/// `f` is the last entity of the listing that is a ship with a position.
pub open spec fn is_last_placed(bs: Seq<Bundle>, f: int) -> bool {
    &&& 0 <= f < bs.len()
    &&& placed_ship(bs[f])
    &&& forall|k: int| f < k < bs.len() ==> !placed_ship(#[trigger] bs[k])
}

/// Where the ship is: the coordinates of the last ship of the listing, and
/// the origin where there is none.
pub open spec fn focus(bs: Seq<Bundle>) -> (int, int) {
    if exists|f: int| is_last_placed(bs, f) {
        let f = choose|f: int| is_last_placed(bs, f);
        (bs[f].position->0.x as int, bs[f].position->0.y as int)
    } else {
        (0, 0)
    }
}

/// `f` is the last entity of the listing that has game data.
pub open spec fn is_last_scored(bs: Seq<Bundle>, f: int) -> bool {
    &&& 0 <= f < bs.len()
    &&& bs[f].game_data is Some
    &&& forall|k: int| f < k < bs.len() ==> (#[trigger] bs[k]).game_data is None
}

/// The level after `level`; the highest level stays.
pub open spec fn bumped(level: u32) -> u32 {
    if level < u32::MAX {
        (level + 1) as u32
    } else {
        level
    }
}

/// How many asteroids the next wave has: none while an asteroid is left or
/// there is no game data, else a third of the new level, rounded down, and
/// one more.
pub open spec fn wave_size(bs: Seq<Bundle>) -> nat {
    if has_asteroid(bs) {
        0
    } else if exists|f: int| is_last_scored(bs, f) {
        let f = choose|f: int| is_last_scored(bs, f);
        (bumped(bs[f].game_data->0.level) / 3 + 1) as nat
    } else {
        0
    }
}

/// Where a wave asteroid may appear: off the margin of the screen, at
/// least `SAFE_DISTANCE` from the point `(fx, fy)`, with a rotation within
/// one turn.
pub open spec fn spawn_ok(p: Position, fx: int, fy: int) -> bool {
    &&& SPAWN_MARGIN <= p.x < FIELD_WIDTH - SPAWN_MARGIN
    &&& SPAWN_MARGIN <= p.y < FIELD_HEIGHT - SPAWN_MARGIN
    &&& 0 <= p.rot < FULL_TURN
    &&& dist_sq(p.x as int, p.y as int, fx, fy) >= SAFE_DISTANCE * SAFE_DISTANCE
}

/// An entity the keys steer: a ship with a position and a picture.
pub open spec fn steerable(b: Bundle) -> bool {
    b.player is Some && b.position is Some && b.renderable is Some
}

/// `f` is the first entity of the listing that the keys steer.
pub open spec fn is_pilot(bs: Seq<Bundle>, f: int) -> bool {
    &&& 0 <= f < bs.len()
    &&& steerable(bs[f])
    &&& forall|k: int| 0 <= k < f ==> !steerable(#[trigger] bs[k])
}

/// The rotation after a tick of the turn keys: `ROTATION_SPEED` more for
/// the right key, as much less for the left one, brought into one turn.
pub open spec fn turned(rot: int, keys: KeyState) -> int {
    wrapped(
        rot + (if keys.rotate_right {
            ROTATION_SPEED as int
        } else {
            0
        }) - (if keys.rotate_left {
            ROTATION_SPEED as int
        } else {
            0
        }),
        FULL_TURN as int,
    )
}

/// The ship's thrust component once the thrust key has had its tick: the
/// impulse grows by `IMPULSE_SPEED` along the heading `rot`.
pub open spec fn pushed(player: Player, rot: int, keys: KeyState) -> Player {
    if keys.thrust {
        Player {
            impulse: Vec2 {
                x: (player.impulse.x + step_x(IMPULSE_SPEED as int, rot)) as i64,
                y: (player.impulse.y + step_y(IMPULSE_SPEED as int, rot)) as i64,
            },
            ..player
        }
    } else {
        player
    }
}

/// A steerable entity after a tick: turned, pushed, moved by its new
/// velocity, wrapped round the screen, its picture turned like itself.
#[verifier::opaque]
pub open spec fn steered(b: Bundle, keys: KeyState) -> Bundle {
    let pos = b.position->0;
    let rot = turned(pos.rot as int, keys);
    let v = integrated(pushed(b.player->0, rot, keys));
    Bundle {
        position: Some(
            Position {
                x: wrapped(pos.x + v.x, FIELD_WIDTH as int) as i64,
                y: wrapped(pos.y + v.y, FIELD_HEIGHT as int) as i64,
                rot: rot as i64,
            },
        ),
        player: Some(Player { impulse: Vec2::zero(), cur_speed: v }),
        renderable: Some(Renderable { rot: rot as i64, ..b.renderable->0 }),
        ..b
    }
}

/// An entity after the game-loop step: its level goes up where a wave is
/// due, and it is steered where the keys steer it.
pub open spec fn tick_row(b: Bundle, keys: KeyState, wave: bool) -> Bundle {
    let b1 = if wave && b.game_data is Some {
        Bundle {
            game_data: Some(
                GameData { level: bumped(b.game_data->0.level), ..b.game_data->0 },
            ),
            ..b
        }
    } else {
        b
    };
    if steerable(b1) {
        steered(b1, keys)
    } else {
        b1
    }
}

/// The entities of a listing after the game-loop step; none is deleted.
pub open spec fn tick_rows(bs: Seq<Bundle>, keys: KeyState) -> Seq<Option<Bundle>> {
    Seq::new(bs.len(), |i: int| Some(tick_row(bs[i], keys, !has_asteroid(bs))))
}

/// Whether the thruster sounds: a key that turns or pushes is held and
/// there is an entity to steer.
pub open spec fn thrusting(bs: Seq<Bundle>, keys: KeyState) -> bool {
    &&& keys.rotate_left || keys.rotate_right || keys.thrust
    &&& exists|f: int| is_pilot(bs, f)
}

/// From where a missile is to be fired, if at all: from where the first
/// steered entity has come to, while the fire key is held.
pub open spec fn fire_request(bs: Seq<Bundle>, keys: KeyState) -> Option<Position> {
    if keys.fire && exists|f: int| is_pilot(bs, f) {
        let f = choose|f: int| is_pilot(bs, f);
        steered(bs[f], keys).position
    } else {
        None
    }
}

/// The keys after the game-loop step: a shot uses up the fire key.
pub open spec fn keys_after(bs: Seq<Bundle>, keys: KeyState) -> KeyState {
    if fire_request(bs, keys) is Some {
        KeyState { fire: false, ..keys }
    } else {
        keys
    }
}

/// The cue for the thruster: it loops while the ship is steered and stops
/// otherwise.
pub open spec fn thruster_cue(on: bool) -> Bundle {
    cue_bundle(
        Sound::Thruster,
        if on {
            SoundCueType::LoopSound
        } else {
            SoundCueType::StopSound
        },
    )
}

/// What the game-loop step creates: a wave asteroid at each target, then
/// the thruster cue.
pub open spec fn tick_spawned(bs: Seq<Bundle>, keys: KeyState, targets: Seq<Position>) -> Seq<
    Bundle,
> {
    Seq::new(targets.len(), |j: int| asteroid_bundle(targets[j], WAVE_ASTEROID_SIZE)).push(
        thruster_cue(thrusting(bs, keys)),
    )
}

/// `rand::Rng::gen_range` on the generator of the thread, with a
/// half-open range of integers: some value of the range.
#[verifier::external_body]
fn random_between(lo: i64, hi: i64) -> (r: i64)
    requires
        lo < hi,
    ensures
        lo <= r < hi,
{
    rand::thread_rng().gen_range(lo..hi)
}

/// Whether a listing has a ship.
fn any_player(bs: &Vec<Bundle>) -> (r: bool)
    ensures
        r == has_player(bs@),
{
    let mut i: usize = 0;
    while i < bs.len()
        invariant
            0 <= i <= bs.len(),
            forall|k: int| 0 <= k < i ==> (#[trigger] bs@[k]).player is None,
        decreases bs.len() - i,
    {
        if bs[i].player.is_some() {
            return true;
        }
        i += 1;
    }
    false
}

/// Whether a listing has an asteroid.
fn any_asteroid(bs: &Vec<Bundle>) -> (r: bool)
    ensures
        r == has_asteroid(bs@),
{
    let mut i: usize = 0;
    while i < bs.len()
        invariant
            0 <= i <= bs.len(),
            forall|k: int| 0 <= k < i ==> (#[trigger] bs@[k]).asteroid is None,
        decreases bs.len() - i,
    {
        if bs[i].asteroid.is_some() {
            return true;
        }
        i += 1;
    }
    false
}

/// Where the ship of a listing is.
fn find_focus(bs: &Vec<Bundle>) -> (r: (i64, i64))
    requires
        forall|i: int| 0 <= i < bs@.len() ==> (#[trigger] bs@[i]).wf(),
    ensures
        r.0 == focus(bs@).0,
        r.1 == focus(bs@).1,
        -COORD_LIMIT <= r.0 <= COORD_LIMIT,
        -COORD_LIMIT <= r.1 <= COORD_LIMIT,
{
    let mut at: (i64, i64) = (0, 0);
    let ghost mut last: int = -1;
    let mut i: usize = 0;
    while i < bs.len()
        invariant
            0 <= i <= bs.len(),
            -1 <= last < i,
            forall|j: int| 0 <= j < bs@.len() ==> (#[trigger] bs@[j]).wf(),
            last >= 0 ==> placed_ship(bs@[last]) && at.0 == bs@[last].position->0.x && at.1
                == bs@[last].position->0.y,
            last < 0 ==> at == (0i64, 0i64),
            forall|k: int| last < k < i ==> !placed_ship(#[trigger] bs@[k]),
            -COORD_LIMIT <= at.0 <= COORD_LIMIT,
            -COORD_LIMIT <= at.1 <= COORD_LIMIT,
        decreases bs.len() - i,
    {
        if bs[i].player.is_some() {
            if let Some(p) = bs[i].position {
                at = (p.x, p.y);
                proof {
                    last = i as int;
                }
            }
        }
        i += 1;
    }
    proof {
        if last >= 0 {
            assert(is_last_placed(bs@, last));
        }
    }
    at
}

/// How many asteroids the next wave has.
fn wave_count(bs: &Vec<Bundle>) -> (n: u32)
    ensures
        n == wave_size(bs@),
{
    if any_asteroid(bs) {
        return 0;
    }
    let mut n: u32 = 0;
    let ghost mut last: int = -1;
    let mut i: usize = 0;
    while i < bs.len()
        invariant
            0 <= i <= bs.len(),
            -1 <= last < i,
            last >= 0 ==> bs@[last].game_data is Some && n == bumped(
                bs@[last].game_data->0.level,
            ) / 3 + 1,
            last < 0 ==> n == 0,
            forall|k: int| last < k < i ==> (#[trigger] bs@[k]).game_data is None,
        decreases bs.len() - i,
    {
        if let Some(g) = bs[i].game_data {
            let level: u32 = if g.level < u32::MAX {
                g.level + 1
            } else {
                g.level
            };
            n = level / 3 + 1;
            proof {
                last = i as int;
            }
        }
        i += 1;
    }
    proof {
        if last >= 0 {
            assert(is_last_scored(bs@, last));
        }
    }
    n
}

/// A place for a wave asteroid: random places are tried until one is far
/// enough from `(fx, fy)`; after `SPAWN_TRIES` of them it is the corner of
/// the allowed area farthest from that point.
fn draw_target(fx: i64, fy: i64) -> (p: Position)
    requires
        -COORD_LIMIT <= fx <= COORD_LIMIT,
        -COORD_LIMIT <= fy <= COORD_LIMIT,
    ensures
        spawn_ok(p, fx as int, fy as int),
{
    let mut rot: i64 = 0;
    let mut tries: u32 = 0;
    while tries < SPAWN_TRIES
        invariant
            0 <= rot < FULL_TURN,
            -COORD_LIMIT <= fx <= COORD_LIMIT,
            -COORD_LIMIT <= fy <= COORD_LIMIT,
        decreases SPAWN_TRIES - tries,
    {
        let x = random_between(SPAWN_MARGIN, FIELD_WIDTH - SPAWN_MARGIN);
        let y = random_between(SPAWN_MARGIN, FIELD_HEIGHT - SPAWN_MARGIN);
        rot = random_between(0, FULL_TURN);
        if !within(x, y, fx, fy, SAFE_DISTANCE as u64) {
            return Position { x, y, rot };
        }
        tries += 1;
    }
    let x: i64 = if fx < FIELD_WIDTH / 2 {
        FIELD_WIDTH - SPAWN_MARGIN - 1
    } else {
        SPAWN_MARGIN
    };
    let y: i64 = if fy < FIELD_HEIGHT / 2 {
        FIELD_HEIGHT - SPAWN_MARGIN - 1
    } else {
        SPAWN_MARGIN
    };
    assert((x - fx) * (x - fx) >= 150_000 * 150_000) by (nonlinear_arith)
        requires
            x - fx >= 150_000 || fx - x >= 150_000,
    ;
    assert((y - fy) * (y - fy) >= 0) by (nonlinear_arith);
    Position { x, y, rot }
}

/// A place for each asteroid of a wave of `n`.
fn draw_targets(n: u32, fx: i64, fy: i64) -> (targets: Vec<Position>)
    requires
        -COORD_LIMIT <= fx <= COORD_LIMIT,
        -COORD_LIMIT <= fy <= COORD_LIMIT,
    ensures
        targets@.len() == n,
        forall|j: int| 0 <= j < n ==> spawn_ok(#[trigger] targets@[j], fx as int, fy as int),
{
    let mut targets: Vec<Position> = Vec::new();
    let mut j: u32 = 0;
    while j < n
        invariant
            0 <= j <= n,
            targets@.len() == j,
            -COORD_LIMIT <= fx <= COORD_LIMIT,
            -COORD_LIMIT <= fy <= COORD_LIMIT,
            forall|k: int| 0 <= k < j ==> spawn_ok(#[trigger] targets@[k], fx as int, fy as int),
        decreases n - j,
    {
        let p = draw_target(fx, fy);
        targets.push(p);
        j += 1;
    }
    targets
}

/// Steers one entity for a tick.
fn steer(b: Bundle, keys: &KeyState) -> (r: Bundle)
    requires
        b.wf(),
        steerable(b),
    ensures
        r == steered(b, *keys),
        r.wf(),
        b.same_kind(r),
{
    reveal(steered);
    let mut pos = b.position.unwrap();
    let mut pl = b.player.unwrap();
    let mut rend = b.renderable.unwrap();
    let mut rot: i64 = pos.rot;
    if keys.rotate_right {
        rot = rot + ROTATION_SPEED;
    }
    if keys.rotate_left {
        rot = rot - ROTATION_SPEED;
    }
    rot = normalize_angle(rot);
    pos.rot = rot;
    if keys.thrust {
        let d = step(IMPULSE_SPEED, rot);
        pl.impulse = Vec2 { x: pl.impulse.x + d.0, y: pl.impulse.y + d.1 };
    }
    update_movement(&mut pos, &mut pl);
    pos.x = wrap(pos.x, FIELD_WIDTH);
    pos.y = wrap(pos.y, FIELD_HEIGHT);
    rend.rot = rot;
    let mut r = b;
    r.position = Some(pos);
    r.player = Some(pl);
    r.renderable = Some(rend);
    r
}

/// One entity through the game-loop step.
fn tick_one(b: Bundle, keys: &KeyState, wave: bool) -> (r: Bundle)
    requires
        b.wf(),
    ensures
        r == tick_row(b, *keys, wave),
        r.wf(),
        b.same_kind(r),
        steerable(b) ==> r.position == steered(b, *keys).position,
{
    reveal(steered);
    let mut r = b;
    if wave {
        if let Some(g) = b.game_data {
            let level: u32 = if g.level < u32::MAX {
                g.level + 1
            } else {
                g.level
            };
            r.game_data = Some(GameData { score: g.score, level });
        }
    }
    if r.player.is_some() && r.position.is_some() && r.renderable.is_some() {
        steer(r, keys)
    } else {
        r
    }
}

/// What the game-loop step asks of the store, the shot it asks for and the
/// keys as it leaves them.
pub struct TickPlan {
    pub plan: Plan,
    pub fire: Option<Position>,
    pub keys: KeyState,
}

/// Plans the game-loop step on a listing: the level goes up where no
/// asteroid is left, an asteroid of a wave appears at each target, the
/// keys steer the ship, the thruster cue is raised, and a held fire key
/// asks for a shot from where the ship has come to.
pub fn plan_tick(bs: &Vec<Bundle>, keys: KeyState, targets: &Vec<Position>) -> (t: TickPlan)
    requires
        forall|i: int| 0 <= i < bs@.len() ==> (#[trigger] bs@[i]).wf(),
        forall|j: int| 0 <= j < targets@.len() ==> (#[trigger] targets@[j]).wf(),
    ensures
        t.plan.rows@ == tick_rows(bs@, keys),
        t.plan.spawned@ == tick_spawned(bs@, keys, targets@),
        t.fire == fire_request(bs@, keys),
        t.keys == keys_after(bs@, keys),
        t.plan.fits(bs@),
        t.fire matches Some(p) ==> p.wf(),
{
    let wave = !any_asteroid(bs);
    let mut rows: Vec<Option<Bundle>> = Vec::new();
    let mut fire: Option<Position> = None;
    let ghost mut pilot: int = -1;
    let mut piloted = false;
    let mut i: usize = 0;
    while i < bs.len()
        invariant
            0 <= i <= bs.len(),
            wave == !has_asteroid(bs@),
            rows@.len() == i,
            forall|k: int| 0 <= k < bs@.len() ==> (#[trigger] bs@[k]).wf(),
            forall|k: int| 0 <= k < i ==> #[trigger] rows@[k] == Some(tick_row(bs@[k], keys, wave)),
            forall|k: int|
                0 <= k < i ==> tick_row(#[trigger] bs@[k], keys, wave).wf() && bs@[k].same_kind(
                    tick_row(bs@[k], keys, wave),
                ),
            piloted == (pilot >= 0),
            -1 <= pilot < i,
            pilot >= 0 ==> is_pilot(bs@, pilot),
            pilot < 0 ==> forall|k: int| 0 <= k < i ==> !steerable(#[trigger] bs@[k]),
            pilot < 0 ==> fire is None,
            pilot >= 0 ==> fire == (if keys.fire {
                steered(bs@[pilot], keys).position
            } else {
                None
            }),
            fire matches Some(p) ==> p.wf(),
        decreases bs.len() - i,
    {
        let b = tick_one(bs[i], &keys, wave);
        if !piloted && bs[i].player.is_some() && bs[i].position.is_some()
            && bs[i].renderable.is_some() {
            piloted = true;
            proof {
                pilot = i as int;
            }
            if keys.fire {
                fire = b.position;
            }
        }
        rows.push(Some(b));
        i += 1;
    }
    let on = piloted && (keys.rotate_left || keys.rotate_right || keys.thrust);
    let mut spawned: Vec<Bundle> = Vec::new();
    let mut j: usize = 0;
    while j < targets.len()
        invariant
            0 <= j <= targets.len(),
            spawned@.len() == j,
            forall|k: int| 0 <= k < targets@.len() ==> (#[trigger] targets@[k]).wf(),
            forall|k: int|
                0 <= k < j ==> #[trigger] spawned@[k] == asteroid_bundle(
                    targets@[k],
                    WAVE_ASTEROID_SIZE,
                ),
        decreases targets.len() - j,
    {
        spawned.push(make_asteroid(targets[j], WAVE_ASTEROID_SIZE));
        j += 1;
    }
    let cue = if on {
        make_cue(Sound::Thruster, SoundCueType::LoopSound)
    } else {
        make_cue(Sound::Thruster, SoundCueType::StopSound)
    };
    spawned.push(cue);
    let mut after = keys;
    if fire.is_some() {
        after.fire = false;
    }
    TickPlan { plan: Plan { rows, spawned }, fire, keys: after }
}

/// The room that is left once a store without a ship, where `reset` says
/// so, has been given a new world.
pub open spec fn reset_room(room: nat, reset: bool) -> nat {
    if reset {
        room_after(room, world_start())
    } else {
        room
    }
}

/// One run of `update` on a store with room for `room` more entities,
/// with what it passes through: `bs0` lists the store as it was; `m1` is
/// the store once a world without a ship has been replaced by a new one;
/// `bs1` lists `m1`; `targets` are the places of the wave; `m2` is the store
/// once the plan of the step is carried out; a shot, where one is asked
/// for, leads from `m2` to `after`, which has room for `left` more. Each
/// of the three steps creates its entities where the store has room for
/// all of them, and none otherwise.
pub open spec fn update_trace(
    before: Map<specs::Entity, Bundle>,
    room: nat,
    keys: KeyState,
    after: Map<specs::Entity, Bundle>,
    keys_out: KeyState,
    left: nat,
    bs0: Seq<Bundle>,
    m1: Map<specs::Entity, Bundle>,
    bs1: Seq<Bundle>,
    targets: Seq<Position>,
    m2: Map<specs::Entity, Bundle>,
) -> bool {
    let r1 = reset_room(room, !has_player(bs0));
    let r2 = room_after(r1, tick_spawned(bs1, keys, targets));
    &&& listed(bs0, before)
    &&& if has_player(bs0) {
        m1 == before
    } else {
        grown(Map::empty(), admitted(room, world_start()), m1)
    }
    &&& targets.len() == wave_size(bs1)
    &&& forall|j: int|
        0 <= j < targets.len() ==> spawn_ok(#[trigger] targets[j], focus(bs0).0, focus(bs0).1)
    &&& evolves(
        m1,
        bs1,
        tick_rows(bs1, keys),
        admitted(r1, tick_spawned(bs1, keys, targets)),
        m2,
    )
    &&& match fire_request(bs1, keys) {
        Some(p) => fired(m2, r2, p, after) && left == fired_room(m2, r2, p),
        None => after == m2 && left == r2,
    }
    &&& keys_out == keys_after(bs1, keys)
}

/// What `update` does to a store with room for `room` more entities and to
/// the keys; `left` is the room it leaves.
pub open spec fn updated(
    before: Map<specs::Entity, Bundle>,
    room: nat,
    keys: KeyState,
    after: Map<specs::Entity, Bundle>,
    keys_out: KeyState,
    left: nat,
) -> bool {
    exists|
        bs0: Seq<Bundle>,
        m1: Map<specs::Entity, Bundle>,
        bs1: Seq<Bundle>,
        targets: Seq<Position>,
        m2: Map<specs::Entity, Bundle>,
    | #[trigger]
        update_trace(before, room, keys, after, keys_out, left, bs0, m1, bs1, targets, m2)
}

/// The game-loop step of a tick. A world without a ship is replaced by a
/// new one. Where no asteroid is left, the level goes up and a wave of
/// asteroids appears, each at a random place away from the ship. The keys
/// steer the ship, the thruster cue is raised, and a held fire key is used
/// up for a missile from where the ship has come to. What a step would
/// create beyond the room of the store is not created.
pub fn update(ecs: &mut EntityStore, key_manager: &mut KeyState)
    requires
        old(ecs).wf(),
    ensures
        final(ecs).wf(),
        updated(
            old(ecs)@,
            old(ecs).room(),
            *old(key_manager),
            final(ecs)@,
            *final(key_manager),
            final(ecs).room(),
        ),
{
    let ghost before = ecs@;
    let ghost keys = *key_manager;
    let seen = ecs.listing();
    let ghost bs0 = seen.bundles@;
    let at = find_focus(&seen.bundles);
    let l = if any_player(&seen.bundles) {
        seen
    } else {
        ecs.delete_all();
        load_world(ecs);
        ecs.listing()
    };
    let ghost m1 = ecs@;
    let ghost bs1 = l.bundles@;
    let n = wave_count(&l.bundles);
    let targets = draw_targets(n, at.0, at.1);
    let t = plan_tick(&l.bundles, *key_manager, &targets);
    ecs.commit(&l, &t.plan);
    let ghost m2 = ecs@;
    *key_manager = t.keys;
    if let Some(p) = t.fire {
        fire_missile(ecs, p);
    }
    assert(update_trace(
        before,
        old(ecs).room(),
        keys,
        ecs@,
        *key_manager,
        ecs.room(),
        bs0,
        m1,
        bs1,
        targets@,
        m2,
    ));
}

/// The cues of the first `n` entities of a listing, in its order.
pub open spec fn cues_of(bs: Seq<Bundle>, n: nat) -> Seq<SoundCue>
    decreases n,
{
    if n == 0 {
        Seq::empty()
    } else if bs[n - 1].sound_cue is Some {
        cues_of(bs, (n - 1) as nat).push(bs[n - 1].sound_cue->0)
    } else {
        cues_of(bs, (n - 1) as nat)
    }
}

/// What taking the cues does to a store: the entities with a cue are
/// gone, the others are as they were, and none is added.
pub open spec fn cues_taken(
    before: Map<specs::Entity, Bundle>,
    after: Map<specs::Entity, Bundle>,
) -> bool {
    &&& forall|e: specs::Entity| #[trigger]
        before.contains_key(e) ==> if before[e].sound_cue is Some {
            !after.contains_key(e)
        } else {
            after.contains_key(e) && after[e] == before[e]
        }
    &&& forall|e: specs::Entity| #[trigger] after.contains_key(e) ==> before.contains_key(e)
}

/// Hands out the cues raised since they were last taken and deletes the
/// entities that carried them, so that each cue is heard once.
pub fn take_sound_cues(ecs: &mut EntityStore) -> (cues: Vec<SoundCue>)
    requires
        old(ecs).wf(),
    ensures
        final(ecs).wf(),
        final(ecs).room() == old(ecs).room(),
        cues_taken(old(ecs)@, final(ecs)@),
        exists|bs: Seq<Bundle>| #[trigger] listed(bs, old(ecs)@) && cues@ == cues_of(bs, bs.len()),
{
    let l = ecs.listing();
    let mut cues: Vec<SoundCue> = Vec::new();
    let mut rows: Vec<Option<Bundle>> = Vec::new();
    let mut i: usize = 0;
    while i < l.bundles.len()
        invariant
            0 <= i <= l.bundles.len(),
            rows@.len() == i,
            cues@ == cues_of(l.bundles@, i as nat),
            forall|k: int| 0 <= k < l.bundles@.len() ==> (#[trigger] l.bundles@[k]).wf(),
            forall|k: int|
                0 <= k < i ==> #[trigger] rows@[k] == (if l.bundles@[k].sound_cue is Some {
                    None
                } else {
                    Some(l.bundles@[k])
                }),
        decreases l.bundles.len() - i,
    {
        match l.bundles[i].sound_cue {
            Some(c) => {
                cues.push(c);
                rows.push(None);
            },
            None => {
                rows.push(Some(l.bundles[i]));
            },
        }
        i += 1;
    }
    let plan = Plan { rows, spawned: Vec::new() };
    ecs.commit(&l, &plan);
    proof {
        assert(listed(l.bundles@, old(ecs)@));
    }
    cues
}

/// `e` is the one entity of the store that is a ship.
pub open spec fn sole_player(m: Map<specs::Entity, Bundle>, e: specs::Entity) -> bool {
    &&& m.contains_key(e)
    &&& m[e].player is Some
    &&& forall|x: specs::Entity| #[trigger] m.contains_key(x) && m[x].player is Some ==> x == e
}

/// `e` is the one entity of the store that is an asteroid.
pub open spec fn sole_asteroid(m: Map<specs::Entity, Bundle>, e: specs::Entity) -> bool {
    &&& m.contains_key(e)
    &&& m[e].asteroid is Some
    &&& forall|x: specs::Entity| #[trigger] m.contains_key(x) && m[x].asteroid is Some ==> x == e
}

/// `e` is the one entity of the store that has game data.
pub open spec fn sole_game_data(m: Map<specs::Entity, Bundle>, e: specs::Entity) -> bool {
    &&& m.contains_key(e)
    &&& m[e].game_data is Some
    &&& forall|x: specs::Entity| #[trigger] m.contains_key(x) && m[x].game_data is Some ==> x == e
}

/// The store has one ship `p`, one asteroid `a`, which is of size 50 and
/// drawn as large, and one entity with game data `g`, whose score is 0 and
/// whose level is 1.
pub open spec fn holds_new_world(
    m: Map<specs::Entity, Bundle>,
    p: specs::Entity,
    a: specs::Entity,
    g: specs::Entity,
) -> bool {
    &&& sole_player(m, p)
    &&& sole_asteroid(m, a)
    &&& m[a].asteroid->0.size == 50
    &&& m[a].renderable matches Some(r) && r.o_w == 50 && r.o_h == 50
    &&& sole_game_data(m, g)
    &&& m[g].game_data == Some(GameData { score: 0, level: 1 })
}

/// What the game-loop step keeps of an entity: its kinds of component, its
/// asteroid and the size of its picture, and its game data but for the
/// level, which a wave raises.
pub proof fn lemma_tick_row_keeps(b: Bundle, keys: KeyState, wave: bool)
    ensures
        b.same_kind(tick_row(b, keys, wave)),
        tick_row(b, keys, wave).renderable matches Some(r) ==> r.o_w == b.renderable->0.o_w && r.o_h
            == b.renderable->0.o_h,
        tick_row(b, keys, wave).game_data matches Some(g) ==> g.score == b.game_data->0.score
            && g.level == (if wave {
            bumped(b.game_data->0.level)
        } else {
            b.game_data->0.level
        }),
{
    reveal(steered);
}

/// The game-loop step leaves a new world a new world.
proof fn lemma_step_keeps_new_world(
    m1: Map<specs::Entity, Bundle>,
    bs1: Seq<Bundle>,
    keys: KeyState,
    targets: Seq<Position>,
    m2: Map<specs::Entity, Bundle>,
    p: specs::Entity,
    a: specs::Entity,
    g: specs::Entity,
)
    requires
        holds_new_world(m1, p, a, g),
        targets.len() == wave_size(bs1),
        evolves(m1, bs1, tick_rows(bs1, keys), tick_spawned(bs1, keys, targets), m2) || evolves(
            m1,
            bs1,
            tick_rows(bs1, keys),
            Seq::empty(),
            m2,
        ),
    ensures
        holds_new_world(m2, p, a, g),
{
    assert forall|x: specs::Entity| #[trigger] m1.contains_key(x) implies m2.contains_key(x)
        && m1[x].same_kind(m2[x]) && (m2[x].game_data == m1[x].game_data) && (
    m2[x].renderable matches Some(r) ==> r.o_w == m1[x].renderable->0.o_w && r.o_h
        == m1[x].renderable->0.o_h) by {
        lemma_tick_row_keeps(m1[x], keys, false);
    }
}

/// A store is rebuilt where it has no ship. After `update` on a store
/// without a ship and with room for the three entities of a new world,
/// the store has exactly one ship, exactly one asteroid, of size 50, and
/// exactly one entity with game data, at score 0 and level 1, whatever it
/// held before and whatever keys are held.
pub proof fn lemma_update_rebuilds_world(
    before: Map<specs::Entity, Bundle>,
    room: nat,
    keys: KeyState,
    after: Map<specs::Entity, Bundle>,
    keys_out: KeyState,
    left: nat,
)
    requires
        updated(before, room, keys, after, keys_out, left),
        room >= 3,
        forall|e: specs::Entity| #[trigger] before.contains_key(e) ==> before[e].player is None,
    ensures
        exists|p: specs::Entity, a: specs::Entity, g: specs::Entity| #[trigger]
            holds_new_world(after, p, a, g),
{
    let (bs0, m1, bs1, targets, m2) = choose|
        bs0: Seq<Bundle>,
        m1: Map<specs::Entity, Bundle>,
        bs1: Seq<Bundle>,
        targets: Seq<Position>,
        m2: Map<specs::Entity, Bundle>,
    | #[trigger]
        update_trace(before, room, keys, after, keys_out, left, bs0, m1, bs1, targets, m2);
    lemma_listed(bs0, before);
    let f = choose|f: Seq<specs::Entity>| grown_by(Map::empty(), f, world_start(), m1);
    lemma_step_keeps_new_world(m1, bs1, keys, targets, m2, f[0], f[1], f[2]);
    assert(holds_new_world(after, f[0], f[1], f[2]));
}

/// An asteroid of a wave, for a ship at `(fx, fy)`: it is of size
/// `WAVE_ASTEROID_SIZE`, off the margin of the screen and at least
/// `SAFE_DISTANCE` from the ship.
pub open spec fn is_wave_rock(b: Bundle, fx: int, fy: int) -> bool {
    &&& b.position matches Some(t) && spawn_ok(t, fx, fy) && b == asteroid_bundle(
        t,
        WAVE_ASTEROID_SIZE,
    )
}

/// `rocks` are the asteroids of `after`: new entities, each once, a third
/// of `level`, rounded down, and one more of them, each an asteroid of a
/// wave for the ship `p` of `before`.
pub open spec fn is_wave(
    before: Map<specs::Entity, Bundle>,
    after: Map<specs::Entity, Bundle>,
    rocks: Seq<specs::Entity>,
    p: specs::Entity,
    level: int,
) -> bool {
    &&& rocks.len() == level / 3 + 1
    &&& rocks.no_duplicates()
    &&& forall|j: int|
        0 <= j < rocks.len() ==> !before.contains_key(#[trigger] rocks[j]) && after.contains_key(
            rocks[j],
        ) && is_wave_rock(
            after[rocks[j]],
            before[p].position->0.x as int,
            before[p].position->0.y as int,
        )
    &&& forall|x: specs::Entity| #[trigger]
        after.contains_key(x) && after[x].asteroid is Some ==> rocks.contains(x)
}

/// A wave comes where no asteroid is left. Take a store with a ship `p`,
/// its only one, at some position, with game data on one entity `g` only,
/// below the highest level, without an asteroid, and with room for the
/// wave and the thruster cue. After `update` the level of `g` is one
/// higher, and the asteroids of the store are new entities `rocks`, a third
/// of the new level, rounded down, and one more of them, each of size
/// `WAVE_ASTEROID_SIZE`, off the margin of the screen and at least
/// `SAFE_DISTANCE` from where the ship was.
pub proof fn lemma_update_sends_wave(
    before: Map<specs::Entity, Bundle>,
    room: nat,
    keys: KeyState,
    after: Map<specs::Entity, Bundle>,
    keys_out: KeyState,
    left: nat,
    p: specs::Entity,
    g: specs::Entity,
)
    requires
        updated(before, room, keys, after, keys_out, left),
        room >= (before[g].game_data->0.level + 1) / 3 + 2,
        sole_player(before, p),
        before[p].position is Some,
        sole_game_data(before, g),
        before[g].game_data->0.level < u32::MAX,
        forall|e: specs::Entity| #[trigger] before.contains_key(e) ==> before[e].asteroid is None,
    ensures
        after.contains_key(g),
        after[g].game_data matches Some(d) && d.level == before[g].game_data->0.level + 1
            && d.score == before[g].game_data->0.score,
        exists|rocks: Seq<specs::Entity>| #[trigger]
            is_wave(before, after, rocks, p, before[g].game_data->0.level + 1),
{
    let (bs0, m1, bs1, targets, m2) = choose|
        bs0: Seq<Bundle>,
        m1: Map<specs::Entity, Bundle>,
        bs1: Seq<Bundle>,
        targets: Seq<Position>,
        m2: Map<specs::Entity, Bundle>,
    | #[trigger]
        update_trace(before, room, keys, after, keys_out, left, bs0, m1, bs1, targets, m2);
    let level = before[g].game_data->0.level;
    let ip = choose|i: int| 0 <= i < bs0.len() && #[trigger] bs0[i] == before[p];
    let hs0 = choose|hs: Seq<specs::Entity>| #[trigger] lists(hs, bs0, before);
    assert forall|k: int| ip < k < bs0.len() implies !placed_ship(#[trigger] bs0[k]) by {
        if placed_ship(bs0[k]) {
            assert(hs0[k] == p && hs0[ip] == p);
        }
    }
    assert(is_last_placed(bs0, ip));
    let hs1 = choose|hs: Seq<specs::Entity>| #[trigger] lists(hs, bs1, before);
    if has_asteroid(bs1) {
        let i = choose|i: int| 0 <= i < bs1.len() && (#[trigger] bs1[i]).asteroid is Some;
        assert(before.contains_key(hs1[i]) && before[hs1[i]] == bs1[i]);
    }
    let ig = choose|i: int| 0 <= i < bs1.len() && #[trigger] bs1[i] == before[g];
    assert forall|k: int| 0 <= k < bs1.len() && (#[trigger] bs1[k]).game_data is Some implies k
        == ig by {
        assert(hs1[k] == g && hs1[ig] == g);
    }
    assert(is_last_scored(bs1, ig));
    let n = (level + 1) / 3 + 1;
    let rows = tick_rows(bs1, keys);
    let spawned = tick_spawned(bs1, keys, targets);
    lemma_evolved(before, bs1, rows, spawned, m2);
    let fresh = choose|fresh: Seq<specs::Entity>| added(before, fresh, spawned, m2);
    lemma_tick_row_keeps(before[g], keys, true);
    let rocks = fresh.take(n);
    assert forall|x: specs::Entity| #[trigger] m2.contains_key(x) && m2[x].asteroid is Some implies rocks.contains(
        x,
    ) by {
        if before.contains_key(x) {
            lemma_tick_row_keeps(before[x], keys, true);
        } else {
            let j = choose|j: int| 0 <= j < fresh.len() && fresh[j] == x;
            assert(rocks[j] == x);
        }
    }
    assert(is_wave(before, after, rocks, p, level + 1));
}

} // verus!
