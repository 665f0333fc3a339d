//! A store without a ship holds a new world once a tick is over: the
//! steps of the tick, followed one by one from the world that `update`
//! builds.

use vstd::prelude::*;
use crate::asteroid::{asteroids_moved, drifting};
use crate::components::{Bundle, Position, FULL_TURN};
use crate::game::{
    fire_request, game_data_bundle, holds_new_world, pushed, seed_asteroid, ship_bundle, steerable,
    steered, tick_rows, tick_spawned, turned, update_trace, updated, wave_size, world_start,
    ASTEROID_SPEED, IMPULSE_SPEED, MISSILE_SPEED,
};
use crate::geometry::{lemma_step_bound};
use crate::missile::{
    flying, hits, lemma_no_strike, missiles_moved, strike_rows, strike_spawned, struck_out,
};
use crate::store::{admitted, evolves, grown_by, lemma_listed};
use crate::tick_trace;
use crate::ticked;
use crate::utils::KeyState;

verus! {

/// A position within `reach` of the point `(x, y)` on either axis, its
/// rotation within one turn.
pub open spec fn near(q: Position, x: int, y: int, reach: int) -> bool {
    &&& x - reach <= q.x <= x + reach
    &&& y - reach <= q.y <= y + reach
    &&& 0 <= q.rot < FULL_TURN
}

/// The store holds a new world in its first tick: a ship `p`, the first
/// asteroid `a`, within `rock_reach` of where it began, and the game data
/// `g`, none of them a missile, and every missile has the speed of a
/// missile and is within `shot_reach` of where the ship began.
pub open spec fn settled(
    m: Map<specs::Entity, Bundle>,
    p: specs::Entity,
    a: specs::Entity,
    g: specs::Entity,
    rock_reach: int,
    shot_reach: int,
) -> bool {
    &&& holds_new_world(m, p, a, g)
    &&& m[p].missile is None
    &&& m[g].missile is None
    &&& m[a].missile is None
    &&& m[a].asteroid->0.speed == ASTEROID_SPEED
    &&& m[a].position matches Some(q) && near(q, 400_000, 235_000, rock_reach)
    &&& forall|x: specs::Entity| #[trigger]
        m.contains_key(x) && m[x].missile is Some ==> m[x].missile->0.speed == MISSILE_SPEED && (
        m[x].position matches Some(q) ==> near(q, 350_000, 250_000, shot_reach))
}

/// The ship of a new world after its first step is within three units of
/// where it began, and still a ship and nothing else.
proof fn lemma_first_step(keys: KeyState)
    ensures
        steerable(ship_bundle()),
        steered(ship_bundle(), keys).position matches Some(q) && near(q, 350_000, 250_000, 3000),
        ship_bundle().same_kind(steered(ship_bundle(), keys)),
{
    reveal(steered);
    let b = ship_bundle();
    let rot = turned(0, keys);
    lemma_step_bound(IMPULSE_SPEED as int, rot);
    let pl = pushed(b.player->0, rot, keys);
    let ix = pl.impulse.x as int;
    let iy = pl.impulse.y as int;
    assert(ix * ix + iy * iy <= 6000 * 6000) by (nonlinear_arith)
        requires
            -3000 <= ix <= 3000,
            -3000 <= iy <= 3000,
    ;
}

/// The game-loop step on a new world: the ship is steered, the asteroid
/// and the game data stay as they are, no missile is there yet, and a shot
/// is asked for from within three units of where the ship began.
proof fn lemma_step_settled(
    w: Map<specs::Entity, Bundle>,
    bs1: Seq<Bundle>,
    keys: KeyState,
    targets: Seq<Position>,
    m2: Map<specs::Entity, Bundle>,
    p: specs::Entity,
    a: specs::Entity,
    g: specs::Entity,
)
    requires
        settled(w, p, a, g, 0, 0),
        w[p] == ship_bundle(),
        w[a] == seed_asteroid(),
        w[g] == game_data_bundle(),
        forall|x: specs::Entity| #[trigger] w.contains_key(x) ==> x == p || x == a || x == g,
        targets.len() == wave_size(bs1),
        evolves(w, bs1, tick_rows(bs1, keys), tick_spawned(bs1, keys, targets), m2) || evolves(
            w,
            bs1,
            tick_rows(bs1, keys),
            Seq::empty(),
            m2,
        ),
    ensures
        settled(m2, p, a, g, 0, 3000),
        fire_request(bs1, keys) matches Some(at) ==> near(at, 350_000, 250_000, 3000),
{
    lemma_listed(bs1, w);
    lemma_first_step(keys);
}

/// After `update` on a store without a ship the store holds a new world
/// in its first tick.
proof fn lemma_update_settles(
    before: Map<specs::Entity, Bundle>,
    room: nat,
    keys: KeyState,
    after: Map<specs::Entity, Bundle>,
    keys_out: KeyState,
    left: nat,
) -> (r: (specs::Entity, specs::Entity, specs::Entity))
    requires
        updated(before, room, keys, after, keys_out, left),
        room >= 3,
        forall|e: specs::Entity| #[trigger] before.contains_key(e) ==> before[e].player is None,
    ensures
        settled(after, r.0, r.1, r.2, 0, 3000),
{
    let (bs0, m1, bs1, targets, m2) = choose|
        bs0: Seq<Bundle>,
        m1: Map<specs::Entity, Bundle>,
        bs1: Seq<Bundle>,
        targets: Seq<Position>,
        m2: Map<specs::Entity, Bundle>,
    | #[trigger]
        update_trace(before, room, keys, after, keys_out, left, bs0, m1, bs1, targets, m2);
    lemma_listed(bs0, before);
    let f = choose|f: Seq<specs::Entity>| grown_by(Map::empty(), f, world_start(), m1);
    lemma_step_settled(m1, bs1, keys, targets, m2, f[0], f[1], f[2]);
    (f[0], f[1], f[2])
}

/// The drift of the asteroids in the first tick takes the asteroid no
/// further than its speed and leaves the rest as it is.
proof fn lemma_drift_settled(
    m1: Map<specs::Entity, Bundle>,
    m2: Map<specs::Entity, Bundle>,
    p: specs::Entity,
    a: specs::Entity,
    g: specs::Entity,
)
    requires
        settled(m1, p, a, g, 0, 3000),
        asteroids_moved(m1, m2),
    ensures
        settled(m2, p, a, g, 2500, 3000),
{
    let rock = m1[a];
    let q = rock.position->0;
    lemma_step_bound(ASTEROID_SPEED as int, q.rot as int);
}

/// The flight of the missiles in the first tick takes a missile no further
/// than its speed, or off the store, and leaves the rest as it is.
proof fn lemma_flight_settled(
    m2: Map<specs::Entity, Bundle>,
    m3: Map<specs::Entity, Bundle>,
    p: specs::Entity,
    a: specs::Entity,
    g: specs::Entity,
)
    requires
        settled(m2, p, a, g, 2500, 3000),
        missiles_moved(m2, m3),
    ensures
        settled(m3, p, a, g, 2500, 8000),
{
    assert forall|x: specs::Entity| #[trigger] m3.contains_key(x) && m3[x].missile is Some implies m3[x].missile->0.speed
        == MISSILE_SPEED && (m3[x].position matches Some(q) ==> near(q, 350_000, 250_000, 8000)) by {
        let b = m2[x];
        if flying(b) {
            let q = b.position->0;
            lemma_step_bound(MISSILE_SPEED as int, q.rot as int);
        }
    }
}

/// In the first tick no missile reaches the asteroid, so the collisions
/// leave the store as it is.
proof fn lemma_strike_settled(
    m3: Map<specs::Entity, Bundle>,
    room: nat,
    after: Map<specs::Entity, Bundle>,
    left: nat,
    p: specs::Entity,
    a: specs::Entity,
    g: specs::Entity,
)
    requires
        settled(m3, p, a, g, 2500, 8000),
        struck_out(m3, room, after, left),
    ensures
        holds_new_world(after, p, a, g),
{
    let bs = choose|bs: Seq<Bundle>| #[trigger]
        evolves(m3, bs, strike_rows(bs), admitted(room, strike_spawned(bs)), after);
    lemma_listed(bs, m3);
    assert forall|i: int, j: int|
        0 <= i < bs.len() && 0 <= j < bs.len() && drifting(#[trigger] bs[i]) && flying(
            #[trigger] bs[j],
        ) implies !hits(bs[i], bs[j]) by {
        let rock = bs[i].position->0;
        let shot = bs[j].position->0;
        let dx = rock.x - shot.x;
        let dy = rock.y - shot.y;
        assert(dx * dx + dy * dy >= 25_000 * 25_000) by (nonlinear_arith)
            requires
                dx >= 39_500,
        ;
    }
    lemma_no_strike(bs);
}

/// A world without a ship is rebuilt within the tick. After a tick on a
/// store without a ship and with room for the three entities of a new
/// world, the store has exactly one ship, exactly one asteroid, of size 50,
/// and exactly one entity with game data, at score 0 and level 1, whatever
/// it held before and whatever keys are held.
pub proof fn lemma_tick_rebuilds_world(
    before: Map<specs::Entity, Bundle>,
    room: nat,
    keys: KeyState,
    after: Map<specs::Entity, Bundle>,
    keys_out: KeyState,
    left: nat,
)
    requires
        ticked(before, room, keys, after, keys_out, left),
        room >= 3,
        forall|e: specs::Entity| #[trigger] before.contains_key(e) ==> before[e].player is None,
    ensures
        exists|p: specs::Entity, a: specs::Entity, g: specs::Entity| #[trigger]
            holds_new_world(after, p, a, g),
{
    let (m1, r1, m2, m3) = choose|
        m1: Map<specs::Entity, Bundle>,
        r1: nat,
        m2: Map<specs::Entity, Bundle>,
        m3: Map<specs::Entity, Bundle>,
    | #[trigger] tick_trace(before, room, keys, after, keys_out, left, m1, r1, m2, m3);
    let (p, a, g) = lemma_update_settles(before, room, keys, m1, keys_out, r1);
    lemma_drift_settled(m1, m2, p, a, g);
    lemma_flight_settled(m2, m3, p, a, g);
    lemma_strike_settled(m3, r1, after, left, p, a, g);
}

} // verus!
