//! A wave of asteroids within the tick that sends it: on a store without a
//! missile and with the fire key up, the asteroids of the wave are all
//! there when the tick is over, each one step of its drift from where it
//! appeared.

use vstd::prelude::*;
use crate::asteroid::{drifted};
use crate::components::{Bundle, Position};
use crate::game::{
    asteroid_bundle, has_asteroid, is_wave, lemma_tick_row_keeps, lemma_update_sends_wave,
    sole_game_data, sole_player, spawn_ok, update_trace, updated, WAVE_ASTEROID_SIZE,
};
use crate::missile::{lemma_no_strike, missiles_moved, strike_rows, strike_spawned, struck_out};
use crate::store::{admitted, evolves, lemma_listed};
use crate::tick_trace;
use crate::ticked;
use crate::utils::KeyState;

verus! {

/// `b` is an asteroid of a wave, for a ship at `(fx, fy)`, after one step
/// of its drift.
pub open spec fn is_drifted_rock(b: Bundle, fx: int, fy: int) -> bool {
    exists|t: Position|
        spawn_ok(t, fx, fy) && b == drifted(#[trigger] asteroid_bundle(t, WAVE_ASTEROID_SIZE))
}

/// `rocks` are the asteroids of `after`: new entities, each once, a third
/// of `level`, rounded down, and one more of them, each an asteroid of a
/// wave for the ship `p` of `before` after one step of its drift.
pub open spec fn is_drifted_wave(
    before: Map<specs::Entity, Bundle>,
    after: Map<specs::Entity, Bundle>,
    rocks: Seq<specs::Entity>,
    p: specs::Entity,
    level: int,
) -> bool {
    &&& rocks.len() == level / 3 + 1
    &&& rocks.no_duplicates()
    &&& forall|j: int|
        0 <= j < rocks.len() ==> !before.contains_key(#[trigger] rocks[j]) && after.contains_key(
            rocks[j],
        ) && is_drifted_rock(
            after[rocks[j]],
            before[p].position->0.x as int,
            before[p].position->0.y as int,
        )
    &&& forall|x: specs::Entity| #[trigger]
        after.contains_key(x) && after[x].asteroid is Some ==> rocks.contains(x)
}

/// `update` with the fire key up on a store that has a ship and no missile
/// leaves the store without a missile.
proof fn lemma_update_adds_no_missile(
    before: Map<specs::Entity, Bundle>,
    room: nat,
    keys: KeyState,
    after: Map<specs::Entity, Bundle>,
    keys_out: KeyState,
    left: nat,
    p: specs::Entity,
)
    requires
        updated(before, room, keys, after, keys_out, left),
        sole_player(before, p),
        !keys.fire,
        forall|e: specs::Entity| #[trigger] before.contains_key(e) ==> before[e].missile is None,
    ensures
        forall|e: specs::Entity| #[trigger] after.contains_key(e) ==> after[e].missile is None,
{
    let (bs0, m1, bs1, targets, m2) = choose|
        bs0: Seq<Bundle>,
        m1: Map<specs::Entity, Bundle>,
        bs1: Seq<Bundle>,
        targets: Seq<Position>,
        m2: Map<specs::Entity, Bundle>,
    | #[trigger]
        update_trace(before, room, keys, after, keys_out, left, bs0, m1, bs1, targets, m2);
    assert forall|e: specs::Entity| #[trigger] m2.contains_key(e) implies m2[e].missile is None by {
        if before.contains_key(e) {
            lemma_tick_row_keeps(before[e], keys, !has_asteroid(bs1));
        }
    }
}

/// Where a store has no missile, the flight of the missiles and the
/// collisions leave it as it is.
proof fn lemma_quiet_without_missiles(
    m2: Map<specs::Entity, Bundle>,
    m3: Map<specs::Entity, Bundle>,
    room: nat,
    after: Map<specs::Entity, Bundle>,
    left: nat,
)
    requires
        forall|e: specs::Entity| #[trigger] m2.contains_key(e) ==> m2[e].missile is None,
        missiles_moved(m2, m3),
        struck_out(m3, room, after, left),
    ensures
        after =~= m2,
{
    let bs = choose|bs: Seq<Bundle>| #[trigger]
        evolves(m3, bs, strike_rows(bs), admitted(room, strike_spawned(bs)), after);
    lemma_listed(bs, m3);
    lemma_no_strike(bs);
}

/// A wave is there when its tick is over. Take a store with a ship `p`,
/// its only one, at some position, with game data on one entity `g` only,
/// below the highest level, without an asteroid and without a missile, with
/// room for the wave and the thruster cue, and let the fire key be up.
/// After a tick the level of `g` is one higher, and
/// the asteroids of the store are new entities `rocks`, a third of the new
/// level, rounded down, and one more of them; each appeared as an asteroid
/// of size `WAVE_ASTEROID_SIZE`, off the margin of the screen and at least
/// `SAFE_DISTANCE` from where the ship was, and has drifted one step since.
pub proof fn lemma_tick_sends_wave(
    before: Map<specs::Entity, Bundle>,
    room: nat,
    keys: KeyState,
    after: Map<specs::Entity, Bundle>,
    keys_out: KeyState,
    left: nat,
    p: specs::Entity,
    g: specs::Entity,
)
    requires
        ticked(before, room, keys, after, keys_out, left),
        room >= (before[g].game_data->0.level + 1) / 3 + 2,
        sole_player(before, p),
        before[p].position is Some,
        sole_game_data(before, g),
        before[g].game_data->0.level < u32::MAX,
        forall|e: specs::Entity| #[trigger] before.contains_key(e) ==> before[e].asteroid is None,
        forall|e: specs::Entity| #[trigger] before.contains_key(e) ==> before[e].missile is None,
        !keys.fire,
    ensures
        after.contains_key(g),
        after[g].game_data matches Some(d) && d.level == before[g].game_data->0.level + 1
            && d.score == before[g].game_data->0.score,
        exists|rocks: Seq<specs::Entity>| #[trigger]
            is_drifted_wave(before, after, rocks, p, before[g].game_data->0.level + 1),
{
    let (m1, r1, m2, m3) = choose|
        m1: Map<specs::Entity, Bundle>,
        r1: nat,
        m2: Map<specs::Entity, Bundle>,
        m3: Map<specs::Entity, Bundle>,
    | #[trigger] tick_trace(before, room, keys, after, keys_out, left, m1, r1, m2, m3);
    let level = before[g].game_data->0.level + 1;
    lemma_update_sends_wave(before, room, keys, m1, keys_out, r1, p, g);
    lemma_update_adds_no_missile(before, room, keys, m1, keys_out, r1, p);
    let rocks = choose|rocks: Seq<specs::Entity>| #[trigger] is_wave(before, m1, rocks, p, level);
    lemma_quiet_without_missiles(m2, m3, r1, after, left);
    assert(is_drifted_wave(before, after, rocks, p, level));
}

} // verus!
