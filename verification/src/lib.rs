//! The simulation core of an asteroids game: a ship, rocks and missiles as
//! entities with components, advanced one tick at a time.

use vstd::prelude::*;
use crate::asteroid::{asteroids_moved, AsteroidMover};
use crate::components::Bundle;
use crate::game::{update, updated};
use crate::missile::{missiles_moved, struck_out, MissileMover, MissileStriker};
use crate::store::EntityStore;
use crate::utils::KeyState;

pub mod asteroid;
pub mod components;
pub mod game;
pub mod geometry;
pub mod missile;
pub mod rebuild;
pub mod render;
pub mod store;
pub mod utils;
pub mod wave;

verus! {

/// The width of the screen in whole screen units.
pub const SCREEN_WIDTH: u32 = 800;

/// The height of the screen in whole screen units.
pub const SCREEN_HEIGHT: u32 = 600;

/// The width of the screen in the thousandths that coordinates count.
pub const FIELD_WIDTH: i64 = 800_000;

/// The height of the screen in the thousandths that coordinates count.
pub const FIELD_HEIGHT: i64 = 600_000;

/// What outlives a single game: the best score seen so far.
pub struct GameState {
    highscore: u32,
}

impl View for GameState {
    type V = u32;

    closed spec fn view(&self) -> u32 {
        self.highscore
    }
}

impl GameState {
    /// A state with no score recorded yet.
    pub fn new() -> (s: GameState)
        ensures
            s@ == 0,
    {
        GameState { highscore: 0 }
    }

    /// The best score recorded.
    pub fn highscore(&self) -> (h: u32)
        ensures
            h == self@,
    {
        self.highscore
    }

    /// Takes note of a score: the high score becomes the larger of the two.
    pub fn record(&mut self, score: u32)
        ensures
            final(self)@ == if score > old(self)@ { score } else { old(self)@ },
    {
        if score > self.highscore {
            self.highscore = score;
        }
    }
}

/// One run of `tick` on a store with room for `room` more entities, with
/// what it passes through: the game-loop step leads from `before` to `m1`,
/// which has room for `r1` more, the drift of the asteroids to `m2`, the
/// flight of the missiles to `m3`, and the collisions to `after`, which has
/// room for `left` more.
pub open spec fn tick_trace(
    before: Map<specs::Entity, Bundle>,
    room: nat,
    keys: KeyState,
    after: Map<specs::Entity, Bundle>,
    keys_out: KeyState,
    left: nat,
    m1: Map<specs::Entity, Bundle>,
    r1: nat,
    m2: Map<specs::Entity, Bundle>,
    m3: Map<specs::Entity, Bundle>,
) -> bool {
    &&& updated(before, room, keys, m1, keys_out, r1)
    &&& asteroids_moved(m1, m2)
    &&& missiles_moved(m2, m3)
    &&& struck_out(m3, r1, after, left)
}

/// What a tick does to a store with room for `room` more entities and to
/// the keys; `left` is the room it leaves.
pub open spec fn ticked(
    before: Map<specs::Entity, Bundle>,
    room: nat,
    keys: KeyState,
    after: Map<specs::Entity, Bundle>,
    keys_out: KeyState,
    left: nat,
) -> bool {
    exists|
        m1: Map<specs::Entity, Bundle>,
        r1: nat,
        m2: Map<specs::Entity, Bundle>,
        m3: Map<specs::Entity, Bundle>,
    | #[trigger]
        tick_trace(before, room, keys, after, keys_out, left, m1, r1, m2, m3)
}

/// One tick of the game: the game-loop step, then the asteroids and the
/// missiles move, and then, with all of them where the tick has brought
/// them, the missiles destroy the asteroids they have reached.
pub fn tick(ecs: &mut EntityStore, key_manager: &mut KeyState)
    requires
        old(ecs).wf(),
    ensures
        final(ecs).wf(),
        ticked(
            old(ecs)@,
            old(ecs).room(),
            *old(key_manager),
            final(ecs)@,
            *final(key_manager),
            final(ecs).room(),
        ),
{
    update(ecs, key_manager);
    let ghost m1 = ecs@;
    let ghost r1 = ecs.room();
    let mut drift = AsteroidMover;
    drift.run(ecs);
    let ghost m2 = ecs@;
    let mut flight = MissileMover;
    flight.run(ecs);
    let ghost m3 = ecs@;
    let mut strike = MissileStriker;
    strike.run(ecs);
    assert(tick_trace(
        old(ecs)@,
        old(ecs).room(),
        *old(key_manager),
        ecs@,
        *key_manager,
        ecs.room(),
        m1,
        r1,
        m2,
        m3,
    ));
}

} // verus!
