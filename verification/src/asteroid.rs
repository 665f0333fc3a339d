//! Asteroids: their drift across the screen.

use vstd::prelude::*;
use crate::components::{Bundle, Position, Renderable, FULL_TURN};
use crate::geometry::{normalize_angle, step, step_x, step_y, wrap, wrapped};
use crate::store::{EntityStore, Plan};
use crate::{FIELD_HEIGHT, FIELD_WIDTH};

verus! {

/// The system that moves the asteroids.
pub struct AsteroidMover;

/// An asteroid that drifts: it has a position and a picture.
pub open spec fn drifting(b: Bundle) -> bool {
    b.asteroid is Some && b.position is Some && b.renderable is Some
}

/// What a tick of drift makes of an entity. A drifting asteroid moves its
/// speed further along the rotation of its position, which stays as it is,
/// and comes back in at the other side where it leaves the screen; its
/// picture spins by its spin. Any other entity is left as it is.
pub open spec fn drifted(b: Bundle) -> Bundle {
    if drifting(b) {
        let p = b.position->0;
        let a = b.asteroid->0;
        Bundle {
            position: Some(
                Position {
                    x: wrapped(p.x + step_x(a.speed as int, p.rot as int), FIELD_WIDTH as int) as i64,
                    y: wrapped(p.y + step_y(a.speed as int, p.rot as int), FIELD_HEIGHT as int) as i64,
                    rot: p.rot,
                },
            ),
            renderable: Some(
                Renderable {
                    rot: wrapped(b.renderable->0.rot + a.rot_speed, FULL_TURN as int) as i64,
                    ..b.renderable->0
                },
            ),
            ..b
        }
    } else {
        b
    }
}

/// The plan of a tick of drift for a listing; no entity is deleted.
pub open spec fn asteroid_rows(bs: Seq<Bundle>) -> Seq<Option<Bundle>> {
    Seq::new(bs.len(), |i: int| Some(drifted(bs[i])))
}

/// What a tick of drift does to a store: each entity becomes what
/// `drifted` makes of it; none is added and none leaves.
pub open spec fn asteroids_moved(
    before: Map<specs::Entity, Bundle>,
    after: Map<specs::Entity, Bundle>,
) -> bool {
    &&& forall|e: specs::Entity| #[trigger]
        before.contains_key(e) ==> after.contains_key(e) && after[e] == drifted(before[e])
    &&& forall|e: specs::Entity| #[trigger] after.contains_key(e) ==> before.contains_key(e)
}

/// One entity through a tick of drift.
fn move_asteroid(b: Bundle) -> (r: Bundle)
    requires
        b.wf(),
    ensures
        r == drifted(b),
        r.wf(),
        b.same_kind(r),
{
    if b.asteroid.is_some() && b.position.is_some() && b.renderable.is_some() {
        let p = b.position.unwrap();
        let a = b.asteroid.unwrap();
        let mut rend = b.renderable.unwrap();
        let d = step(a.speed, p.rot);
        let x: i64 = wrap(p.x + d.0, FIELD_WIDTH);
        let y: i64 = wrap(p.y + d.1, FIELD_HEIGHT);
        rend.rot = normalize_angle(rend.rot + a.rot_speed);
        let mut r = b;
        r.position = Some(Position { x, y, rot: p.rot });
        r.renderable = Some(rend);
        r
    } else {
        b
    }
}

/// Plans a tick of drift on a listing.
pub fn plan_asteroids(bs: &Vec<Bundle>) -> (plan: Plan)
    requires
        forall|i: int| 0 <= i < bs@.len() ==> (#[trigger] bs@[i]).wf(),
    ensures
        plan.rows@ == asteroid_rows(bs@),
        plan.spawned@ == Seq::<Bundle>::empty(),
        plan.fits(bs@),
{
    let mut rows: Vec<Option<Bundle>> = Vec::new();
    let mut i: usize = 0;
    while i < bs.len()
        invariant
            0 <= i <= bs.len(),
            rows@.len() == i,
            forall|k: int| 0 <= k < bs@.len() ==> (#[trigger] bs@[k]).wf(),
            forall|k: int| 0 <= k < i ==> #[trigger] rows@[k] == Some(drifted(bs@[k])),
            forall|k: int|
                0 <= k < i ==> (#[trigger] rows@[k] matches Some(n) ==> n.wf()
                    && bs@[k].same_kind(n)),
        decreases bs.len() - i,
    {
        rows.push(Some(move_asteroid(bs[i])));
        i += 1;
    }
    Plan { rows, spawned: Vec::new() }
}

impl AsteroidMover {
    /// Moves every asteroid by a tick.
    pub fn run(&mut self, ecs: &mut EntityStore)
        requires
            old(ecs).wf(),
        ensures
            final(ecs).wf(),
            final(ecs).room() == old(ecs).room(),
            asteroids_moved(old(ecs)@, final(ecs)@),
    {
        let l = ecs.listing();
        let plan = plan_asteroids(&l.bundles);
        ecs.commit(&l, &plan);
    }
}

} // verus!
