//! Missiles: their flight, and what happens where one meets an asteroid.

use vstd::prelude::*;
use crate::asteroid::drifting;
use crate::components::{Bundle, GameData, PendingAsteroid, Position, Renderable, FULL_TURN};
use crate::game::{asteroid_bundle, make_asteroid};
use crate::geometry::{dist_sq, normalize_angle, step, step_x, step_y, within, wrapped};
use crate::store::{
    added, admitted, evolves, lemma_evolved, lists, room_after, EntityStore, Plan,
};
use crate::{FIELD_HEIGHT, FIELD_WIDTH};

verus! {

/// The system that moves the missiles.
pub struct MissileMover;

/// The system that lets missiles destroy asteroids.
pub struct MissileStriker;

/// A missile that flies: it has a position and a picture.
pub open spec fn flying(b: Bundle) -> bool {
    b.missile is Some && b.position is Some && b.renderable is Some
}

/// A point of the screen, its edges included.
pub open spec fn on_screen(x: int, y: int) -> bool {
    0 <= x <= FIELD_WIDTH && 0 <= y <= FIELD_HEIGHT
}

/// Where a flying missile is after a tick: its speed further along its
/// rotation.
pub open spec fn flown(b: Bundle) -> (int, int) {
    let p = b.position->0;
    let speed = b.missile->0.speed;
    (p.x + step_x(speed as int, p.rot as int), p.y + step_y(speed as int, p.rot as int))
}

/// What a tick of flight makes of an entity. A flying missile moves on; it
/// is gone where that takes it off the screen, else its picture is turned
/// the way it points. Any other entity is left as it is.
pub open spec fn missile_row(b: Bundle) -> Option<Bundle> {
    if flying(b) {
        let (x, y) = flown(b);
        if on_screen(x, y) {
            Some(
                Bundle {
                    position: Some(Position { x: x as i64, y: y as i64, rot: b.position->0.rot }),
                    renderable: Some(Renderable { rot: b.position->0.rot, ..b.renderable->0 }),
                    ..b
                },
            )
        } else {
            None
        }
    } else {
        Some(b)
    }
}

/// The plan of a tick of flight for a listing.
pub open spec fn missile_rows(bs: Seq<Bundle>) -> Seq<Option<Bundle>> {
    Seq::new(bs.len(), |i: int| missile_row(bs[i]))
}

/// What a tick of flight does to a store: each entity becomes what
/// `missile_row` makes of it, and none is added.
pub open spec fn missiles_moved(
    before: Map<specs::Entity, Bundle>,
    after: Map<specs::Entity, Bundle>,
) -> bool {
    &&& forall|e: specs::Entity| #[trigger]
        before.contains_key(e) ==> match missile_row(before[e]) {
            Some(b) => after.contains_key(e) && after[e] == b,
            None => !after.contains_key(e),
        }
    &&& forall|e: specs::Entity| #[trigger] after.contains_key(e) ==> before.contains_key(e)
}

/// One entity through a tick of flight.
fn move_missile(b: Bundle) -> (r: Option<Bundle>)
    requires
        b.wf(),
    ensures
        r == missile_row(b),
        r matches Some(n) ==> n.wf() && b.same_kind(n),
{
    if b.missile.is_some() && b.position.is_some() && b.renderable.is_some() {
        let p = b.position.unwrap();
        let mut rend = b.renderable.unwrap();
        let d = step(b.missile.unwrap().speed, p.rot);
        let x: i64 = p.x + d.0;
        let y: i64 = p.y + d.1;
        if x > FIELD_WIDTH || x < 0 || y > FIELD_HEIGHT || y < 0 {
            None
        } else {
            rend.rot = p.rot;
            let mut n = b;
            n.position = Some(Position { x, y, rot: p.rot });
            n.renderable = Some(rend);
            Some(n)
        }
    } else {
        Some(b)
    }
}

/// Plans a tick of flight on a listing.
pub fn plan_missiles(bs: &Vec<Bundle>) -> (plan: Plan)
    requires
        forall|i: int| 0 <= i < bs@.len() ==> (#[trigger] bs@[i]).wf(),
    ensures
        plan.rows@ == missile_rows(bs@),
        plan.spawned@ == Seq::<Bundle>::empty(),
        plan.fits(bs@),
{
    let mut rows: Vec<Option<Bundle>> = Vec::new();
    let mut i: usize = 0;
    while i < bs.len()
        invariant
            0 <= i <= bs.len(),
            rows@.len() == i,
            forall|k: int| 0 <= k < bs@.len() ==> (#[trigger] bs@[k]).wf(),
            forall|k: int| 0 <= k < i ==> #[trigger] rows@[k] == missile_row(bs@[k]),
            forall|k: int|
                0 <= k < i ==> (#[trigger] rows@[k] matches Some(n) ==> n.wf()
                    && bs@[k].same_kind(n)),
        decreases bs.len() - i,
    {
        rows.push(move_missile(bs[i]));
        i += 1;
    }
    Plan { rows, spawned: Vec::new() }
}

impl MissileMover {
    /// Moves every missile by a tick and deletes those that leave the
    /// screen.
    pub fn run(&mut self, ecs: &mut EntityStore)
        requires
            old(ecs).wf(),
        ensures
            final(ecs).wf(),
            final(ecs).room() == old(ecs).room(),
            missiles_moved(old(ecs)@, final(ecs)@),
    {
        let l = ecs.listing();
        let plan = plan_missiles(&l.bundles);
        ecs.commit(&l, &plan);
    }
}

/// The size below which the halves of an asteroid are not kept.
pub const MIN_SPLIT_SIZE: u32 = 25;

/// What a destroyed asteroid adds to the score.
pub const KILL_SCORE: u32 = 10;

/// Whether missile `m` is within the asteroid `a`: their centres are
/// closer than half the width the asteroid is drawn with.
pub open spec fn hits(a: Bundle, m: Bundle) -> bool {
    dist_sq(
        a.position->0.x as int,
        a.position->0.y as int,
        m.position->0.x as int,
        m.position->0.y as int,
    ) < (a.renderable->0.o_w * 500) * (a.renderable->0.o_w * 500)
}

/// Entities `a` and `m` of a listing are an asteroid and a missile within
/// it.
pub open spec fn in_range(bs: Seq<Bundle>, a: int, m: int) -> bool {
    &&& 0 <= a < bs.len()
    &&& 0 <= m < bs.len()
    &&& drifting(bs[a])
    &&& flying(bs[m])
    &&& hits(bs[a], bs[m])
}

/// Entity `a` is an asteroid that some missile is within.
pub open spec fn is_hit(bs: Seq<Bundle>, a: int) -> bool {
    exists|m: int| #[trigger] in_range(bs, a, m)
}

/// Entity `m` is a missile that is within some asteroid.
pub open spec fn has_hit(bs: Seq<Bundle>, m: int) -> bool {
    exists|a: int| #[trigger] in_range(bs, a, m)
}

/// Entity `i` is destroyed by a pass of collisions: it is an asteroid that
/// a missile is within, or a missile that is within an asteroid.
pub open spec fn destroyed(bs: Seq<Bundle>, i: int) -> bool {
    is_hit(bs, i) || has_hit(bs, i)
}

/// How many of the first `n` entities of the listing are missiles within
/// asteroid `a`.
pub open spec fn strikes_on(bs: Seq<Bundle>, a: int, n: nat) -> nat
    decreases n,
{
    if n == 0 {
        0
    } else if in_range(bs, a, n - 1) {
        strikes_on(bs, a, (n - 1) as nat) + 1
    } else {
        strikes_on(bs, a, (n - 1) as nat)
    }
}

/// How many pairs of an asteroid and a missile within it the listing has,
/// the asteroid among its first `n` entities.
pub open spec fn pairs(bs: Seq<Bundle>, n: nat) -> nat
    decreases n,
{
    if n == 0 {
        0
    } else {
        pairs(bs, (n - 1) as nat) + strikes_on(bs, n - 1, bs.len())
    }
}

/// The asteroids that a destroyed one leaves: two of half its width at
/// its place, turned a quarter turn to either side, where half its width is
/// at least `MIN_SPLIT_SIZE`, and none otherwise.
pub open spec fn children(b: Bundle) -> Seq<PendingAsteroid> {
    let p = b.position->0;
    let size = b.renderable->0.o_w / 2;
    if size >= MIN_SPLIT_SIZE {
        seq![
            PendingAsteroid { x: p.x, y: p.y, rot: (p.rot - 90_000) as i64, size },
            PendingAsteroid { x: p.x, y: p.y, rot: (p.rot + 90_000) as i64, size },
        ]
    } else {
        Seq::empty()
    }
}

/// The asteroids staged by the first `n` entities of the listing: the
/// children of each asteroid among them that a missile is within, once for
/// each such asteroid, in the order of the listing.
pub open spec fn debris(bs: Seq<Bundle>, n: nat) -> Seq<PendingAsteroid>
    decreases n,
{
    if n == 0 {
        Seq::empty()
    } else if is_hit(bs, n - 1) {
        debris(bs, (n - 1) as nat) + children(bs[n - 1])
    } else {
        debris(bs, (n - 1) as nat)
    }
}

/// A score, held to what the score field can take.
pub open spec fn capped(n: int) -> u32 {
    if n > u32::MAX {
        u32::MAX
    } else {
        n as u32
    }
}

/// What a pass of collisions makes of an entity: it is gone where it was
/// destroyed, and game data has the gain added to its score.
pub open spec fn strike_row(b: Bundle, dead: bool, gain: int) -> Option<Bundle> {
    if dead {
        None
    } else if b.game_data is Some {
        Some(
            Bundle {
                game_data: Some(
                    GameData {
                        score: capped(b.game_data->0.score + gain),
                        ..b.game_data->0
                    },
                ),
                ..b
            },
        )
    } else {
        Some(b)
    }
}

/// The entities of a listing after a pass of collisions: every asteroid
/// with a missile within it and every missile within an asteroid is gone,
/// and the score has gained `KILL_SCORE` for each pair of them.
pub open spec fn strike_rows(bs: Seq<Bundle>) -> Seq<Option<Bundle>> {
    Seq::new(
        bs.len(),
        |i: int| strike_row(bs[i], destroyed(bs, i), KILL_SCORE * pairs(bs, bs.len())),
    )
}

/// The asteroid that a staged one becomes, its rotation brought into one
/// turn.
pub open spec fn materialized(p: PendingAsteroid) -> Bundle {
    asteroid_bundle(
        Position { x: p.x, y: p.y, rot: wrapped(p.rot as int, FULL_TURN as int) as i64 },
        p.size,
    )
}

/// The asteroids that staged ones become.
pub open spec fn materialized_all(ps: Seq<PendingAsteroid>) -> Seq<Bundle> {
    Seq::new(ps.len(), |j: int| materialized(ps[j]))
}

/// The asteroids that a pass of collisions creates.
pub open spec fn strike_spawned(bs: Seq<Bundle>) -> Seq<Bundle> {
    materialized_all(debris(bs, bs.len()))
}

/// What a pass of collisions does to a store with room for `room` more
/// entities, for some listing of it; the asteroids are created where the
/// store has room for all of them, and `left` is the room it then has.
pub open spec fn struck_out(
    before: Map<specs::Entity, Bundle>,
    room: nat,
    after: Map<specs::Entity, Bundle>,
    left: nat,
) -> bool {
    exists|bs: Seq<Bundle>| #[trigger]
        evolves(before, bs, strike_rows(bs), admitted(room, strike_spawned(bs)), after) && left
            == room_after(room, strike_spawned(bs))
}

/// Whether missile `m` is within asteroid `a`.
fn pair_in_range(bs: &Vec<Bundle>, a: usize, m: usize) -> (r: bool)
    requires
        a < bs@.len(),
        m < bs@.len(),
        forall|i: int| 0 <= i < bs@.len() ==> (#[trigger] bs@[i]).wf(),
    ensures
        r == in_range(bs@, a as int, m as int),
{
    assert(bs@[a as int].wf() && bs@[m as int].wf());
    if bs[a].asteroid.is_some() && bs[a].renderable.is_some() && bs[m].missile.is_some()
        && bs[m].renderable.is_some() {
        match (bs[a].position, bs[m].position) {
            (Some(ap), Some(mp)) => {
                let reach: u64 = bs[a].renderable.unwrap().o_w as u64 * 500;
                within(ap.x, ap.y, mp.x, mp.y, reach)
            },
            _ => false,
        }
    } else {
        false
    }
}

/// Adds to `score` what the missiles within asteroid `a` are worth, and
/// says whether there is one.
fn strike_asteroid(bs: &Vec<Bundle>, a: usize, score: u32) -> (r: (u32, bool))
    requires
        a < bs@.len(),
        forall|i: int| 0 <= i < bs@.len() ==> (#[trigger] bs@[i]).wf(),
    ensures
        r.0 == capped(score + KILL_SCORE * strikes_on(bs@, a as int, bs@.len())),
        r.1 == is_hit(bs@, a as int),
{
    let mut total: u32 = score;
    let mut hit = false;
    let mut m: usize = 0;
    while m < bs.len()
        invariant
            0 <= m <= bs.len(),
            a < bs@.len(),
            forall|i: int| 0 <= i < bs@.len() ==> (#[trigger] bs@[i]).wf(),
            total == capped(score + KILL_SCORE * strikes_on(bs@, a as int, m as nat)),
            hit == exists|k: int| 0 <= k < m && #[trigger] in_range(bs@, a as int, k),
        decreases bs.len() - m,
    {
        if pair_in_range(bs, a, m) {
            hit = true;
            total = if total <= u32::MAX - KILL_SCORE {
                total + KILL_SCORE
            } else {
                u32::MAX
            };
        }
        m += 1;
    }
    (total, hit)
}

/// Whether missile `m` is within some asteroid.
fn hits_any(bs: &Vec<Bundle>, m: usize) -> (r: bool)
    requires
        m < bs@.len(),
        forall|i: int| 0 <= i < bs@.len() ==> (#[trigger] bs@[i]).wf(),
    ensures
        r == has_hit(bs@, m as int),
{
    let mut a: usize = 0;
    while a < bs.len()
        invariant
            0 <= a <= bs.len(),
            m < bs@.len(),
            forall|i: int| 0 <= i < bs@.len() ==> (#[trigger] bs@[i]).wf(),
            forall|k: int| 0 <= k < a ==> !#[trigger] in_range(bs@, k, m as int),
        decreases bs.len() - a,
    {
        if pair_in_range(bs, a, m) {
            return true;
        }
        a += 1;
    }
    false
}

/// Plans a pass of collisions on a listing.
pub fn plan_strike(bs: &Vec<Bundle>) -> (plan: Plan)
    requires
        forall|i: int| 0 <= i < bs@.len() ==> (#[trigger] bs@[i]).wf(),
    ensures
        plan.rows@ == strike_rows(bs@),
        plan.spawned@ == strike_spawned(bs@),
        plan.fits(bs@),
{
    let n = bs.len();
    let mut pending: Vec<PendingAsteroid> = Vec::new();
    let mut hit: Vec<bool> = Vec::new();
    let mut score: u32 = 0;
    let mut a: usize = 0;
    while a < n
        invariant
            0 <= a <= n,
            n == bs@.len(),
            hit@.len() == a,
            forall|k: int| 0 <= k < a ==> #[trigger] hit@[k] == is_hit(bs@, k),
            pending@ == debris(bs@, a as nat),
            score == capped(KILL_SCORE * pairs(bs@, a as nat)),
            forall|k: int| 0 <= k < bs@.len() ==> (#[trigger] bs@[k]).wf(),
            forall|k: int|
                0 <= k < pending@.len() ==> -1_000_000_000 <= (#[trigger] pending@[k]).x
                    <= 1_000_000_000 && -1_000_000_000 <= pending@[k].y <= 1_000_000_000,
        decreases n - a,
    {
        let ghost staged = pending@;
        assert(bs@[a as int].wf());
        let (total, struck) = strike_asteroid(bs, a, score);
        score = total;
        hit.push(struck);
        if struck {
            let p = bs[a].position.unwrap();
            let size: u32 = bs[a].renderable.unwrap().o_w / 2;
            if size >= MIN_SPLIT_SIZE {
                pending.push(PendingAsteroid { x: p.x, y: p.y, rot: p.rot - 90_000, size });
                pending.push(PendingAsteroid { x: p.x, y: p.y, rot: p.rot + 90_000, size });
            }
            assert(pending@ =~= staged + children(bs@[a as int]));
        }
        a += 1;
    }
    let mut rows: Vec<Option<Bundle>> = Vec::new();
    let mut i: usize = 0;
    while i < n
        invariant
            0 <= i <= n,
            n == bs@.len(),
            hit@.len() == n,
            forall|k: int| 0 <= k < n ==> #[trigger] hit@[k] == is_hit(bs@, k),
            rows@.len() == i,
            forall|k: int| 0 <= k < bs@.len() ==> (#[trigger] bs@[k]).wf(),
            forall|k: int|
                0 <= k < i ==> #[trigger] rows@[k] == strike_row(
                    bs@[k],
                    destroyed(bs@, k),
                    score as int,
                ),
            forall|k: int|
                0 <= k < i ==> (#[trigger] rows@[k] matches Some(b) ==> b.wf()
                    && bs@[k].same_kind(b)),
        decreases n - i,
    {
        assert(bs@[i as int].wf());
        let mut b = bs[i];
        if hit[i] || hits_any(bs, i) {
            rows.push(None);
        } else {
            if let Some(g) = b.game_data {
                let total: u32 = if g.score <= u32::MAX - score {
                    g.score + score
                } else {
                    u32::MAX
                };
                b.game_data = Some(GameData { score: total, level: g.level });
            }
            rows.push(Some(b));
        }
        i += 1;
    }
    let mut spawned: Vec<Bundle> = Vec::new();
    let mut j: usize = 0;
    while j < pending.len()
        invariant
            0 <= j <= pending.len(),
            spawned@.len() == j,
            forall|k: int|
                0 <= k < pending@.len() ==> -1_000_000_000 <= (#[trigger] pending@[k]).x
                    <= 1_000_000_000 && -1_000_000_000 <= pending@[k].y <= 1_000_000_000,
            forall|k: int| 0 <= k < j ==> #[trigger] spawned@[k] == materialized(pending@[k]),
            forall|k: int| 0 <= k < j ==> (#[trigger] spawned@[k]).wf(),
        decreases pending.len() - j,
    {
        let p = pending[j];
        let rot: i64 = normalize_angle(p.rot);
        spawned.push(make_asteroid(Position { x: p.x, y: p.y, rot }, p.size));
        j += 1;
    }
    proof {
        assert(rows@ =~= strike_rows(bs@));
        assert(spawned@ =~= strike_spawned(bs@));
    }
    Plan { rows, spawned }
}

impl MissileStriker {
    /// Lets the missiles destroy the asteroids they are within: every
    /// asteroid with a missile within it and every missile within an
    /// asteroid is deleted, the halves of each such asteroid are created
    /// where they are large enough and the store has room for all that are
    /// due, and the score grows by `KILL_SCORE` for each pair of an asteroid
    /// and a missile within it.
    pub fn run(&mut self, ecs: &mut EntityStore)
        requires
            old(ecs).wf(),
        ensures
            final(ecs).wf(),
            struck_out(old(ecs)@, old(ecs).room(), final(ecs)@, final(ecs).room()),
    {
        let l = ecs.listing();
        let plan = plan_strike(&l.bundles);
        ecs.commit(&l, &plan);
    }
}

/// What the destruction of an asteroid comes to. Where a missile is within
/// asteroid `a` of a listing, the asteroid is deleted, and so is every
/// missile within it; and the asteroid leaves its children once: two of
/// them where half the width it is drawn with is at least
/// `MIN_SPLIT_SIZE`, none otherwise, each of half that width.
pub proof fn lemma_destroyed_asteroid(bs: Seq<Bundle>, a: int)
    requires
        0 <= a < bs.len(),
        is_hit(bs, a),
    ensures
        strike_rows(bs)[a] is None,
        forall|m: int| #[trigger] in_range(bs, a, m) ==> strike_rows(bs)[m] is None,
        debris(bs, (a + 1) as nat) == debris(bs, a as nat) + children(bs[a]),
        children(bs[a]).len() == (if bs[a].renderable->0.o_w / 2 >= MIN_SPLIT_SIZE {
            2nat
        } else {
            0nat
        }),
        forall|j: int|
            0 <= j < children(bs[a]).len() ==> (#[trigger] children(bs[a])[j]).size
                == bs[a].renderable->0.o_w / 2,
{
}

/// What a pass of collisions does to the score: an entity with game data
/// that is not itself destroyed has `KILL_SCORE` added for each pair of an
/// asteroid and a missile within it, up to the highest score, and keeps
/// its level.
pub proof fn lemma_score_gain(bs: Seq<Bundle>, i: int)
    requires
        0 <= i < bs.len(),
        bs[i].game_data is Some,
        !destroyed(bs, i),
    ensures
        strike_rows(bs)[i] matches Some(b) && b.game_data matches Some(g) && g.level
            == bs[i].game_data->0.level && g.score == capped(
            bs[i].game_data->0.score + KILL_SCORE * pairs(bs, bs.len()),
        ),
{
}

/// Where at most the pair of `a` and `m` is in range, the first `n`
/// entities hold as many missiles within asteroid `x` as that pair gives.
proof fn lemma_strikes_of_one(bs: Seq<Bundle>, a: int, m: int, x: int, n: nat)
    requires
        n <= bs.len(),
        forall|i: int, j: int| #[trigger] in_range(bs, i, j) ==> i == a && j == m,
    ensures
        strikes_on(bs, x, n) == (if x == a && m < n && in_range(bs, a, m) {
            1nat
        } else {
            0nat
        }),
    decreases n,
{
    if n > 0 {
        lemma_strikes_of_one(bs, a, m, x, (n - 1) as nat);
    }
}

/// Where at most the pair of `a` and `m` is in range, the first `n`
/// entities give as many pairs and as much debris as that pair gives.
proof fn lemma_pairs_of_one(bs: Seq<Bundle>, a: int, m: int, n: nat)
    requires
        n <= bs.len(),
        forall|i: int, j: int| #[trigger] in_range(bs, i, j) ==> i == a && j == m,
    ensures
        pairs(bs, n) == (if a < n && in_range(bs, a, m) {
            1nat
        } else {
            0nat
        }),
        debris(bs, n) == (if a < n && in_range(bs, a, m) {
            children(bs[a])
        } else {
            Seq::empty()
        }),
    decreases n,
{
    if n > 0 {
        lemma_pairs_of_one(bs, a, m, (n - 1) as nat);
        lemma_strikes_of_one(bs, a, m, n - 1, bs.len());
        if is_hit(bs, n - 1) {
            let k = choose|k: int| #[trigger] in_range(bs, n - 1, k);
        }
        if n - 1 == a && in_range(bs, a, m) {
            assert(debris(bs, n) =~= children(bs[a]));
        }
    }
}

/// Where no missile of a listing is within an asteroid of it, a pass of
/// collisions leaves every entity as it is and creates none.
pub proof fn lemma_no_strike(bs: Seq<Bundle>)
    requires
        forall|i: int, j: int|
            0 <= i < bs.len() && 0 <= j < bs.len() && drifting(#[trigger] bs[i]) && flying(
                #[trigger] bs[j],
            ) ==> !hits(bs[i], bs[j]),
    ensures
        strike_rows(bs) == Seq::new(bs.len(), |i: int| Some(bs[i])),
        strike_spawned(bs) == Seq::<Bundle>::empty(),
{
    assert forall|i: int, j: int| #[trigger] in_range(bs, i, j) implies i == 0 && j == 0 by {
        assert(drifting(bs[i]) && flying(bs[j]));
    }
    lemma_pairs_of_one(bs, 0, 0, bs.len());
    assert forall|i: int| 0 <= i < bs.len() implies #[trigger] strike_rows(bs)[i] == Some(
        bs[i],
    ) by {
        if is_hit(bs, i) {
            let k = choose|k: int| #[trigger] in_range(bs, i, k);
        }
        if has_hit(bs, i) {
            let k = choose|k: int| #[trigger] in_range(bs, k, i);
        }
    }
    assert(strike_rows(bs) =~= Seq::new(bs.len(), |i: int| Some(bs[i])));
    assert(strike_spawned(bs) =~= Seq::<Bundle>::empty());
}

/// One asteroid and one missile within it. Where `a` and `m` are the only
/// pair of a listing in range, a pass of collisions deletes both and no
/// other entity, adds `KILL_SCORE` to the score, up to the highest score,
/// and creates the children of the asteroid and nothing else.
pub proof fn lemma_one_pair(bs: Seq<Bundle>, a: int, m: int)
    requires
        in_range(bs, a, m),
        forall|i: int, j: int| #[trigger] in_range(bs, i, j) ==> i == a && j == m,
    ensures
        strike_rows(bs)[a] is None,
        strike_rows(bs)[m] is None,
        forall|i: int|
            0 <= i < bs.len() && i != a && i != m ==> #[trigger] strike_rows(bs)[i] == strike_row(
                bs[i],
                false,
                KILL_SCORE as int,
            ),
        strike_spawned(bs) == materialized_all(children(bs[a])),
{
    lemma_pairs_of_one(bs, a, m, bs.len());
    assert forall|i: int| 0 <= i < bs.len() && i != a && i != m implies #[trigger] strike_rows(
        bs,
    )[i] == strike_row(bs[i], false, KILL_SCORE as int) by {
        if is_hit(bs, i) {
            let k = choose|k: int| #[trigger] in_range(bs, i, k);
        }
        if has_hit(bs, i) {
            let k = choose|k: int| #[trigger] in_range(bs, k, i);
        }
    }
}

/// One asteroid and one missile within it, in a store. Where asteroid `a`
/// and missile `m` are the only pair of a store in range, and the store has
/// room for two more entities, a pass of collisions deletes both and no
/// other entity, adds `KILL_SCORE` to the score of every entity with game
/// data, up to the highest score, leaves the other entities as they are,
/// and creates the children of the asteroid, two or none, and nothing else.
pub proof fn lemma_one_pair_struck(
    before: Map<specs::Entity, Bundle>,
    room: nat,
    after: Map<specs::Entity, Bundle>,
    left: nat,
    a: specs::Entity,
    m: specs::Entity,
)
    requires
        struck_out(before, room, after, left),
        room >= 2,
        before.contains_key(a),
        before.contains_key(m),
        drifting(before[a]),
        flying(before[m]),
        hits(before[a], before[m]),
        forall|x: specs::Entity, y: specs::Entity|
            before.contains_key(x) && before.contains_key(y) && drifting(#[trigger] before[x])
                && flying(#[trigger] before[y]) && hits(before[x], before[y]) ==> x == a && y
                == m,
    ensures
        !after.contains_key(a),
        !after.contains_key(m),
        forall|e: specs::Entity|
            before.contains_key(e) && e != a && e != m ==> #[trigger] after.contains_key(e)
                && Some(after[e]) == strike_row(before[e], false, KILL_SCORE as int),
        exists|fresh: Seq<specs::Entity>| #[trigger]
            added(before, fresh, materialized_all(children(before[a])), after),
        left == room - children(before[a]).len(),
{
    let bs = choose|bs: Seq<Bundle>| #[trigger]
        evolves(before, bs, strike_rows(bs), admitted(room, strike_spawned(bs)), after) && left
            == room_after(room, strike_spawned(bs));
    let spawned = admitted(room, strike_spawned(bs));
    lemma_evolved(before, bs, strike_rows(bs), spawned, after);
    let hs = choose|hs: Seq<specs::Entity>| #[trigger] lists(hs, bs, before);
    assert(hs.contains(a) && hs.contains(m));
    let ia = choose|i: int| 0 <= i < hs.len() && hs[i] == a;
    let im = choose|i: int| 0 <= i < hs.len() && hs[i] == m;
    assert(before.contains_key(hs[ia]) && before[hs[ia]] == bs[ia]);
    assert(before.contains_key(hs[im]) && before[hs[im]] == bs[im]);
    assert(in_range(bs, ia, im));
    assert forall|i: int, j: int| #[trigger] in_range(bs, i, j) implies i == ia && j == im by {
        assert(before.contains_key(hs[i]) && before[hs[i]] == bs[i]);
        assert(before.contains_key(hs[j]) && before[hs[j]] == bs[j]);
        assert(hs[i] == a && hs[j] == m);
    }
    lemma_one_pair(bs, ia, im);
    assert(children(bs[ia]).len() <= 2);
    assert(spawned == materialized_all(children(before[a])));
    let rows = strike_rows(bs);
    assert forall|e: specs::Entity| before.contains_key(e) implies (if e == a || e == m {
        !after.contains_key(e)
    } else {
        after.contains_key(e) && Some(after[e]) == strike_row(before[e], false, KILL_SCORE as int)
    }) by {
        let i = choose|i: int|
            0 <= i < bs.len() && #[trigger] bs[i] == before[e] && match rows[i] {
                Some(b) => after.contains_key(e) && after[e] == b,
                None => !after.contains_key(e),
            };
        assert(before.contains_key(hs[i]) && before[hs[i]] == bs[i]);
        if e == a {
            assert(in_range(bs, i, im));
        } else if e == m {
            assert(in_range(bs, ia, i));
        } else {
            if i == ia {
                assert(drifting(before[e]) && hits(before[e], before[m]));
            }
            if i == im {
                assert(flying(before[e]) && hits(before[a], before[e]));
            }
        }
    }
}

} // verus!
