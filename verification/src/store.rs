//! The entity store: a `specs` world that holds the game's components, the
//! contracts this library assumes of it, and the verified layer that reads a
//! listing of the entities and commits a plan of changes.

use vstd::prelude::*;
use specs::{Builder, Join, LendJoin, WorldExt};
use crate::components::{
    Asteroid, Bundle, GameData, Missile, Player, Position, Renderable, SoundCue, FULL_TURN,
};

verus! {

/// `specs::World`, the container of entities and component storages. Its
/// inside is not read here; `world_rows` and `world_ready` say what the
/// contracts below assume of it.
#[verifier::external_type_specification]
#[verifier::external_body]
pub struct ExWorld(specs::World);

/// `specs::Entity`, the handle of an entity: an index and a generation.
/// Handles are only carried from a listing back into the world.
#[verifier::external_type_specification]
#[verifier::external_body]
pub struct ExEntity(specs::Entity);

/// `specs::VecStorage`, the storage that each component type names.
#[verifier::external_type_specification]
#[verifier::external_body]
#[verifier::reject_recursive_types(T)]
pub struct ExVecStorage<T>(specs::VecStorage<T>);

impl specs::Component for Position {
    type Storage = specs::VecStorage<Self>;
}

impl specs::Component for Renderable {
    type Storage = specs::VecStorage<Self>;
}

impl specs::Component for Player {
    type Storage = specs::VecStorage<Self>;
}

impl specs::Component for Asteroid {
    type Storage = specs::VecStorage<Self>;
}

impl specs::Component for Missile {
    type Storage = specs::VecStorage<Self>;
}

impl specs::Component for GameData {
    type Storage = specs::VecStorage<Self>;
}

impl specs::Component for SoundCue {
    type Storage = specs::VecStorage<Self>;
}

/// What a world holds: its live entities, each with the components it has.
pub uninterp spec fn world_rows(w: specs::World) -> Map<specs::Entity, Bundle>;

/// Whether the world holds what `specs::World::new` puts into it and a
/// storage for each of the seven component types.
pub uninterp spec fn world_ready(w: specs::World) -> bool;

/// How many entities the world has created since it was made, those that
/// were deleted since counted too.
pub uninterp spec fn world_spawns(w: specs::World) -> nat;

/// How many entities a world creates at most. An entity that `specs`
/// creates takes an index that is no higher than the number of entities
/// created before it, and a generation of that index that is no higher
/// either. Its bit sets take indices up to this number where a machine word
/// has 32 bits, and sixteen times as far where it has 64, and its
/// generations go far beyond both.
pub const SPAWN_LIMIT: u32 = 1_048_576;

/// What of `spawned` a store with room for `room` more entities takes: all
/// of it where it fits, and nothing otherwise.
pub open spec fn admitted(room: nat, spawned: Seq<Bundle>) -> Seq<Bundle> {
    if spawned.len() <= room {
        spawned
    } else {
        Seq::empty()
    }
}

/// The room that is left once a store with room for `room` more entities
/// has taken what it takes of `spawned`.
pub open spec fn room_after(room: nat, spawned: Seq<Bundle>) -> nat {
    (room - admitted(room, spawned).len()) as nat
}

/// The room below which `maintain` makes a store anew.
pub const RENEW_BELOW: u32 = 524_288;

/// `hs` and `bs` list the entities of `m` and their components, each entity
/// once.
pub open spec fn lists(hs: Seq<specs::Entity>, bs: Seq<Bundle>, m: Map<specs::Entity, Bundle>)
    -> bool {
    &&& hs.len() == bs.len()
    &&& hs.no_duplicates()
    &&& forall|i: int| 0 <= i < hs.len() ==> m.contains_key(#[trigger] hs[i]) && m[hs[i]] == bs[i]
    &&& forall|e: specs::Entity| #[trigger] m.contains_key(e) ==> hs.contains(e)
}

/// `bs` lists the components of the entities of `m`, each entity once.
pub open spec fn listed(bs: Seq<Bundle>, m: Map<specs::Entity, Bundle>) -> bool {
    exists|hs: Seq<specs::Entity>| #[trigger] lists(hs, bs, m)
}

/// What `maintain` does to a store with room for `room` more entities:
/// nothing while the room is at least `RENEW_BELOW`; below that the store is
/// made anew with the same components, entity for entity, and has room for
/// all but those entities again. `left` is the room it then has.
pub open spec fn maintained(
    before: Map<specs::Entity, Bundle>,
    room: nat,
    after: Map<specs::Entity, Bundle>,
    left: nat,
) -> bool {
    if room >= RENEW_BELOW {
        after == before && left == room
    } else {
        exists|bs: Seq<Bundle>| #[trigger]
            listed(bs, before) && listed(bs, after) && left == SPAWN_LIMIT - bs.len()
    }
}

/// `after` is `before` once a plan is carried out: entity `hs[i]` now holds
/// `rows[i]`, or is gone where that is `None`; the new entities `fresh` hold
/// `spawned`; and there is nothing else.
pub open spec fn committed(
    before: Map<specs::Entity, Bundle>,
    hs: Seq<specs::Entity>,
    rows: Seq<Option<Bundle>>,
    fresh: Seq<specs::Entity>,
    spawned: Seq<Bundle>,
    after: Map<specs::Entity, Bundle>,
) -> bool {
    &&& hs.len() == rows.len()
    &&& fresh.len() == spawned.len()
    &&& fresh.no_duplicates()
    &&& forall|j: int| 0 <= j < fresh.len() ==> !before.contains_key(#[trigger] fresh[j])
    &&& forall|i: int|
        0 <= i < hs.len() ==> match rows[i] {
            Some(b) => after.contains_key(#[trigger] hs[i]) && after[hs[i]] == b,
            None => !after.contains_key(hs[i]),
        }
    &&& forall|j: int|
        0 <= j < fresh.len() ==> after.contains_key(#[trigger] fresh[j]) && after[fresh[j]]
            == spawned[j]
    &&& forall|e: specs::Entity| #[trigger]
        after.contains_key(e) ==> hs.contains(e) || fresh.contains(e)
}

/// `after` comes from `before` by a plan made on a listing `bs` of it.
pub open spec fn evolves(
    before: Map<specs::Entity, Bundle>,
    bs: Seq<Bundle>,
    rows: Seq<Option<Bundle>>,
    spawned: Seq<Bundle>,
    after: Map<specs::Entity, Bundle>,
) -> bool {
    exists|hs: Seq<specs::Entity>, fresh: Seq<specs::Entity>|
        lists(hs, bs, before) && #[trigger] committed(before, hs, rows, fresh, spawned, after)
}

/// `after` is `before` with the new entities `fresh` added, which hold
/// `spawned`; what was there is unchanged.
pub open spec fn grown_by(
    before: Map<specs::Entity, Bundle>,
    fresh: Seq<specs::Entity>,
    spawned: Seq<Bundle>,
    after: Map<specs::Entity, Bundle>,
) -> bool {
    &&& fresh.len() == spawned.len()
    &&& fresh.no_duplicates()
    &&& forall|j: int| 0 <= j < fresh.len() ==> !before.contains_key(#[trigger] fresh[j])
    &&& forall|e: specs::Entity| #[trigger]
        before.contains_key(e) ==> after.contains_key(e) && after[e] == before[e]
    &&& forall|j: int|
        0 <= j < fresh.len() ==> after.contains_key(#[trigger] fresh[j]) && after[fresh[j]]
            == spawned[j]
    &&& forall|e: specs::Entity| #[trigger]
        after.contains_key(e) ==> before.contains_key(e) || fresh.contains(e)
}

/// `after` is `before` with one new entity for each bundle of `spawned`.
pub open spec fn grown(
    before: Map<specs::Entity, Bundle>,
    spawned: Seq<Bundle>,
    after: Map<specs::Entity, Bundle>,
) -> bool {
    exists|fresh: Seq<specs::Entity>| #[trigger] grown_by(before, fresh, spawned, after)
}

/// One row of a listing, from what a join hands out.
fn entry(
    t: (
        specs::Entity,
        Option<&Position>,
        Option<&Renderable>,
        Option<&Player>,
        Option<&Asteroid>,
        Option<&Missile>,
        Option<&GameData>,
        Option<&SoundCue>,
    ),
) -> (row: (specs::Entity, Bundle))
    ensures
        row.0 == t.0,
        row.1.position == (match t.1 { Some(x) => Some(*x), None => None }),
        row.1.renderable == (match t.2 { Some(x) => Some(*x), None => None }),
        row.1.player == (match t.3 { Some(x) => Some(*x), None => None }),
        row.1.asteroid == (match t.4 { Some(x) => Some(*x), None => None }),
        row.1.missile == (match t.5 { Some(x) => Some(*x), None => None }),
        row.1.game_data == (match t.6 { Some(x) => Some(*x), None => None }),
        row.1.sound_cue == (match t.7 { Some(x) => Some(*x), None => None }),
{
    let position = match t.1 { Some(x) => Some(*x), None => None };
    let renderable = match t.2 { Some(x) => Some(*x), None => None };
    let player = match t.3 { Some(x) => Some(*x), None => None };
    let asteroid = match t.4 { Some(x) => Some(*x), None => None };
    let missile = match t.5 { Some(x) => Some(*x), None => None };
    let game_data = match t.6 { Some(x) => Some(*x), None => None };
    let sound_cue = match t.7 { Some(x) => Some(*x), None => None };
    (t.0, Bundle { position, renderable, player, asteroid, missile, game_data, sound_cue })
}

/// `specs::World::new` followed by `register` for each component type: the
/// world that comes back has the seven storages, no entity, and has created
/// none.
#[verifier::external_body]
fn world_new() -> (w: specs::World)
    ensures
        world_ready(w),
        world_rows(w) =~= Map::empty(),
        world_spawns(w) == 0,
{
    let mut w = specs::World::new();
    w.register::<Position>();
    w.register::<Renderable>();
    w.register::<Player>();
    w.register::<Asteroid>();
    w.register::<Missile>();
    w.register::<GameData>();
    w.register::<SoundCue>();
    w
}

/// A join of `specs::World::entities` with each storage made optional by
/// `maybe`: every live entity comes out once, with a copy of each component
/// it has. In which order they come is not claimed. Each live entity was
/// created, so there are no more of them than the world has created.
#[verifier::external_body]
fn world_list(w: &specs::World) -> (l: (Vec<specs::Entity>, Vec<Bundle>))
    requires
        world_ready(*w),
    ensures
        lists(l.0@, l.1@, world_rows(*w)),
        l.0@.len() <= world_spawns(*w),
{
    let (e, p, r) = (w.entities(), w.read_storage::<Position>(), w.read_storage::<Renderable>());
    let (pl, a, m) = (w.read_storage::<Player>(), w.read_storage::<Asteroid>(), w.read_storage::<Missile>());
    let (g, c) = (w.read_storage::<GameData>(), w.read_storage::<SoundCue>());
    (&e, p.maybe(), r.maybe(), pl.maybe(), a.maybe(), m.maybe(), g.maybe(), c.maybe())
        .join()
        .map(entry)
        .unzip()
}

/// `specs::World::create_entity`, `maybe_with` for each component and
/// `build`, on a world that has created fewer than `SPAWN_LIMIT` entities:
/// the world gains one entity, which was not live before, with exactly the
/// components of `b`, and has created one more. The allocator panics where
/// an index passes what its bit sets take or a generation passes the
/// largest `i32`; neither is reached below `SPAWN_LIMIT` entities created.
#[verifier::external_body]
fn world_spawn(w: &mut specs::World, b: Bundle) -> (e: specs::Entity)
    requires
        world_ready(*old(w)),
        world_spawns(*old(w)) < SPAWN_LIMIT,
    ensures
        world_ready(*final(w)),
        world_spawns(*final(w)) == world_spawns(*old(w)) + 1,
        !world_rows(*old(w)).contains_key(e),
        world_rows(*final(w)) == world_rows(*old(w)).insert(e, b),
{
    w.create_entity()
        .maybe_with(b.position)
        .maybe_with(b.renderable)
        .maybe_with(b.player)
        .maybe_with(b.asteroid)
        .maybe_with(b.missile)
        .maybe_with(b.game_data)
        .maybe_with(b.sound_cue)
        .build()
}

/// `specs::World::delete_entity` on a live entity: it and its components
/// leave at once, and nothing else changes, nor the number created.
#[verifier::external_body]
fn world_delete(w: &mut specs::World, e: specs::Entity)
    requires
        world_ready(*old(w)),
        world_rows(*old(w)).contains_key(e),
    ensures
        world_ready(*final(w)),
        world_spawns(*final(w)) == world_spawns(*old(w)),
        world_rows(*final(w)) == world_rows(*old(w)).remove(e),
{
    let _ = w.delete_entity(e);
}

/// `specs::World::delete_all`: no entity is left; the number created
/// stays.
#[verifier::external_body]
fn world_delete_all(w: &mut specs::World)
    requires
        world_ready(*old(w)),
    ensures
        world_ready(*final(w)),
        world_spawns(*final(w)) == world_spawns(*old(w)),
        world_rows(*final(w)) =~= Map::empty(),
{
    w.delete_all();
}

/// `insert` on the position storage for a live entity: the entity now has
/// position `p`, whether or not it had one, and nothing else changes; no
/// entity is created.
#[verifier::external_body]
fn world_set_position(w: &mut specs::World, e: specs::Entity, p: Position)
    requires
        world_ready(*old(w)),
        world_rows(*old(w)).contains_key(e),
    ensures
        world_ready(*final(w)),
        world_spawns(*final(w)) == world_spawns(*old(w)),
        world_rows(*final(w)) == world_rows(*old(w)).insert(
            e,
            (Bundle { position: Some(p), ..world_rows(*old(w))[e] }),
        ),
{
    let _ = w.write_storage::<Position>().insert(e, p);
}

/// `insert` on the renderable storage for a live entity: the entity now has
/// renderable `r`, and nothing else changes; no entity is created.
#[verifier::external_body]
fn world_set_renderable(w: &mut specs::World, e: specs::Entity, r: Renderable)
    requires
        world_ready(*old(w)),
        world_rows(*old(w)).contains_key(e),
    ensures
        world_ready(*final(w)),
        world_spawns(*final(w)) == world_spawns(*old(w)),
        world_rows(*final(w)) == world_rows(*old(w)).insert(
            e,
            (Bundle { renderable: Some(r), ..world_rows(*old(w))[e] }),
        ),
{
    let _ = w.write_storage::<Renderable>().insert(e, r);
}

/// `insert` on the player storage for a live entity: the entity now has
/// player component `p`, and nothing else changes; no entity is created.
#[verifier::external_body]
fn world_set_player(w: &mut specs::World, e: specs::Entity, p: Player)
    requires
        world_ready(*old(w)),
        world_rows(*old(w)).contains_key(e),
    ensures
        world_ready(*final(w)),
        world_spawns(*final(w)) == world_spawns(*old(w)),
        world_rows(*final(w)) == world_rows(*old(w)).insert(
            e,
            (Bundle { player: Some(p), ..world_rows(*old(w))[e] }),
        ),
{
    let _ = w.write_storage::<Player>().insert(e, p);
}

/// `insert` on the game-data storage for a live entity: the entity now has
/// game data `g`, and nothing else changes; no entity is created.
#[verifier::external_body]
fn world_set_game_data(w: &mut specs::World, e: specs::Entity, g: GameData)
    requires
        world_ready(*old(w)),
        world_rows(*old(w)).contains_key(e),
    ensures
        world_ready(*final(w)),
        world_spawns(*final(w)) == world_spawns(*old(w)),
        world_rows(*final(w)) == world_rows(*old(w)).insert(
            e,
            (Bundle { game_data: Some(g), ..world_rows(*old(w))[e] }),
        ),
{
    let _ = w.write_storage::<GameData>().insert(e, g);
}

/// The entities of a game and their components.
///
/// A system never changes the store while it looks at it: it reads a
/// listing, makes its plan on the listing, and the plan is carried out
/// afterwards. So what a system deletes or creates is there or gone for the
/// next system, and never for the pass that decided on it.
pub struct EntityStore {
    world: specs::World,
    spawned: u32,
}

/// The entities of a store as they stood when it was read.
pub(crate) struct Listing {
    pub handles: Vec<specs::Entity>,
    pub bundles: Vec<Bundle>,
}

/// What a system wants done to the entities of a listing: for each of them
/// the components it shall have, or `None` to delete it, and the entities to
/// create.
pub struct Plan {
    pub rows: Vec<Option<Bundle>>,
    pub spawned: Vec<Bundle>,
}

impl Plan {
    /// The plan is for a listing with the components `bundles`: it has a row
    /// for each entity, a kept entity keeps its kinds of component, and
    /// every bundle is well formed.
    pub open spec fn fits(&self, bundles: Seq<Bundle>) -> bool {
        &&& self.rows@.len() == bundles.len()
        &&& forall|i: int|
            0 <= i < bundles.len() ==> (#[trigger] self.rows@[i] matches Some(b) ==> b.wf()
                && bundles[i].same_kind(b))
        &&& forall|j: int| 0 <= j < self.spawned@.len() ==> (#[trigger] self.spawned@[j]).wf()
    }
}

impl View for EntityStore {
    type V = Map<specs::Entity, Bundle>;

    closed spec fn view(&self) -> Map<specs::Entity, Bundle> {
        world_rows(self.world)
    }
}

impl EntityStore {
    /// The store can take every component type, and it knows how many
    /// entities it has created, which are no more than `SPAWN_LIMIT`.
    pub closed spec fn ready(&self) -> bool {
        &&& world_ready(self.world)
        &&& self.spawned == world_spawns(self.world)
        &&& self.spawned <= SPAWN_LIMIT
    }

    /// How many entities the store can still create.
    pub closed spec fn room(&self) -> nat {
        (SPAWN_LIMIT - self.spawned) as nat
    }

    /// The store is ready and every component in it is well formed.
    pub open spec fn wf(&self) -> bool {
        &&& self.ready()
        &&& forall|e: specs::Entity| #[trigger] self@.contains_key(e) ==> self@[e].wf()
    }

    /// How many entities the store can still create.
    pub fn room_left(&self) -> (n: u32)
        requires
            self.wf(),
        ensures
            n == self.room(),
    {
        SPAWN_LIMIT - self.spawned
    }

    /// A store without entities, with room for `SPAWN_LIMIT` of them.
    pub fn new() -> (s: EntityStore)
        ensures
            s.wf(),
            s@ =~= Map::empty(),
            s.room() == SPAWN_LIMIT,
    {
        EntityStore { world: world_new(), spawned: 0 }
    }

    /// The entities with their components, each entity once.
    pub(crate) fn listing(&self) -> (l: Listing)
        requires
            self.wf(),
        ensures
            lists(l.handles@, l.bundles@, self@),
            l.bundles@.len() <= SPAWN_LIMIT - self.room(),
            forall|i: int| 0 <= i < l.bundles@.len() ==> (#[trigger] l.bundles@[i]).wf(),
    {
        let (handles, bundles) = world_list(&self.world);
        assert forall|i: int| 0 <= i < bundles@.len() implies (#[trigger] bundles@[i]).wf() by {
            assert(self@.contains_key(handles@[i]));
        }
        Listing { handles, bundles }
    }

    /// The upkeep at the end of a tick. A store that has used up more than
    /// half of the entities it can create is made anew: it holds the same
    /// components, entity for entity, under new handles, and what deleted
    /// entities had used up is free again.
    pub fn maintain(&mut self)
        requires
            old(self).wf(),
        ensures
            final(self).wf(),
            maintained(old(self)@, old(self).room(), final(self)@, final(self).room()),
    {
        if SPAWN_LIMIT - self.spawned >= RENEW_BELOW {
            return ;
        }
        let l = self.listing();
        let ghost before = self@;
        let mut world = world_new();
        let ghost mut fresh: Seq<specs::Entity> = Seq::empty();
        let mut count: u32 = 0;
        let mut j: usize = 0;
        while j < l.bundles.len()
            invariant
                world_ready(world),
                world_spawns(world) == j,
                count == j,
                0 <= j <= l.bundles.len(),
                l.bundles.len() <= SPAWN_LIMIT,
                fresh.len() == j,
                fresh.no_duplicates(),
                forall|k: int|
                    0 <= k < j ==> world_rows(world).contains_key(#[trigger] fresh[k])
                        && world_rows(world)[fresh[k]] == l.bundles@[k],
                forall|e: specs::Entity| #[trigger]
                    world_rows(world).contains_key(e) ==> fresh.contains(e),
            decreases l.bundles.len() - j,
        {
            let ghost prev = fresh;
            let ghost mid = world_rows(world);
            let e = world_spawn(&mut world, l.bundles[j]);
            count = count + 1;
            proof {
                fresh = prev.push(e);
                assert forall|x: specs::Entity| #[trigger]
                    world_rows(world).contains_key(x) implies fresh.contains(x) by {
                    if x == e {
                        assert(fresh[j as int] == e);
                    } else {
                        assert(mid.contains_key(x));
                        let k = choose|k: int| 0 <= k < prev.len() && prev[k] == x;
                        assert(fresh[k] == x);
                    }
                }
                assert forall|k: int| 0 <= k < j + 1 implies world_rows(world).contains_key(
                    #[trigger] fresh[k],
                ) && world_rows(world)[fresh[k]] == l.bundles@[k] by {
                    if k < j {
                        assert(fresh[k] == prev[k]);
                        assert(mid.contains_key(prev[k]));
                    }
                }
            }
            j += 1;
        }
        self.world = world;
        self.spawned = count;
        proof {
            assert(lists(l.handles@, l.bundles@, before));
            assert(lists(fresh, l.bundles@, self@));
            assert forall|e: specs::Entity| #[trigger] self@.contains_key(e) implies self@[e].wf() by {
                let k = choose|k: int| 0 <= k < fresh.len() && fresh[k] == e;
                assert(self@[fresh[k]] == l.bundles@[k]);
            }
            assert(listed(l.bundles@, before) && listed(l.bundles@, self@));
        }
    }

    /// The components of every entity, each entity once.
    pub fn bundles(&self) -> (bs: Vec<Bundle>)
        requires
            self.wf(),
        ensures
            listed(bs@, self@),
            forall|i: int| 0 <= i < bs@.len() ==> (#[trigger] bs@[i]).wf(),
    {
        let l = self.listing();
        l.bundles
    }

    /// Creates an entity with the components of `b`, if they are well
    /// formed and the store has room for it; says whether it did.
    pub fn create(&mut self, b: Bundle) -> (done: bool)
        requires
            old(self).wf(),
        ensures
            final(self).wf(),
            done == (b.wf() && old(self).room() > 0),
            done ==> final(self).room() == old(self).room() - 1 && exists|e: specs::Entity|
                !old(self)@.contains_key(e) && final(self)@ == #[trigger] old(self)@.insert(e, b),
            !done ==> final(self)@ == old(self)@ && final(self).room() == old(self).room(),
    {
        if b.is_wf() && self.spawned < SPAWN_LIMIT {
            let e = world_spawn(&mut self.world, b);
            self.spawned = self.spawned + 1;
            assert(final(self)@ == old(self)@.insert(e, b));
            true
        } else {
            false
        }
    }

    /// Deletes every entity. The room of the store stays as it is.
    pub fn delete_all(&mut self)
        requires
            old(self).wf(),
        ensures
            final(self).wf(),
            final(self)@ =~= Map::empty(),
            final(self).room() == old(self).room(),
    {
        world_delete_all(&mut self.world);
    }

    /// Creates one entity for each bundle, where the store has room for
    /// all of them, and none otherwise.
    pub(crate) fn create_all(&mut self, bundles: &Vec<Bundle>)
        requires
            old(self).wf(),
            forall|j: int| 0 <= j < bundles@.len() ==> (#[trigger] bundles@[j]).wf(),
        ensures
            final(self).wf(),
            grown(old(self)@, admitted(old(self).room(), bundles@), final(self)@),
            final(self).room() == room_after(old(self).room(), bundles@),
    {
        let ghost before = self@;
        let ghost mut fresh: Seq<specs::Entity> = Seq::empty();
        if bundles.len() > (SPAWN_LIMIT - self.spawned) as usize {
            assert(grown_by(before, fresh, Seq::empty(), before));
            return ;
        }
        let mut j: usize = 0;
        while j < bundles.len()
            invariant
                world_ready(self.world),
                self.spawned == world_spawns(self.world),
                self.spawned == old(self).spawned + j,
                old(self).spawned + bundles.len() <= SPAWN_LIMIT,
                0 <= j <= bundles.len(),
                fresh.len() == j,
                fresh.no_duplicates(),
                forall|k: int| 0 <= k < j ==> !before.contains_key(#[trigger] fresh[k]),
                forall|k: int|
                    0 <= k < j ==> self@.contains_key(#[trigger] fresh[k]) && self@[fresh[k]]
                        == bundles@[k],
                forall|e: specs::Entity| #[trigger]
                    before.contains_key(e) ==> self@.contains_key(e) && self@[e] == before[e],
                forall|e: specs::Entity| #[trigger]
                    self@.contains_key(e) ==> before.contains_key(e) || fresh.contains(e),
            decreases bundles.len() - j,
        {
            let ghost prev = fresh;
            let ghost mid = self@;
            let e = world_spawn(&mut self.world, bundles[j]);
            self.spawned = self.spawned + 1;
            proof {
                fresh = prev.push(e);
                assert forall|x: specs::Entity| #[trigger] self@.contains_key(x) implies (
                before.contains_key(x) || fresh.contains(x)) by {
                    if x == e {
                        assert(fresh[j as int] == e);
                    } else if !before.contains_key(x) {
                        assert(mid.contains_key(x));
                        let k = choose|k: int| 0 <= k < prev.len() && prev[k] == x;
                        assert(fresh[k] == x);
                    }
                }
            }
            j += 1;
        }
        proof {
            assert(grown_by(before, fresh, bundles@, self@));
        }
    }

    /// Carries out a plan made on a listing of this store, taken since the
    /// store last changed.
    pub(crate) fn commit(&mut self, listing: &Listing, plan: &Plan)
        requires
            old(self).wf(),
            lists(listing.handles@, listing.bundles@, old(self)@),
            plan.fits(listing.bundles@),
        ensures
            final(self).wf(),
            evolves(
                old(self)@,
                listing.bundles@,
                plan.rows@,
                admitted(old(self).room(), plan.spawned@),
                final(self)@,
            ),
            final(self).room() == room_after(old(self).room(), plan.spawned@),
    {
        let ghost before = self@;
        let ghost hs = listing.handles@;
        let ghost bs = listing.bundles@;
        let ghost spawned = admitted(self.room(), plan.spawned@);
        self.create_all(&plan.spawned);
        let ghost fresh = choose|fresh: Seq<specs::Entity>|
            grown_by(before, fresh, spawned, self@);
        let mut i: usize = 0;
        while i < listing.handles.len()
            invariant
                world_ready(self.world),
                self.spawned == world_spawns(self.world),
                self.spawned <= SPAWN_LIMIT,
                self.room() == room_after(old(self).room(), plan.spawned@),
                0 <= i <= hs.len(),
                hs == listing.handles@,
                bs == listing.bundles@,
                lists(hs, bs, before),
                plan.fits(bs),
                fresh.len() == spawned.len(),
                forall|k: int| 0 <= k < spawned.len() ==> (#[trigger] spawned[k]).wf(),
                fresh.no_duplicates(),
                forall|k: int| 0 <= k < fresh.len() ==> !before.contains_key(#[trigger] fresh[k]),
                forall|k: int|
                    0 <= k < fresh.len() ==> self@.contains_key(#[trigger] fresh[k])
                        && self@[fresh[k]] == spawned[k],
                forall|k: int|
                    0 <= k < i ==> match plan.rows@[k] {
                        Some(b) => self@.contains_key(#[trigger] hs[k]) && self@[hs[k]] == b,
                        None => !self@.contains_key(hs[k]),
                    },
                forall|k: int|
                    i <= k < hs.len() ==> self@.contains_key(#[trigger] hs[k]) && self@[hs[k]]
                        == bs[k],
                forall|e: specs::Entity| #[trigger]
                    self@.contains_key(e) ==> hs.contains(e) || fresh.contains(e),
            decreases hs.len() - i,
        {
            let e = listing.handles[i];
            match plan.rows[i] {
                None => {
                    world_delete(&mut self.world, e);
                },
                Some(b) => {
                    if let Some(p) = b.position {
                        world_set_position(&mut self.world, e, p);
                    }
                    if let Some(r) = b.renderable {
                        world_set_renderable(&mut self.world, e, r);
                    }
                    if let Some(p) = b.player {
                        world_set_player(&mut self.world, e, p);
                    }
                    if let Some(g) = b.game_data {
                        world_set_game_data(&mut self.world, e, g);
                    }
                },
            }
            i += 1;
        }
        proof {
            assert(committed(before, hs, plan.rows@, fresh, spawned, self@));
        }
    }
}

/// `fresh` are the entities that `after` has beyond those of `before`, and
/// they hold `spawned`.
pub open spec fn added(
    before: Map<specs::Entity, Bundle>,
    fresh: Seq<specs::Entity>,
    spawned: Seq<Bundle>,
    after: Map<specs::Entity, Bundle>,
) -> bool {
    &&& fresh.len() == spawned.len()
    &&& fresh.no_duplicates()
    &&& forall|j: int|
        0 <= j < fresh.len() ==> !before.contains_key(#[trigger] fresh[j]) && after.contains_key(
            fresh[j],
        ) && after[fresh[j]] == spawned[j]
    &&& forall|e: specs::Entity| #[trigger]
        after.contains_key(e) ==> before.contains_key(e) || fresh.contains(e)
}

/// What a plan leaves of a store: each entity that was there has a row of
/// the plan, which says what has become of it, and the rest of the store
/// are the new entities.
pub proof fn lemma_evolved(
    before: Map<specs::Entity, Bundle>,
    bs: Seq<Bundle>,
    rows: Seq<Option<Bundle>>,
    spawned: Seq<Bundle>,
    after: Map<specs::Entity, Bundle>,
)
    requires
        evolves(before, bs, rows, spawned, after),
    ensures
        bs.len() == rows.len(),
        listed(bs, before),
        forall|e: specs::Entity| #[trigger]
            before.contains_key(e) ==> exists|i: int|
                0 <= i < bs.len() && #[trigger] bs[i] == before[e] && match rows[i] {
                    Some(b) => after.contains_key(e) && after[e] == b,
                    None => !after.contains_key(e),
                },
        exists|fresh: Seq<specs::Entity>| #[trigger] added(before, fresh, spawned, after),
{
    let (hs, fresh) = choose|hs: Seq<specs::Entity>, fresh: Seq<specs::Entity>|
        lists(hs, bs, before) && #[trigger] committed(before, hs, rows, fresh, spawned, after);
    assert(added(before, fresh, spawned, after));
}

/// Some entity of the store holds the components `b`.
pub open spec fn has_row(m: Map<specs::Entity, Bundle>, b: Bundle) -> bool {
    exists|e: specs::Entity| #[trigger] m.contains_key(e) && m[e] == b
}

/// A listing of a store shows the components of each entity, and each of
/// its rows is held by an entity.
pub proof fn lemma_listed(bs: Seq<Bundle>, m: Map<specs::Entity, Bundle>)
    requires
        listed(bs, m),
    ensures
        forall|e: specs::Entity| #[trigger]
            m.contains_key(e) ==> exists|i: int| 0 <= i < bs.len() && #[trigger] bs[i] == m[e],
        forall|i: int|
            #![trigger bs[i]]
            0 <= i < bs.len() ==> has_row(m, bs[i]),
{
    let hs = choose|hs: Seq<specs::Entity>| lists(hs, bs, m);
    assert forall|i: int| #![trigger bs[i]] 0 <= i < bs.len() implies has_row(m, bs[i]) by {
        assert(m.contains_key(hs[i]) && m[hs[i]] == bs[i]);
    }
}

/// In a well-formed store every rotation, of a position or of a picture,
/// lies within one turn.
pub proof fn lemma_rotations_within_a_turn(ecs: EntityStore, e: specs::Entity)
    requires
        ecs.wf(),
        ecs@.contains_key(e),
    ensures
        ecs@[e].position matches Some(p) ==> 0 <= p.rot < FULL_TURN,
        ecs@[e].renderable matches Some(r) ==> 0 <= r.rot < FULL_TURN,
{
}

} // verus!
