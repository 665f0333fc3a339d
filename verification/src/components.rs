//! The data that entities carry. Lengths are whole numbers of thousandths of a
//! screen unit and angles whole numbers of thousandths of a degree, so every
//! rule of the game is exact integer arithmetic.

use vstd::prelude::*;

verus! {

/// One screen unit, in the thousandths that coordinates and speeds count.
pub const UNIT: i64 = 1000;

/// A full turn, in thousandths of a degree.
pub const FULL_TURN: i64 = 360_000;

/// The largest magnitude a stored coordinate may have.
pub const COORD_LIMIT: i64 = 1_000_000_000;

/// The largest magnitude a speed component may have.
pub const SPEED_LIMIT: i64 = 1_000_000;

/// The largest magnitude a stored impulse component may have.
pub const IMPULSE_LIMIT: i64 = 900_000;

/// A pair of lengths: a velocity or an impulse.
#[derive(Clone, Copy, Debug, PartialEq, Eq, Structural)]
pub struct Vec2 {
    pub x: i64,
    pub y: i64,
}

impl Vec2 {
    /// Both components lie within `SPEED_LIMIT` of zero.
    pub open spec fn wf(self) -> bool {
        &&& -SPEED_LIMIT <= self.x <= SPEED_LIMIT
        &&& -SPEED_LIMIT <= self.y <= SPEED_LIMIT
    }

    /// The vector of no length.
    pub open spec fn zero() -> Vec2 {
        Vec2 { x: 0, y: 0 }
    }

    /// Tests `wf` at run time.
    pub fn is_wf(&self) -> (ok: bool)
        ensures
            ok == self.wf(),
    {
        -SPEED_LIMIT <= self.x && self.x <= SPEED_LIMIT && -SPEED_LIMIT <= self.y && self.y
            <= SPEED_LIMIT
    }
}

/// Where an entity is and which way it points.
#[derive(Clone, Copy, Debug, PartialEq, Eq, Structural)]
pub struct Position {
    pub x: i64,
    pub y: i64,
    pub rot: i64,
}

impl Position {
    /// The coordinates are within `COORD_LIMIT` and the rotation is
    /// normalised to `[0, FULL_TURN)`.
    pub open spec fn wf(self) -> bool {
        &&& -COORD_LIMIT <= self.x <= COORD_LIMIT
        &&& -COORD_LIMIT <= self.y <= COORD_LIMIT
        &&& 0 <= self.rot < FULL_TURN
    }

    /// Tests `wf` at run time.
    pub fn is_wf(&self) -> (ok: bool)
        ensures
            ok == self.wf(),
    {
        -COORD_LIMIT <= self.x && self.x <= COORD_LIMIT && -COORD_LIMIT <= self.y && self.y
            <= COORD_LIMIT && 0 <= self.rot && self.rot < FULL_TURN
    }
}

/// The picture an entity is drawn with.
#[derive(Clone, Copy, Debug, PartialEq, Eq, Structural)]
pub enum Texture {
    Ship,
    Asteroid,
    Missile,
}

/// How an entity is drawn: which picture, its intrinsic and output sizes in
/// whole screen units, the animation frame and the rotation of the picture.
#[derive(Clone, Copy, Debug, PartialEq, Eq, Structural)]
pub struct Renderable {
    pub tex_name: Texture,
    pub i_w: u32,
    pub i_h: u32,
    pub o_w: u32,
    pub o_h: u32,
    pub frame: u32,
    pub total_frames: u32,
    pub rot: i64,
}

impl Renderable {
    /// The rotation is normalised to `[0, FULL_TURN)`.
    pub open spec fn wf(self) -> bool {
        0 <= self.rot < FULL_TURN
    }

    /// Tests `wf` at run time.
    pub fn is_wf(&self) -> (ok: bool)
        ensures
            ok == self.wf(),
    {
        0 <= self.rot && self.rot < FULL_TURN
    }
}

/// The ship's thrust: the impulse gathered this tick and the velocity it has.
#[derive(Clone, Copy, Debug, PartialEq, Eq, Structural)]
pub struct Player {
    pub impulse: Vec2,
    pub cur_speed: Vec2,
}

impl Player {
    /// The velocity is within `SPEED_LIMIT` and the impulse within
    /// `IMPULSE_LIMIT`, component by component.
    pub open spec fn wf(self) -> bool {
        &&& self.cur_speed.wf()
        &&& -IMPULSE_LIMIT <= self.impulse.x <= IMPULSE_LIMIT
        &&& -IMPULSE_LIMIT <= self.impulse.y <= IMPULSE_LIMIT
    }

    /// Tests `wf` at run time.
    pub fn is_wf(&self) -> (ok: bool)
        ensures
            ok == self.wf(),
    {
        self.cur_speed.is_wf() && -IMPULSE_LIMIT <= self.impulse.x && self.impulse.x
            <= IMPULSE_LIMIT && -IMPULSE_LIMIT <= self.impulse.y && self.impulse.y <= IMPULSE_LIMIT
    }
}

/// A drifting rock: its speed per tick, the spin of its picture per tick and
/// its size in whole screen units.
#[derive(Clone, Copy, Debug, PartialEq, Eq, Structural)]
pub struct Asteroid {
    pub speed: i64,
    pub rot_speed: i64,
    pub size: u32,
}

impl Asteroid {
    /// The speed is within `SPEED_LIMIT` and the spin less than a turn.
    pub open spec fn wf(self) -> bool {
        &&& 0 <= self.speed <= SPEED_LIMIT
        &&& -FULL_TURN < self.rot_speed < FULL_TURN
    }

    /// Tests `wf` at run time.
    pub fn is_wf(&self) -> (ok: bool)
        ensures
            ok == self.wf(),
    {
        0 <= self.speed && self.speed <= SPEED_LIMIT && -FULL_TURN < self.rot_speed
            && self.rot_speed < FULL_TURN
    }
}

/// A projectile and its speed per tick.
#[derive(Clone, Copy, Debug, PartialEq, Eq, Structural)]
pub struct Missile {
    pub speed: i64,
}

impl Missile {
    /// The speed is within `SPEED_LIMIT`.
    pub open spec fn wf(self) -> bool {
        0 <= self.speed <= SPEED_LIMIT
    }

    /// Tests `wf` at run time.
    pub fn is_wf(&self) -> (ok: bool)
        ensures
            ok == self.wf(),
    {
        0 <= self.speed && self.speed <= SPEED_LIMIT
    }
}

/// The score and the level of the running game.
#[derive(Clone, Copy, Debug, PartialEq, Eq, Structural)]
pub struct GameData {
    pub score: u32,
    pub level: u32,
}

/// What the audio side is asked to do with a sound.
#[derive(Clone, Copy, Debug, PartialEq, Eq, Structural)]
pub enum SoundCueType {
    PlaySound,
    LoopSound,
    StopSound,
}

/// The sounds the game asks for.
#[derive(Clone, Copy, Debug, PartialEq, Eq, Structural)]
pub enum Sound {
    Thruster,
    Shoot,
}

/// A request to the audio side, alive for one tick.
#[derive(Clone, Copy, Debug, PartialEq, Eq, Structural)]
pub struct SoundCue {
    pub filename: Sound,
    pub sc_type: SoundCueType,
}

/// An asteroid that a collision has staged and that is created once the
/// pass over the entities is over.
#[derive(Clone, Copy, Debug, PartialEq, Eq, Structural)]
pub struct PendingAsteroid {
    pub x: i64,
    pub y: i64,
    pub rot: i64,
    pub size: u32,
}

/// The components of one entity; each may be absent.
#[derive(Clone, Copy, Debug, PartialEq, Eq, Structural)]
pub struct Bundle {
    pub position: Option<Position>,
    pub renderable: Option<Renderable>,
    pub player: Option<Player>,
    pub asteroid: Option<Asteroid>,
    pub missile: Option<Missile>,
    pub game_data: Option<GameData>,
    pub sound_cue: Option<SoundCue>,
}

impl Bundle {
    /// Every component that is present is well formed.
    pub open spec fn wf(self) -> bool {
        &&& self.position matches Some(p) ==> p.wf()
        &&& self.renderable matches Some(r) ==> r.wf()
        &&& self.player matches Some(p) ==> p.wf()
        &&& self.asteroid matches Some(a) ==> a.wf()
        &&& self.missile matches Some(m) ==> m.wf()
    }

    /// The bundle without any component.
    pub open spec fn spec_empty() -> Bundle {
        Bundle {
            position: None,
            renderable: None,
            player: None,
            asteroid: None,
            missile: None,
            game_data: None,
            sound_cue: None,
        }
    }

    #[verifier::when_used_as_spec(spec_empty)]
    pub fn empty() -> (b: Bundle)
        ensures
            b == Bundle::spec_empty(),
    {
        Bundle {
            position: None,
            renderable: None,
            player: None,
            asteroid: None,
            missile: None,
            game_data: None,
            sound_cue: None,
        }
    }

    /// `other` has the same kinds of component as `self`, and the
    /// components that no system rewrites are equal in both.
    pub open spec fn same_kind(self, other: Bundle) -> bool {
        &&& (self.position is Some) == (other.position is Some)
        &&& (self.renderable is Some) == (other.renderable is Some)
        &&& (self.player is Some) == (other.player is Some)
        &&& (self.game_data is Some) == (other.game_data is Some)
        &&& self.asteroid == other.asteroid
        &&& self.missile == other.missile
        &&& self.sound_cue == other.sound_cue
    }

    /// Tests `wf` at run time.
    pub fn is_wf(&self) -> (ok: bool)
        ensures
            ok == self.wf(),
    {
        let p_ok = match self.position {
            Some(p) => p.is_wf(),
            None => true,
        };
        let r_ok = match self.renderable {
            Some(r) => r.is_wf(),
            None => true,
        };
        let pl_ok = match self.player {
            Some(p) => p.is_wf(),
            None => true,
        };
        let a_ok = match self.asteroid {
            Some(a) => a.is_wf(),
            None => true,
        };
        let m_ok = match self.missile {
            Some(m) => m.is_wf(),
            None => true,
        };
        p_ok && r_ok && pl_ok && a_ok && m_ok
    }
}

} // verus!
