//! The keys the game listens to and which of them are held.

use vstd::prelude::*;
use vstd::string::StrSliceExecFns;

verus! {

/// What a key does in the game.
#[derive(Clone, Copy, Debug, PartialEq, Eq, Structural)]
pub enum Key {
    RotateLeft,
    RotateRight,
    Thrust,
    Fire,
}

/// Which keys are held at this moment.
#[derive(Clone, Copy, Debug, PartialEq, Eq, Structural)]
pub struct KeyState {
    pub rotate_left: bool,
    pub rotate_right: bool,
    pub thrust: bool,
    pub fire: bool,
}

/// The key that goes by `name`: `A` turns left, `D` turns right, `W`
/// thrusts and a single space fires. No other name is a key.
pub open spec fn key_named(name: Seq<char>) -> Option<Key> {
    if name == seq!['A'] {
        Some(Key::RotateLeft)
    } else if name == seq!['D'] {
        Some(Key::RotateRight)
    } else if name == seq!['W'] {
        Some(Key::Thrust)
    } else if name == seq![' '] {
        Some(Key::Fire)
    } else {
        None
    }
}

impl KeyState {
    /// No key held.
    pub open spec fn released() -> KeyState {
        KeyState { rotate_left: false, rotate_right: false, thrust: false, fire: false }
    }

    /// Whether `key` is held; none is, where there is no key.
    pub open spec fn holds(self, key: Option<Key>) -> bool {
        match key {
            Some(Key::RotateLeft) => self.rotate_left,
            Some(Key::RotateRight) => self.rotate_right,
            Some(Key::Thrust) => self.thrust,
            Some(Key::Fire) => self.fire,
            None => false,
        }
    }

    /// The state with `key` held or not, as `held` says.
    pub open spec fn with(self, key: Option<Key>, held: bool) -> KeyState {
        match key {
            Some(Key::RotateLeft) => KeyState { rotate_left: held, ..self },
            Some(Key::RotateRight) => KeyState { rotate_right: held, ..self },
            Some(Key::Thrust) => KeyState { thrust: held, ..self },
            Some(Key::Fire) => KeyState { fire: held, ..self },
            None => self,
        }
    }

    /// A state with no key held.
    pub fn new() -> (keys: KeyState)
        ensures
            keys == KeyState::released(),
    {
        KeyState { rotate_left: false, rotate_right: false, thrust: false, fire: false }
    }
}

/// The key that goes by `name`, if any.
pub fn key_of(name: &str) -> (key: Option<Key>)
    ensures
        key == key_named(name@),
{
    if name.unicode_len() != 1 {
        return None;
    }
    let c = name.get_char(0);
    assert(name@ =~= seq![c]);
    if c == 'A' {
        Some(Key::RotateLeft)
    } else if c == 'D' {
        Some(Key::RotateRight)
    } else if c == 'W' {
        Some(Key::Thrust)
    } else if c == ' ' {
        Some(Key::Fire)
    } else {
        None
    }
}

/// Whether the key named `name` is held; a name that is no key is not.
pub fn is_key_pressed(keys: &KeyState, name: &str) -> (held: bool)
    ensures
        held == keys.holds(key_named(name@)),
{
    match key_of(name) {
        Some(Key::RotateLeft) => keys.rotate_left,
        Some(Key::RotateRight) => keys.rotate_right,
        Some(Key::Thrust) => keys.thrust,
        Some(Key::Fire) => keys.fire,
        None => false,
    }
}

/// Notes that the key named `name` went down; a name that is no key
/// changes nothing.
pub fn key_down(keys: &mut KeyState, name: &str)
    ensures
        *final(keys) == old(keys).with(key_named(name@), true),
{
    match key_of(name) {
        Some(Key::RotateLeft) => keys.rotate_left = true,
        Some(Key::RotateRight) => keys.rotate_right = true,
        Some(Key::Thrust) => keys.thrust = true,
        Some(Key::Fire) => keys.fire = true,
        None => {},
    }
}

/// Notes that the key named `name` went up; a name that is no key changes
/// nothing.
pub fn key_up(keys: &mut KeyState, name: &str)
    ensures
        *final(keys) == old(keys).with(key_named(name@), false),
{
    match key_of(name) {
        Some(Key::RotateLeft) => keys.rotate_left = false,
        Some(Key::RotateRight) => keys.rotate_right = false,
        Some(Key::Thrust) => keys.thrust = false,
        Some(Key::Fire) => keys.fire = false,
        None => {},
    }
}

} // verus!
