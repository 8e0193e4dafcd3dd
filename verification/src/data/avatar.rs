//! Avatars: the client's own and those of others.
//!
//! Of the client's avatar the library holds what is decided in whole
//! numbers: which movement keys are down, which region the avatar is in, and
//! what movement the keys ask for in a time step. Position and rotation are
//! the application's.

use vstd::prelude::*;
use crate::data::ids::RegionId;

verus! {

/// The avatar of another user.
#[derive(Clone, Copy, Debug)]
pub struct OtherAvatar {}

/// A key of the keyboard, as far as the avatar cares.
#[derive(Clone, Copy, Debug, PartialEq, Eq, Structural)]
pub enum Key {
    Left,
    Right,
    Up,
    Down,
    /// Any other key.
    Other,
}

/// Movement along the line of sight.
#[derive(Clone, Copy, Debug, PartialEq, Eq, Structural)]
pub enum Advance {
    Forward,
    Backward,
    Stay,
}

/// Rotation about the vertical axis.
#[derive(Clone, Copy, Debug, PartialEq, Eq, Structural)]
pub enum Turn {
    Left,
    Right,
    Straight,
}

/// What the avatar does in one time step.
#[derive(Clone, Copy, Debug, PartialEq, Eq, Structural)]
pub struct Motion {
    pub advance: Advance,
    pub turn: Turn,
}

/// The main avatar of the client, the one used for interacting with the
/// world.
#[derive(Clone, Copy, Debug, PartialEq, Eq, Structural)]
pub struct ClientAvatar {
    /// The region the avatar is in, once connected.
    pub current_region: Option<RegionId>,
    pub pressed_left: bool,
    pub pressed_right: bool,
    pub pressed_up: bool,
    pub pressed_down: bool,
}

impl ClientAvatar {
    /// An avatar with no key pressed.
    pub fn new(current_region: Option<RegionId>) -> (avatar: Self)
        ensures
            avatar == (ClientAvatar {
                current_region,
                pressed_left: false,
                pressed_right: false,
                pressed_up: false,
                pressed_down: false,
            }),
    {
        ClientAvatar {
            current_region,
            pressed_left: false,
            pressed_right: false,
            pressed_up: false,
            pressed_down: false,
        }
    }

    /// The avatar after `key` went down (`pressed`) or up.
    pub open spec fn with_key(self, key: Key, pressed: bool) -> ClientAvatar {
        match key {
            Key::Left => ClientAvatar { pressed_left: pressed, ..self },
            Key::Right => ClientAvatar { pressed_right: pressed, ..self },
            Key::Up => ClientAvatar { pressed_up: pressed, ..self },
            Key::Down => ClientAvatar { pressed_down: pressed, ..self },
            Key::Other => self,
        }
    }

    /// The movement that the keys that are down ask for: up goes before
    /// down, left before right.
    pub open spec fn motion(self) -> Motion {
        Motion {
            advance: if self.pressed_up {
                Advance::Forward
            } else if self.pressed_down {
                Advance::Backward
            } else {
                Advance::Stay
            },
            turn: if self.pressed_left {
                Turn::Left
            } else if self.pressed_right {
                Turn::Right
            } else {
                Turn::Straight
            },
        }
    }

    /// Records that a key went down or up. Returns whether the key is one of
    /// the avatar's; other keys change nothing.
    pub fn handle_key(&mut self, key: Key, pressed: bool) -> (handled: bool)
        ensures
            *final(self) == old(self).with_key(key, pressed),
            handled == (key != Key::Other),
    {
        match key {
            Key::Left => {
                self.pressed_left = pressed;
                true
            },
            Key::Right => {
                self.pressed_right = pressed;
                true
            },
            Key::Up => {
                self.pressed_up = pressed;
                true
            },
            Key::Down => {
                self.pressed_down = pressed;
                true
            },
            Key::Other => false,
        }
    }

    /// The movement of one time step, according to the keys that are down.
    pub fn update(&self) -> (motion: Motion)
        ensures
            motion == self.motion(),
    {
        let advance = if self.pressed_up {
            Advance::Forward
        } else if self.pressed_down {
            Advance::Backward
        } else {
            Advance::Stay
        };
        let turn = if self.pressed_left {
            Turn::Left
        } else if self.pressed_right {
            Turn::Right
        } else {
            Turn::Straight
        };
        Motion { advance, turn }
    }

    /// Sets the region the avatar is in.
    pub fn set_current_region(&mut self, region: Option<RegionId>)
        ensures
            *final(self) == (ClientAvatar { current_region: region, ..*old(self) }),
    {
        self.current_region = region;
    }

    /// The region the avatar is in.
    pub fn current_region(&self) -> (region: Option<RegionId>)
        ensures
            region == self.current_region,
    {
        self.current_region
    }
}

} // verus!
