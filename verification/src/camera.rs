//! The movement keys of a free camera.
//!
//! The library holds which movements are switched on; where the camera is
//! and where it looks is the application's.

use vstd::prelude::*;
use crate::data::avatar::Key;

verus! {

/// The movements of a camera that are switched on.
#[derive(Clone, Copy, Debug, PartialEq, Eq, Structural)]
pub struct CameraState {
    pub moving_up: bool,
    pub moving_left: bool,
    pub moving_down: bool,
    pub moving_right: bool,
    pub moving_forward: bool,
    pub moving_backward: bool,
}

impl CameraState {
    /// A camera at rest.
    pub fn new() -> (camera: CameraState)
        ensures
            camera == (CameraState {
                moving_up: false,
                moving_left: false,
                moving_down: false,
                moving_right: false,
                moving_forward: false,
                moving_backward: false,
            }),
    {
        CameraState {
            moving_up: false,
            moving_left: false,
            moving_down: false,
            moving_right: false,
            moving_forward: false,
            moving_backward: false,
        }
    }

    /// The camera after `key` went down (`pressed`) or up: each arrow key
    /// switches the movement in its direction, other keys switch nothing.
    pub open spec fn with_key(self, key: Key, pressed: bool) -> CameraState {
        match key {
            Key::Up => CameraState { moving_up: pressed, ..self },
            Key::Down => CameraState { moving_down: pressed, ..self },
            Key::Left => CameraState { moving_left: pressed, ..self },
            Key::Right => CameraState { moving_right: pressed, ..self },
            Key::Other => self,
        }
    }

    /// Records that a key went down or up.
    pub fn process_input(&mut self, key: Key, pressed: bool)
        ensures
            *final(self) == old(self).with_key(key, pressed),
    {
        match key {
            Key::Up => {
                self.moving_up = pressed;
            },
            Key::Down => {
                self.moving_down = pressed;
            },
            Key::Left => {
                self.moving_left = pressed;
            },
            Key::Right => {
                self.moving_right = pressed;
            },
            Key::Other => {},
        }
    }
}

} // verus!
