use vstd::prelude::*;
use crate::input_manager::InputManager;

verus! {

/// The numbers of the keys that move the player.
#[derive(Clone, Copy, Debug, PartialEq, Eq, Structural)]
pub struct KeyBindings {
    pub forward: u32,
    pub backward: u32,
    pub left: u32,
    pub right: u32,
    /// Jumps on the ground and rises in flight.
    pub up: u32,
    /// Sinks in flight.
    pub down: u32,
    pub toggle_flying: u32,
}

/// The direction that the keys ask for: -1, 0 or 1 along the player's own
/// axes, `x` to its right, `y` up, `z` ahead.
#[derive(Clone, Copy, Debug, PartialEq, Eq, Structural)]
pub struct Heading {
    pub x: i8,
    pub y: i8,
    pub z: i8,
}

/// What the keys made of a player: where it is heading, whether it is
/// flying, and whether any of its keys did something.
pub struct KeyOutcome {
    pub heading: Heading,
    pub is_flying: bool,
    pub key_pressed: bool,
}

/// What the keys of `input` make of a player that is flying or not: the
/// opposite keys of an axis give way to the first of them, a jump takes a
/// fresh press on the ground and a held key in flight, and a fresh press of
/// the flying key changes between the two after the heading is taken.
pub open spec fn key_outcome(input: &InputManager, keys: KeyBindings, is_flying: bool)
    -> KeyOutcome {
    let down = input.pressed();
    let fresh = input.fresh_pressed();
    let z: i8 = if down.contains(keys.forward) {
        1
    } else if down.contains(keys.backward) {
        -1i8
    } else {
        0
    };
    let x: i8 = if down.contains(keys.left) {
        -1i8
    } else if down.contains(keys.right) {
        1
    } else {
        0
    };
    let y: i8 = if !is_flying {
        if fresh.contains(keys.up) {
            1
        } else {
            0
        }
    } else if down.contains(keys.up) {
        1
    } else if down.contains(keys.down) {
        -1i8
    } else {
        0
    };
    KeyOutcome {
        heading: Heading { x, y, z },
        is_flying: is_flying != fresh.contains(keys.toggle_flying),
        key_pressed: x != 0 || y != 0 || z != 0 || fresh.contains(keys.toggle_flying),
    }
}

/// The part of a player that the keys steer.
#[derive(Debug)]
pub struct Player {
    velocity: Heading,
    is_flying: bool,
}

impl Player {
    /// Where the player is heading.
    pub closed spec fn heading(&self) -> Heading {
        self.velocity
    }

    /// Whether the player is flying.
    pub closed spec fn flying(&self) -> bool {
        self.is_flying
    }

    /// A player at rest on the ground.
    pub fn new() -> (player: Self)
        ensures
            player.heading() == (Heading { x: 0, y: 0, z: 0 }),
            !player.flying(),
    {
        Self { velocity: Heading { x: 0, y: 0, z: 0 }, is_flying: false }
    }

    pub fn is_flying(&self) -> (flying: bool)
        ensures
            flying == self.flying(),
    {
        self.is_flying
    }

    pub fn get_heading(&self) -> (heading: Heading)
        ensures
            heading == self.heading(),
    {
        self.velocity
    }

    /// Takes the heading from the keys; tells whether a key did something.
    pub fn process_keyboard(
        &mut self,
        input_manager: &InputManager,
        keys: KeyBindings,
    ) -> (key_pressed: bool)
        ensures
            final(self).heading() == key_outcome(input_manager, keys, old(self).flying()).heading,
            final(self).flying() == key_outcome(input_manager, keys, old(self).flying()).is_flying,
            key_pressed == key_outcome(input_manager, keys, old(self).flying()).key_pressed,
    {
        let amount: i8 = 1;

        let mut key_pressed = false;

        if input_manager.key_down(keys.forward) {
            self.velocity.z = amount;
            key_pressed = true;
        } else if input_manager.key_down(keys.backward) {
            self.velocity.z = -amount;
            key_pressed = true;
        } else {
            self.velocity.z = 0;
        }

        if input_manager.key_down(keys.left) {
            self.velocity.x = -amount;
            key_pressed = true;
        } else if input_manager.key_down(keys.right) {
            self.velocity.x = amount;
            key_pressed = true;
        } else {
            self.velocity.x = 0;
        }

        if !self.is_flying {
            if input_manager.key_just_pressed(keys.up) {
                self.velocity.y = amount;

                key_pressed = true;
            } else {
                self.velocity.y = 0;
            }
        } else {
            if input_manager.key_down(keys.up) {
                self.velocity.y = amount;

                key_pressed = true;
            } else if input_manager.key_down(keys.down) {
                self.velocity.y = -amount;

                key_pressed = true;
            } else {
                self.velocity.y = 0;
            }
        }

        if input_manager.key_just_pressed(keys.toggle_flying) {
            self.is_flying = !self.is_flying;

            key_pressed = true;
        }

        key_pressed
    }
}

} // verus!
