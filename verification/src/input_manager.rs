use std::collections::HashSet;
use vstd::prelude::*;

verus! {

broadcast use vstd::std_specs::hash::group_hash_axioms;

/// What a key did.
#[derive(Clone, Copy, Debug, PartialEq, Eq, Structural)]
pub enum ElementState {
    Pressed,
    Released,
}

/// The keys that are held down, and those that went down or came up since
/// the last clearing. A key is named by its number.
#[derive(Debug)]
pub struct InputManager {
    pressed_keys: HashSet<u32>,
    just_pressed: HashSet<u32>,
    just_released: HashSet<u32>,
}

impl InputManager {
    /// The keys that are held down.
    pub closed spec fn pressed(&self) -> Set<u32> {
        self.pressed_keys@
    }

    /// The keys that went down since the last clearing.
    pub closed spec fn fresh_pressed(&self) -> Set<u32> {
        self.just_pressed@
    }

    /// The keys that came up since the last clearing.
    pub closed spec fn fresh_released(&self) -> Set<u32> {
        self.just_released@
    }

    /// No key is down, and none went down or came up.
    pub fn new() -> (manager: Self)
        ensures
            manager.pressed() == Set::<u32>::empty(),
            manager.fresh_pressed() == Set::<u32>::empty(),
            manager.fresh_released() == Set::<u32>::empty(),
    {
        Self {
            pressed_keys: HashSet::new(),
            just_pressed: HashSet::new(),
            just_released: HashSet::new(),
        }
    }

    /// Takes note that `key` went down or came up. A key that goes down while
    /// it is held, as it does when it repeats, does not count as freshly pressed.
    pub fn process_keys(&mut self, key: u32, element_state: ElementState)
        ensures
            final(self).pressed() == match element_state {
                ElementState::Pressed => old(self).pressed().insert(key),
                ElementState::Released => old(self).pressed().remove(key),
            },
            final(self).fresh_pressed() == if element_state == ElementState::Pressed && !old(
                self,
            ).pressed().contains(key) {
                old(self).fresh_pressed().insert(key)
            } else {
                old(self).fresh_pressed()
            },
            final(self).fresh_released() == match element_state {
                ElementState::Pressed => old(self).fresh_released(),
                ElementState::Released => old(self).fresh_released().insert(key),
            },
    {
        if element_state == ElementState::Pressed {
            if !self.key_down(key) {
                self.just_pressed.insert(key);
            }
            self.pressed_keys.insert(key);
        }
        if element_state == ElementState::Released {
            self.pressed_keys.remove(&key);

            self.just_released.insert(key);
        }
    }

    pub fn clear_just_pressed(&mut self)
        ensures
            final(self).fresh_pressed() == Set::<u32>::empty(),
            final(self).pressed() == old(self).pressed(),
            final(self).fresh_released() == old(self).fresh_released(),
    {
        self.just_pressed.clear();
    }

    pub fn clear_just_released(&mut self)
        ensures
            final(self).fresh_released() == Set::<u32>::empty(),
            final(self).pressed() == old(self).pressed(),
            final(self).fresh_pressed() == old(self).fresh_pressed(),
    {
        self.just_released.clear();
    }

    pub fn key_just_pressed(&self, key: u32) -> (fresh: bool)
        ensures
            fresh == self.fresh_pressed().contains(key),
    {
        self.just_pressed.contains(&key)
    }

    pub fn key_down(&self, key: u32) -> (down: bool)
        ensures
            down == self.pressed().contains(key),
    {
        self.pressed_keys.contains(&key)
    }

    pub fn key_up(&self, key: u32) -> (up: bool)
        ensures
            up == !self.pressed().contains(key),
    {
        !self.key_down(key)
    }

    pub fn key_just_released(&self, key: u32) -> (fresh: bool)
        ensures
            fresh == self.fresh_released().contains(key),
    {
        self.just_released.contains(&key)
    }
}

} // verus!
