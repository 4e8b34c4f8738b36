//! Which modifier keys are held down.
use vstd::prelude::*;

verus! {

/// A modifier key on either side of the keyboard.
#[derive(Clone, Copy, Debug, PartialEq, Eq, Structural)]
pub enum ModifierKey {
    LCtrl,
    RCtrl,
    LShift,
    RShift,
    LAlt,
    RAlt,
}

#[derive(Clone, Copy, Debug, PartialEq, Eq, Structural)]
pub struct KeyState {
    pub left_ctrl_down: bool,
    pub right_ctrl_down: bool,
    pub left_shift_down: bool,
    pub right_shift_down: bool,
    pub left_alt_down: bool,
    pub right_alt_down: bool,
}

impl KeyState {
    /// No key held.
    pub fn new() -> (r: KeyState)
        ensures
            !r.left_ctrl_down && !r.right_ctrl_down && !r.left_shift_down && !r.right_shift_down
                && !r.left_alt_down && !r.right_alt_down,
    {
        KeyState {
            left_ctrl_down: false,
            right_ctrl_down: false,
            left_shift_down: false,
            right_shift_down: false,
            left_alt_down: false,
            right_alt_down: false,
        }
    }

    pub fn ctrl(&self) -> (r: bool)
        ensures
            r == (self.left_ctrl_down || self.right_ctrl_down),
    {
        self.left_ctrl_down || self.right_ctrl_down
    }

    pub fn shift(&self) -> (r: bool)
        ensures
            r == (self.left_shift_down || self.right_shift_down),
    {
        self.left_shift_down || self.right_shift_down
    }

    pub fn alt(&self) -> (r: bool)
        ensures
            r == (self.left_alt_down || self.right_alt_down),
    {
        self.left_alt_down || self.right_alt_down
    }

    /// Records that `key` went down or up; any other key changes nothing.
    pub fn update_shift_alt_ctrl(&mut self, key: Option<ModifierKey>, is_down: bool)
        ensures
            *final(self) == match key {
                Some(ModifierKey::LCtrl) => KeyState { left_ctrl_down: is_down, ..*old(self) },
                Some(ModifierKey::RCtrl) => KeyState { right_ctrl_down: is_down, ..*old(self) },
                Some(ModifierKey::LShift) => KeyState { left_shift_down: is_down, ..*old(self) },
                Some(ModifierKey::RShift) => KeyState { right_shift_down: is_down, ..*old(self) },
                Some(ModifierKey::LAlt) => KeyState { left_alt_down: is_down, ..*old(self) },
                Some(ModifierKey::RAlt) => KeyState { right_alt_down: is_down, ..*old(self) },
                None => *old(self),
            },
    {
        match key {
            Some(ModifierKey::LCtrl) => {
                self.left_ctrl_down = is_down;
            },
            Some(ModifierKey::RCtrl) => {
                self.right_ctrl_down = is_down;
            },
            Some(ModifierKey::LShift) => {
                self.left_shift_down = is_down;
            },
            Some(ModifierKey::RShift) => {
                self.right_shift_down = is_down;
            },
            Some(ModifierKey::LAlt) => {
                self.left_alt_down = is_down;
            },
            Some(ModifierKey::RAlt) => {
                self.right_alt_down = is_down;
            },
            None => {},
        }
    }
}

} // verus!
