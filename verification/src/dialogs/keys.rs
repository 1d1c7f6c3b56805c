//! Keys, and what they stand for.

use vstd::prelude::*;

verus! {

/// A key.
#[derive(Clone, Copy, Debug, PartialEq, Eq, Structural)]
pub enum KeyCode {
    Char(char),
    Enter,
    Esc,
    Tab,
    BackTab,
    Backspace,
    Left,
    Right,
    Up,
    Down,
    Home,
    End,
    PageUp,
    PageDown,
    Other,
}

/// The keys that are held down with a key.
#[derive(Clone, Copy, Debug, PartialEq, Eq, Structural)]
pub struct KeyModifiers {
    pub shift: bool,
    pub control: bool,
    pub alt: bool,
    /// Whether any further one is: Super, Hyper or Meta.
    pub other: bool,
}

impl KeyModifiers {
    pub open spec fn nothing(self) -> bool {
        !self.shift && !self.control && !self.alt && !self.other
    }

    /// Nothing but Shift is held down, so that a character is typed.
    pub open spec fn typing(self) -> bool {
        !self.control && !self.alt && !self.other
    }

    /// No key is held down.
    pub fn is_empty(&self) -> (r: bool)
        ensures
            r == self.nothing(),
    {
        !self.shift && !self.control && !self.alt && !self.other
    }

    /// Nothing but Shift is held down.
    pub fn is_typing(&self) -> (r: bool)
        ensures
            r == self.typing(),
    {
        !self.control && !self.alt && !self.other
    }
}

/// What a key stands for in every dialog.
#[derive(Clone, Copy, Debug, PartialEq, Eq, Structural)]
pub enum NavAction {
    Up,
    Down,
    PageUp,
    PageDown,
    Confirm,
    Dismiss,
    Edit,
}

} // verus!
