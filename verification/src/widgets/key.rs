//! Key presses as the widgets see them.

use vstd::prelude::*;

verus! {

/// A key.
#[derive(Debug, Clone, Copy, PartialEq, Eq, Structural)]
pub enum Key {
    Char(char),
    Enter,
    Esc,
    Tab,
    BackTab,
    Left,
    Right,
    Up,
    Down,
    Home,
    End,
    Backspace,
    Delete,
    PageUp,
    PageDown,
    /// Any other key.
    Other,
}

/// The modifier keys held: none, exactly Shift, exactly Control, or some
/// other combination.
#[derive(Debug, Clone, Copy, PartialEq, Eq, Structural)]
pub enum Mods {
    NoMods,
    Shift,
    Control,
    Other,
}

/// A key press with its modifiers.
#[derive(Debug, Clone, Copy, PartialEq, Eq, Structural)]
pub struct KeyEvent {
    pub code: Key,
    pub modifiers: Mods,
}

impl KeyEvent {
    /// A press of `code` without modifiers.
    pub fn plain(code: Key) -> (k: KeyEvent)
        ensures
            k == (KeyEvent { code, modifiers: Mods::NoMods }),
    {
        KeyEvent { code, modifiers: Mods::NoMods }
    }
}

} // verus!
