//! A checkbox for a boolean that may be left undefined.

use vstd::prelude::*;
use super::key::{Key, KeyEvent};

verus! {

/// Space or Enter turns an undefined or unchecked box on and a checked one off.
pub open spec fn toggled(v: Option<bool>) -> Option<bool> {
    match v {
        Some(true) => Some(false),
        _ => Some(true),
    }
}

/// A classic checkbox.
#[derive(Debug, Clone)]
pub struct Checkbox {
    pub label: String,
    /// `None`: undefined (not set).
    pub value: Option<bool>,
}

impl Checkbox {
    pub fn new(label: &str, value: Option<bool>) -> (c: Checkbox)
        ensures
            c.label@ == label@,
            c.value == value,
    {
        Checkbox { label: label.to_owned(), value }
    }

    pub fn height(&self) -> (h: u16)
        ensures
            h == 1,
    {
        1
    }

    /// Space/Enter toggles, Delete/Backspace makes the value undefined;
    /// returns whether the key was used.
    pub fn handle_key(&mut self, key: KeyEvent) -> (used: bool)
        ensures
            final(self).label@ == old(self).label@,
            (key.code == Key::Char(' ') || key.code == Key::Enter) ==> used && final(self).value
                == toggled(old(self).value),
            (key.code == Key::Delete || key.code == Key::Backspace) ==> used && final(self).value
                is None,
            !(key.code == Key::Char(' ') || key.code == Key::Enter || key.code == Key::Delete
                || key.code == Key::Backspace) ==> !used && final(self).value == old(self).value,
    {
        match key.code {
            Key::Enter => {
                self.value = toggle(self.value);
                true
            },
            Key::Char(c) => {
                if c == ' ' {
                    self.value = toggle(self.value);
                    true
                } else {
                    false
                }
            },
            Key::Delete | Key::Backspace => {
                self.value = None;
                true
            },
            _ => false,
        }
    }
}

/// The toggled value.
pub fn toggle(v: Option<bool>) -> (r: Option<bool>)
    ensures
        r == toggled(v),
{
    match v {
        Some(true) => Some(false),
        _ => Some(true),
    }
}

} // verus!
