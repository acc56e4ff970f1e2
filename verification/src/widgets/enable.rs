//! A boolean shown as a pair of captions (enabled · disabled).

use vstd::prelude::*;
use super::checkbox::{toggle, toggled};
use super::key::{Key, KeyEvent};

verus! {

/// A boolean with on/off captions.
#[derive(Debug, Clone)]
pub struct Enable {
    pub label: String,
    pub value: Option<bool>,
    pub on: String,
    pub off: String,
}

impl Enable {
    pub fn new(label: &str, value: Option<bool>, on: &str, off: &str) -> (e: Enable)
        ensures
            e.label@ == label@,
            e.value == value,
            e.on@ == on@,
            e.off@ == off@,
    {
        Enable { label: label.to_owned(), value, on: on.to_owned(), off: off.to_owned() }
    }

    pub fn height(&self) -> (h: u16)
        ensures
            h == 1,
    {
        1
    }

    /// Space, Enter, Left or Right toggles; Delete/Backspace makes the
    /// value undefined; returns whether the key was used.
    pub fn handle_key(&mut self, key: KeyEvent) -> (used: bool)
        ensures
            final(self).label@ == old(self).label@,
            final(self).on@ == old(self).on@,
            final(self).off@ == old(self).off@,
            (key.code == Key::Char(' ') || key.code == Key::Enter || key.code == Key::Left
                || key.code == Key::Right) ==> used && final(self).value == toggled(old(self).value),
            (key.code == Key::Delete || key.code == Key::Backspace) ==> used && final(self).value
                is None,
            !(key.code == Key::Char(' ') || key.code == Key::Enter || key.code == Key::Left
                || key.code == Key::Right || key.code == Key::Delete || key.code == Key::Backspace)
                ==> !used && final(self).value == old(self).value,
    {
        match key.code {
            Key::Enter | Key::Left | Key::Right => {
                self.value = toggle(self.value);
                true
            },
            Key::Char(c) => {
                if c == ' ' {
                    self.value = toggle(self.value);
                    true
                } else {
                    false
                }
            },
            Key::Delete | Key::Backspace => {
                self.value = None;
                true
            },
            _ => false,
        }
    }
}

} // verus!
