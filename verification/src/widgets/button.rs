//! A push button (Save / Cancel).

use vstd::prelude::*;
use super::key::{Key, KeyEvent};

verus! {

/// A simple action button.
#[derive(Debug, Clone)]
pub struct Button {
    pub label: String,
}

impl Button {
    pub fn new(label: &str) -> (b: Button)
        ensures
            b.label@ == label@,
    {
        Button { label: label.to_owned() }
    }

    /// Whether the key activates the button: Enter or Space.
    pub fn handle_key(&mut self, key: KeyEvent) -> (activated: bool)
        ensures
            activated == (key.code == Key::Enter || key.code == Key::Char(' ')),
            final(self).label@ == old(self).label@,
    {
        match key.code {
            Key::Enter => true,
            Key::Char(c) => c == ' ',
            _ => false,
        }
    }
}

} // verus!
