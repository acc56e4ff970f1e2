//! Masked single-line input whose collapsed view says only whether a
//! password is set.

use vstd::prelude::*;
use super::key::KeyEvent;
use super::text::{char_count, input_handle_key, input_key};

verus! {

/// A password input.
#[derive(Debug, Clone)]
pub struct Password {
    pub label: String,
    pub value: String,
    pub cursor: usize,
    pub editing: bool,
    /// Collapsed preview when the value is empty (default `empty`).
    pub empty: String,
    /// Collapsed preview when a value is set (default `provided`).
    pub filled: String,
}

impl Password {
    /// A password input with the default previews.
    pub fn new(label: &str, value: &str) -> (p: Password)
        ensures
            p.label@ == label@,
            p.value@ == value@,
            p.cursor == value@.len(),
            !p.editing,
            p.empty@ == "empty"@,
            p.filled@ == "provided"@,
    {
        Self::with_hints(label, value, None, None)
    }

    /// A password input with the given previews (defaults when `None`).
    pub fn with_hints(label: &str, value: &str, empty: Option<String>, filled: Option<String>) -> (p: Password)
        ensures
            p.label@ == label@,
            p.value@ == value@,
            p.cursor == value@.len(),
            !p.editing,
            p.empty@ == (match empty {
                Some(e) => e@,
                None => "empty"@,
            }),
            p.filled@ == (match filled {
                Some(f) => f@,
                None => "provided"@,
            }),
    {
        let value = value.to_owned();
        let cursor = char_count(&value);
        let empty = match empty {
            Some(e) => e,
            None => "empty".to_owned(),
        };
        let filled = match filled {
            Some(f) => f,
            None => "provided".to_owned(),
        };
        Password { label: label.to_owned(), value, cursor, editing: false, empty, filled }
    }

    /// One row collapsed, two while editing.
    pub fn height(&self) -> (h: u16)
        ensures
            h == (if self.editing { 2u16 } else { 1u16 }),
    {
        if self.editing {
            2
        } else {
            1
        }
    }

    pub fn is_editing(&self) -> (r: bool)
        ensures
            r == self.editing,
    {
        self.editing
    }

    /// Applies a key like a text input; returns whether it was used.
    pub fn handle_key(&mut self, key: KeyEvent) -> (used: bool)
        requires
            old(self).cursor < usize::MAX,
        ensures
            final(self).label == old(self).label,
            final(self).empty == old(self).empty,
            final(self).filled == old(self).filled,
            (final(self).value@, final(self).cursor as nat, final(self).editing, used) == input_key(
                old(self).value@,
                old(self).cursor as nat,
                old(self).editing,
                key,
            ),
    {
        input_handle_key(&mut self.value, &mut self.cursor, &mut self.editing, key)
    }

    /// The collapsed preview: `empty` without a value, `filled` with one.
    pub fn preview(&self) -> (p: &str)
        ensures
            p@ == (if self.value@.len() == 0 { self.empty@ } else { self.filled@ }),
    {
        if char_count(&self.value) == 0 {
            self.empty.as_str()
        } else {
            self.filled.as_str()
        }
    }

    /// Leaves editing mode when the input loses focus.
    pub fn blur(&mut self, focused: bool)
        ensures
            final(self).label == old(self).label,
            final(self).value == old(self).value,
            final(self).cursor == old(self).cursor,
            final(self).empty == old(self).empty,
            final(self).filled == old(self).filled,
            final(self).editing == (old(self).editing && focused),
    {
        if !focused {
            self.editing = false;
        }
    }
}

} // verus!
