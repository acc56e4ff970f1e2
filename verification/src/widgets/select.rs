//! An inline select: options side by side, one of them chosen, or none
//! (undefined).

use vstd::prelude::*;
use super::key::{Key, KeyEvent};

verus! {

/// One option of a select.
#[derive(Debug, Clone)]
pub struct SelectOption {
    pub label: String,
    pub value: String,
}

/// An inline select.
#[derive(Debug, Clone)]
pub struct Select {
    pub label: String,
    pub options: Vec<SelectOption>,
    pub selected: usize,
    /// `false`: undefined (omitted when saving).
    pub set: bool,
}

/// Keys that step back: Left, `h`, Up.
pub open spec fn is_prev_key(k: Key) -> bool {
    k == Key::Left || k == Key::Char('h') || k == Key::Up
}

/// Keys that step forward: Right, `l`, Down, Space, Enter.
pub open spec fn is_next_key(k: Key) -> bool {
    k == Key::Right || k == Key::Char('l') || k == Key::Down || k == Key::Char(' ') || k == Key::Enter
}

impl Select {
    /// A select with `selected` clamped to the last option.
    pub fn new(label: &str, options: Vec<SelectOption>, selected: usize) -> (s: Select)
        ensures
            s.label@ == label@,
            s.options@ == options@,
            s.selected == (if options@.len() == 0 {
                0
            } else if selected < options@.len() {
                selected as int
            } else {
                options@.len() - 1
            }),
            s.set,
    {
        let selected = if options.len() == 0 {
            0
        } else if selected < options.len() {
            selected
        } else {
            options.len() - 1
        };
        Select { label: label.to_owned(), options, selected, set: true }
    }

    /// The same select, undefined.
    pub fn unset(self) -> (s: Select)
        ensures
            s.label == self.label,
            s.options == self.options,
            s.selected == self.selected,
            !s.set,
    {
        let mut s = self;
        s.set = false;
        s
    }

    pub fn height(&self) -> (h: u16)
        ensures
            h == 1,
    {
        1
    }

    /// The value of the chosen option, if the select is set.
    pub fn value(&self) -> (v: Option<&str>)
        ensures
            match v {
                Some(x) => self.set && self.selected < self.options@.len() && x@
                    == self.options@[self.selected as int].value@,
                None => !self.set || self.selected >= self.options@.len(),
            },
    {
        if !self.set {
            return None;
        }
        if self.selected < self.options.len() {
            Some(self.options[self.selected].value.as_str())
        } else {
            None
        }
    }

    /// An inline select never opens.
    pub fn open(&self) -> (r: bool)
        ensures
            !r,
    {
        false
    }

    /// Left/h/Up choose the previous option (wrapping), Right/l/Down/Space/
    /// Enter the next (wrapping), Delete/Backspace make it undefined; with no
    /// options nothing is used.
    pub fn handle_key(&mut self, key: KeyEvent) -> (used: bool)
        ensures
            final(self).label == old(self).label,
            final(self).options == old(self).options,
            old(self).options@.len() == 0 ==> !used && *final(self) == *old(self),
            old(self).options@.len() > 0 && is_prev_key(key.code) ==> used && final(self).set
                && final(self).selected == (if old(self).selected == 0 {
                    old(self).options@.len() - 1
                } else {
                    old(self).selected - 1
                }),
            old(self).options@.len() > 0 && is_next_key(key.code) ==> used && final(self).set
                && final(self).selected == (old(self).selected + 1) % (old(self).options@.len() as int),
            old(self).options@.len() > 0 && (key.code == Key::Delete || key.code == Key::Backspace)
                ==> used && !final(self).set && final(self).selected == old(self).selected,
            !(is_prev_key(key.code) || is_next_key(key.code) || key.code == Key::Delete
                || key.code == Key::Backspace) ==> !used && *final(self) == *old(self),
    {
        if self.options.len() == 0 {
            return false;
        }
        let n = self.options.len();
        let prev = match key.code {
            Key::Left | Key::Up => true,
            Key::Char(c) => c == 'h',
            _ => false,
        };
        let next = match key.code {
            Key::Right | Key::Down | Key::Enter => true,
            Key::Char(c) => c == 'l' || c == ' ',
            _ => false,
        };
        if prev {
            if self.selected == 0 {
                self.selected = n - 1;
            } else {
                self.selected = self.selected - 1;
            }
            self.set = true;
            true
        } else if next {
            self.selected = ((self.selected as u128 + 1) % (n as u128)) as usize;
            self.set = true;
            true
        } else {
            match key.code {
                Key::Delete | Key::Backspace => {
                    self.set = false;
                    true
                },
                _ => false,
            }
        }
    }
}

} // verus!
