//! Single-line text input with a collapsed and an editing mode, the line
//! editing keys it shares with the password input, and the layout of a
//! one-line input (fitting, horizontal scrolling, the cursor cell).

use vstd::prelude::*;
use super::key::{Key, KeyEvent, Mods};
use crate::text::{from_chars, to_chars};

verus! {

/// The first `n` characters of `s` (all of them when `s` is shorter).
pub open spec fn prefix(s: Seq<char>, n: int) -> Seq<char> {
    if n <= s.len() {
        s.take(n)
    } else {
        s
    }
}

/// `s` without its first `n` characters (nothing when `s` is shorter).
pub open spec fn suffix(s: Seq<char>, n: int) -> Seq<char> {
    if n <= s.len() {
        s.skip(n)
    } else {
        Seq::empty()
    }
}

/// `n` spaces.
pub open spec fn spaces(n: nat) -> Seq<char> {
    Seq::new(n, |i: int| ' ')
}

/// Whether a character key types its character: no modifier or Shift.
pub open spec fn types_char(m: Mods) -> bool {
    m == Mods::NoMods || m == Mods::Shift
}

/// Effect of an editing key on a value and a cursor (counted in
/// characters): the new value, the new cursor, and whether the key was used.
pub open spec fn line_edit(value: Seq<char>, cursor: nat, key: KeyEvent) -> (Seq<char>, nat, bool) {
    let len = value.len();
    match key.code {
        Key::Left => (value, if cursor > 0 { (cursor - 1) as nat } else { 0 }, true),
        Key::Right => (value, if cursor < len { cursor + 1 } else { cursor }, true),
        Key::Home => (value, 0, true),
        Key::End => (value, len, true),
        Key::Backspace => if cursor > 0 {
            (prefix(value, cursor - 1) + suffix(value, cursor as int), (cursor - 1) as nat, true)
        } else {
            (value, cursor, true)
        },
        Key::Delete => if cursor < len {
            (prefix(value, cursor as int) + suffix(value, (cursor + 1) as int), cursor, true)
        } else {
            (value, cursor, true)
        },
        Key::Char(c) => if types_char(key.modifiers) {
            (prefix(value, cursor as int) + seq![c] + suffix(value, cursor as int), cursor + 1, true)
        } else {
            (value, cursor, false)
        },
        _ => (value, cursor, false),
    }
}

/// The first `n` characters of `s`, or all.
pub fn take_chars(s: &[char], n: usize) -> (r: Vec<char>)
    ensures
        r@ == prefix(s@, n as int),
{
    let m = if n <= s.len() { n } else { s.len() };
    let r = crate::text::slice_chars(s, 0, m);
    assert(r@ =~= prefix(s@, n as int));
    r
}

/// `s` after its first `n` characters.
pub fn skip_chars(s: &[char], n: usize) -> (r: Vec<char>)
    ensures
        r@ == suffix(s@, n as int),
{
    if n <= s.len() {
        let r = crate::text::slice_chars(s, n, s.len());
        assert(r@ =~= s@.skip(n as int));
        r
    } else {
        Vec::new()
    }
}

/// Applies an editing key to `value` and `cursor`; returns whether the key
/// was used.
pub fn handle_line_edit(value: &mut String, cursor: &mut usize, key: KeyEvent) -> (used: bool)
    requires
        *old(cursor) < usize::MAX,
    ensures
        (final(value)@, *final(cursor) as nat, used) == line_edit(old(value)@, *old(cursor) as nat, key),
{
    let v = to_chars(value.as_str());
    let len = v.len();
    let c0 = *cursor;
    match key.code {
        Key::Left => {
            *cursor = if c0 > 0 { c0 - 1 } else { 0 };
            true
        },
        Key::Right => {
            if c0 < len {
                *cursor = c0 + 1;
            }
            true
        },
        Key::Home => {
            *cursor = 0;
            true
        },
        Key::End => {
            *cursor = len;
            true
        },
        Key::Backspace => {
            if c0 > 0 {
                let mut nv = take_chars(v.as_slice(), c0 - 1);
                let after = skip_chars(v.as_slice(), c0);
                crate::text::push_all(&mut nv, after.as_slice());
                *value = from_chars(nv.as_slice());
                *cursor = c0 - 1;
            }
            true
        },
        Key::Delete => {
            if c0 < len {
                let mut nv = take_chars(v.as_slice(), c0);
                let after = skip_chars(v.as_slice(), c0 + 1);
                crate::text::push_all(&mut nv, after.as_slice());
                *value = from_chars(nv.as_slice());
            }
            true
        },
        Key::Char(c) => {
            let typed = match key.modifiers {
                Mods::NoMods | Mods::Shift => true,
                _ => false,
            };
            if typed {
                let mut nv = take_chars(v.as_slice(), c0);
                nv.push(c);
                let after = skip_chars(v.as_slice(), c0);
                crate::text::push_all(&mut nv, after.as_slice());
                *value = from_chars(nv.as_slice());
                *cursor = c0 + 1;
                true
            } else {
                false
            }
        },
        _ => false,
    }
}

/// Effect of a key on a one-line input: Enter starts editing with the cursor
/// at the end; while editing Enter or Esc stop, other keys edit.
pub open spec fn input_key(value: Seq<char>, cursor: nat, editing: bool, key: KeyEvent) -> (Seq<char>, nat, bool, bool) {
    if !editing {
        if key.code == Key::Enter {
            (value, value.len(), true, true)
        } else {
            (value, cursor, false, false)
        }
    } else if key.code == Key::Enter || key.code == Key::Esc {
        (value, cursor, false, true)
    } else {
        let (v, c, u) = line_edit(value, cursor, key);
        (v, c, true, u)
    }
}

/// Single-line text input.
#[derive(Debug, Clone)]
pub struct Text {
    pub label: String,
    pub value: String,
    pub cursor: usize,
    pub editing: bool,
}

/// Number of characters of `s`.
pub fn char_count(s: &String) -> (n: usize)
    ensures
        n == s@.len(),
{
    to_chars(s.as_str()).len()
}

/// Applies a key to the shared state of one-line inputs.
pub fn input_handle_key(value: &mut String, cursor: &mut usize, editing: &mut bool, key: KeyEvent) -> (used: bool)
    requires
        *old(cursor) < usize::MAX,
    ensures
        (final(value)@, *final(cursor) as nat, *final(editing), used) == input_key(
            old(value)@,
            *old(cursor) as nat,
            *old(editing),
            key,
        ),
{
    if !*editing {
        match key.code {
            Key::Enter => {
                *editing = true;
                *cursor = char_count(value);
                true
            },
            _ => false,
        }
    } else {
        match key.code {
            Key::Enter | Key::Esc => {
                *editing = false;
                true
            },
            _ => handle_line_edit(value, cursor, key),
        }
    }
}

impl Text {
    /// A collapsed input with the cursor after the value.
    pub fn new(label: &str, value: &str) -> (t: Text)
        ensures
            t.label@ == label@,
            t.value@ == value@,
            t.cursor == value@.len(),
            !t.editing,
    {
        let value = value.to_owned();
        let cursor = char_count(&value);
        Text { label: label.to_owned(), value, cursor, editing: false }
    }

    /// One row collapsed, two while editing (label, then input).
    pub fn height(&self) -> (h: u16)
        ensures
            h == (if self.editing { 2u16 } else { 1u16 }),
    {
        if self.editing {
            2
        } else {
            1
        }
    }

    pub fn is_editing(&self) -> (r: bool)
        ensures
            r == self.editing,
    {
        self.editing
    }

    /// Applies a key (see [`input_key`]); returns whether it was used.
    pub fn handle_key(&mut self, key: KeyEvent) -> (used: bool)
        requires
            old(self).cursor < usize::MAX,
        ensures
            final(self).label == old(self).label,
            (final(self).value@, final(self).cursor as nat, final(self).editing, used) == input_key(
                old(self).value@,
                old(self).cursor as nat,
                old(self).editing,
                key,
            ),
    {
        input_handle_key(&mut self.value, &mut self.cursor, &mut self.editing, key)
    }

    /// Leaves editing mode when the input loses focus.
    pub fn blur(&mut self, focused: bool)
        ensures
            final(self).label == old(self).label,
            final(self).value == old(self).value,
            final(self).cursor == old(self).cursor,
            final(self).editing == (old(self).editing && focused),
    {
        if !focused {
            self.editing = false;
        }
    }
}

// ---------------------------------------------------------------- layout

/// `s` cut or padded with spaces to exactly `width` characters.
pub open spec fn fitted(s: Seq<char>, width: nat) -> Seq<char> {
    if width == 0 {
        Seq::empty()
    } else if s.len() >= width {
        s.take(width as int)
    } else {
        s + spaces((width - s.len()) as nat)
    }
}

/// Pads or cuts `s` to exactly `width` characters.
pub fn fit_width(s: &str, width: usize) -> (r: String)
    ensures
        r@ == fitted(s@, width as nat),
        width > 0 ==> r@.len() == width,
{
    let v = to_chars(s);
    let r = fit_chars(v.as_slice(), width);
    from_chars(r.as_slice())
}

/// [`fit_width`] on characters.
pub fn fit_chars(v: &[char], width: usize) -> (r: Vec<char>)
    ensures
        r@ == fitted(v@, width as nat),
        width > 0 ==> r@.len() == width,
{
    if width == 0 {
        return Vec::new();
    }
    if v.len() >= width {
        return take_chars(v, width);
    }
    let mut r = crate::text::slice_chars(v, 0, v.len());
    let ghost base = r@;
    while r.len() < width
        invariant
            v.len() <= r.len() <= width,
            base == v@,
            r@ =~= base + spaces((r.len() - v.len()) as nat),
        decreases width - r.len(),
    {
        r.push(' ');
    }
    r
}

/// First visible character of a one-line input of the given width, so that
/// the cursor stays in view and no space is wasted at the end.
pub open spec fn scroll_from(len: nat, cursor: nat, width: nat) -> nat {
    if width == 0 {
        0
    } else {
        let base: nat = if cursor < width { 0 } else { (cursor + 1 - width) as nat };
        let limit: nat = (len - (if width < len { width } else { len })) as nat;
        if base < limit { base } else { limit }
    }
}

pub fn scroll_start(len: usize, cursor: usize, width: usize) -> (r: usize)
    ensures
        r == scroll_from(len as nat, cursor as nat, width as nat),
{
    if width == 0 {
        return 0;
    }
    let base = if cursor < width { 0 } else { cursor - width + 1 };
    let limit = len - (if width < len { width } else { len });
    if base < limit { base } else { limit }
}

/// Collapsed input: the prefix ` label: ` and what fits of the preview in
/// the rest of the row, cut with `…` when it does not fit.
pub open spec fn collapsed_shown(prefix_len: nat, preview: Seq<char>, width: nat) -> Seq<char> {
    let avail: nat = if width > prefix_len { (width - prefix_len) as nat } else { 0 };
    if avail == 0 {
        Seq::empty()
    } else if preview.len() <= avail {
        preview
    } else if avail <= 1 {
        seq!['…']
    } else {
        preview.take(avail - 1).push('…')
    }
}

/// The prefix and the shown preview of a collapsed input `width` wide.
pub fn collapsed_line(label: &str, preview: &str, width: usize) -> (r: (String, String))
    ensures
        r.0@ == seq![' '] + label@ + seq![':', ' '],
        r.1@ == collapsed_shown((label@.len() + 3) as nat, preview@, width as nat),
{
    let mut p: Vec<char> = Vec::new();
    p.push(' ');
    crate::text::push_str(&mut p, label);
    p.push(':');
    p.push(' ');
    assert(p@ =~= seq![' '] + label@ + seq![':', ' ']);
    let plen = p.len();
    let pv = to_chars(preview);
    let avail = if width > plen { width - plen } else { 0 };
    let shown: Vec<char> = if avail == 0 {
        Vec::new()
    } else if pv.len() <= avail {
        pv
    } else if avail <= 1 {
        let mut s = Vec::new();
        s.push('…');
        assert(s@ =~= seq!['…']);
        s
    } else {
        let mut s = take_chars(pv.as_slice(), avail - 1);
        s.push('…');
        s
    };
    (from_chars(p.as_slice()), from_chars(shown.as_slice()))
}

/// The input row of a focused one-line input `width` cells wide: the text
/// before the cursor cell, the character under the cursor (a space past
/// the end) and the text after it, padded to the width.
pub open spec fn cursor_row(display: Seq<char>, cursor: nat, width: nat) -> (Seq<char>, char, Seq<char>) {
    let start = scroll_from(display.len(), cursor, width);
    let rel0: nat = if cursor > start { (cursor - start) as nat } else { 0 };
    let rel: nat = if rel0 < width - 1 { rel0 } else { (width - 1) as nat };
    let before = prefix(suffix(display, start as int), rel as int);
    let at = if cursor < display.len() { display[cursor as int] } else { ' ' };
    let after_chars = prefix(suffix(display, (start + rel + 1) as int), width - (rel + 1));
    let pad: nat = if width > rel + 1 + after_chars.len() { (width - (rel + 1 + after_chars.len())) as nat } else { 0 };
    (before, at, after_chars + spaces(pad))
}

/// The input row of a focused one-line input (see [`cursor_row`]).
pub fn cursor_segments(display: &[char], cursor: usize, width: usize) -> (r: (Vec<char>, char, Vec<char>))
    requires
        width > 0,
    ensures
        (r.0@, r.1, r.2@) == cursor_row(display@, cursor as nat, width as nat),
{
    let start = scroll_start(display.len(), cursor, width);
    let rel0 = if cursor > start { cursor - start } else { 0 };
    let rel = if rel0 < width - 1 { rel0 } else { width - 1 };
    let tail = skip_chars(display, start);
    let before = take_chars(tail.as_slice(), rel);
    let at = if cursor < display.len() { display[cursor] } else { ' ' };
    let after_src = if start + rel + 1 <= display.len() {
        skip_chars(display, start + rel + 1)
    } else {
        Vec::new()
    };
    assert(after_src@ == suffix(display@, (start + rel + 1) as int));
    let mut after = take_chars(after_src.as_slice(), width - (rel + 1));
    let ghost a0 = after@;
    let target = if width > rel + 1 + after.len() { width - (rel + 1 + after.len()) } else { 0 };
    let mut k: usize = 0;
    while k < target
        invariant
            k <= target,
            after@ =~= a0 + spaces(k as nat),
        decreases target - k,
    {
        after.push(' ');
        k = k + 1;
    }
    (before, at, after)
}

/// What a one-line input shows: its value, or one `•` per character when masked.
pub open spec fn shown_value(value: Seq<char>, mask: bool) -> Seq<char> {
    if mask {
        Seq::new(value.len(), |i: int| '•')
    } else {
        value
    }
}

/// The characters a one-line input shows.
pub fn display_chars(value: &str, mask: bool) -> (r: Vec<char>)
    ensures
        r@ == shown_value(value@, mask),
{
    let v = to_chars(value);
    if !mask {
        return v;
    }
    let mut r: Vec<char> = Vec::new();
    while r.len() < v.len()
        invariant
            r.len() <= v.len(),
            r@ =~= Seq::new(r.len() as nat, |i: int| '•'),
        decreases v.len() - r.len(),
    {
        r.push('•');
    }
    r
}


// ---------------------------------------------------------------- laws

/// Whatever key is pressed, a cursor inside the value stays inside it.
pub proof fn law_cursor_stays_in_value(value: Seq<char>, cursor: nat, editing: bool, key: KeyEvent)
    requires
        cursor <= value.len(),
    ensures
        ({
            let (v, c, _e, _u) = input_key(value, cursor, editing, key);
            c <= v.len()
        }),
{
    if editing && !(key.code == Key::Enter || key.code == Key::Esc) {
        let (v, c, u) = line_edit(value, cursor, key);
        match key.code {
            Key::Backspace => {
                if cursor > 0 {
                    assert(v.len() == value.len() - 1);
                }
            },
            Key::Delete => {
                if cursor < value.len() {
                    assert(v.len() == value.len() - 1);
                }
            },
            Key::Char(ch) => {
                if types_char(key.modifiers) {
                    assert(v.len() == value.len() + 1);
                }
            },
            _ => {},
        }
    }
}

/// Backspace right after typing a character takes it out again: the value
/// and the cursor are as they were.
pub proof fn law_backspace_undoes_typing(value: Seq<char>, cursor: nat, ch: char, mods: Mods)
    requires
        cursor <= value.len(),
        types_char(mods),
    ensures
        ({
            let (v1, c1, _u1) = line_edit(value, cursor, KeyEvent { code: Key::Char(ch), modifiers: mods });
            let (v2, c2, _u2) = line_edit(v1, c1, KeyEvent { code: Key::Backspace, modifiers: Mods::NoMods });
            v2 == value && c2 == cursor
        }),
{
    let (v1, c1, _u1) = line_edit(value, cursor, KeyEvent { code: Key::Char(ch), modifiers: mods });
    assert(v1 =~= value.take(cursor as int) + seq![ch] + value.skip(cursor as int));
    assert(prefix(v1, c1 - 1) =~= value.take(cursor as int));
    assert(suffix(v1, c1 as int) =~= value.skip(cursor as int));
    assert(value =~= value.take(cursor as int) + value.skip(cursor as int));
}

} // verus!
