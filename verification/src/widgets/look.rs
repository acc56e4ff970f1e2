//! What each widget shows: its rows of styled text for a given area, in
//! the colours of the form. The front end only puts the rows on screen.

use vstd::prelude::*;
use crate::sanitize::{span_views, Span};
use crate::style::{added, bold, bold_fg, fg_style, plain, style_bold_fg, style_fg, Color, Modifiers, Style};
use crate::text::{from_chars, push_str, to_chars};
use super::button::Button;
use super::checkbox::Checkbox;
use super::enable::Enable;
use super::password::Password;
use super::select::{Select, SelectOption};
use super::text::{
    collapsed_line, collapsed_shown, cursor_row, cursor_segments, display_chars, fit_chars, fitted, shown_value, spaces,
    Text,
};
use super::textarea::{
    build_visual, first_shown, lemma_visual_of, lens_of, rows_fit, rows_view as vrows_view, scroll_to_cursor, vindex,
    visual_index_for_cursor, visual_of, TextArea, VRow, VisualRow, WRAP_MARK,
};
use crate::text::strings;

verus! {

// ---------------------------------------------------------------- colours

/// Background of inputs and buttons at rest.
pub open spec fn slate() -> Color {
    Color::Rgb(0x3b, 0x42, 0x52)
}

/// A widget's label: bold cyan when focused, else gray.
pub open spec fn label_spec(focused: bool) -> Style {
    if focused { bold_fg(Color::Cyan) } else { fg_style(Color::Gray) }
}

pub fn label_style(focused: bool) -> (s: Style)
    ensures
        s == label_spec(focused),
{
    if focused { style_bold_fg(Color::Cyan) } else { style_fg(Color::Gray) }
}

/// A checkbox's mark: white, on slate when focused.
pub open spec fn field_spec(focused: bool) -> Style {
    if focused { Style { bg: Some(slate()), ..fg_style(Color::White) } } else { fg_style(Color::White) }
}

pub fn field_style(focused: bool) -> (s: Style)
    ensures
        s == field_spec(focused),
{
    if focused { style_fg(Color::White).bg(Color::Rgb(0x3b, 0x42, 0x52)) } else { style_fg(Color::White) }
}

/// An input's text: black on cyan when focused, else white on slate.
pub open spec fn input_spec(focused: bool) -> Style {
    if focused {
        Style { bg: Some(Color::Cyan), ..fg_style(Color::Black) }
    } else {
        Style { bg: Some(slate()), ..fg_style(Color::White) }
    }
}

pub fn input_style(focused: bool) -> (s: Style)
    ensures
        s == input_spec(focused),
{
    if focused {
        style_fg(Color::Black).bg(Color::Cyan)
    } else {
        style_fg(Color::White).bg(Color::Rgb(0x3b, 0x42, 0x52))
    }
}

/// The cursor cell: bold cyan on black.
pub open spec fn cursor_spec() -> Style {
    added(Style { bg: Some(Color::Black), ..fg_style(Color::Cyan) }, bold())
}

pub fn input_cursor_style() -> (s: Style)
    ensures
        s == cursor_spec(),
{
    style_bold_fg(Color::Cyan).bg(Color::Black)
}

/// A button: bold black on cyan when focused, else white on slate.
pub open spec fn button_spec(focused: bool) -> Style {
    if focused { added(input_spec(true), bold()) } else { input_spec(false) }
}

/// The chosen one of several captions.
pub open spec fn active_spec() -> Style {
    bold_fg(Color::Green)
}

/// A caption not chosen.
pub open spec fn inactive_spec() -> Style {
    fg_style(Color::DarkGray)
}

/// Captions when nothing is chosen.
pub open spec fn unknown_spec() -> Style {
    fg_style(Color::Yellow)
}

fn span(content: String, style: Style) -> (s: Span)
    ensures
        s.content@ == content@,
        s.style == style,
{
    Span { content, style }
}

fn raw_str(content: &str) -> (s: Span)
    ensures
        s.content@ == content@,
        s.style == plain(),
{
    Span { content: content.to_owned(), style: Style::new() }
}

/// Rows of styled text as plain values.
pub open spec fn rows_view(v: Seq<Vec<Span>>) -> Seq<Seq<(Seq<char>, Style)>> {
    v.map_values(|l: Vec<Span>| span_views(l@))
}

/// Width inside a one-column margin on each side.
pub open spec fn inner(width: nat) -> nat {
    if width >= 2 { (width - 2) as nat } else { 0 }
}

// ---------------------------------------------------------------- one-line inputs

/// A collapsed input `width` columns wide: ` label: ` and as much of the
/// preview as fits.
pub open spec fn collapsed_spec(label: Seq<char>, preview: Seq<char>, width: nat, focused: bool) -> Seq<(Seq<char>, Style)> {
    seq![
        (seq![' '] + label + seq![':', ' '], label_spec(focused)),
        (collapsed_shown((label.len() + 3) as nat, preview, width), input_spec(false)),
    ]
}

pub fn collapsed_spans(label: &str, preview: &str, width: u16, focused: bool) -> (r: Vec<Span>)
    ensures
        span_views(r@) == collapsed_spec(label@, preview@, width as nat, focused),
{
    let (p, shown) = collapsed_line(label, preview, width as usize);
    let mut r: Vec<Span> = Vec::new();
    r.push(span(p, label_style(focused)));
    r.push(span(shown, input_style(false)));
    assert(span_views(r@) =~~= collapsed_spec(label@, preview@, width as nat, focused));
    r
}

/// The input row of an input being edited, `width` columns inside its
/// margins: with the cursor cell when focused, else the value fitted to
/// the width; nothing when there is no room.
pub open spec fn input_row_spec(value: Seq<char>, cursor: nat, width: nat, focused: bool, mask: bool) -> Seq<(Seq<char>, Style)> {
    let shown = shown_value(value, mask);
    if width == 0 {
        Seq::empty()
    } else if focused {
        let (before, at, after) = cursor_row(shown, cursor, width);
        seq![
            (seq![' '], plain()),
            (before, input_spec(true)),
            (seq![at], cursor_spec()),
            (after, input_spec(true)),
            (seq![' '], plain()),
        ]
    } else {
        seq![(seq![' '], plain()), (fitted(shown, width), input_spec(false)), (seq![' '], plain())]
    }
}

/// An input being edited in an area `width` columns wide: ` label:` above
/// the input row.
pub open spec fn editing_spec(label: Seq<char>, value: Seq<char>, cursor: nat, width: nat, focused: bool, mask: bool) -> Seq<Seq<(Seq<char>, Style)>> {
    seq![
        seq![(seq![' '] + label + seq![':'], label_spec(focused))],
        input_row_spec(value, cursor, inner(width), focused, mask),
    ]
}

fn input_row(value: &str, cursor: usize, width: usize, focused: bool, mask: bool) -> (r: Vec<Span>)
    ensures
        span_views(r@) == input_row_spec(value@, cursor as nat, width as nat, focused, mask),
{
    let shown = display_chars(value, mask);
    let mut r: Vec<Span> = Vec::new();
    if width == 0 {
        assert(span_views(r@) =~~= input_row_spec(value@, cursor as nat, width as nat, focused, mask));
        return r;
    }
    if focused {
        let (before, at, after) = cursor_segments(shown.as_slice(), cursor, width);
        let mut a: Vec<char> = Vec::new();
        a.push(at);
        r.push(raw_str(" "));
        r.push(span(from_chars(before.as_slice()), input_style(true)));
        r.push(span(from_chars(a.as_slice()), input_cursor_style()));
        r.push(span(from_chars(after.as_slice()), input_style(true)));
        r.push(raw_str(" "));
        proof {
            reveal_strlit(" ");
            assert(a@ =~~= seq![at]);
        }
    } else {
        let f = fit_chars(shown.as_slice(), width);
        r.push(raw_str(" "));
        r.push(span(from_chars(f.as_slice()), input_style(false)));
        r.push(raw_str(" "));
        proof {
            reveal_strlit(" ");
        }
    }
    assert(span_views(r@) =~~= input_row_spec(value@, cursor as nat, width as nat, focused, mask));
    r
}

fn editing_rows(label: &str, value: &str, cursor: usize, width: u16, focused: bool, mask: bool) -> (r: Vec<Vec<Span>>)
    ensures
        rows_view(r@) == editing_spec(label@, value@, cursor as nat, width as nat, focused, mask),
{
    let mut head = to_chars(" ");
    push_str(&mut head, label);
    head.push(':');
    let mut first: Vec<Span> = Vec::new();
    first.push(span(from_chars(head.as_slice()), label_style(focused)));
    let w: usize = if width >= 2 { (width - 2) as usize } else { 0 };
    let second = input_row(value, cursor, w, focused, mask);
    let mut r: Vec<Vec<Span>> = Vec::new();
    r.push(first);
    r.push(second);
    proof {
        reveal_strlit(" ");
        assert(span_views(r@[0]@) =~~= seq![(seq![' '] + label@ + seq![':'], label_spec(focused))]);
    }
    assert(rows_view(r@) =~~= editing_spec(label@, value@, cursor as nat, width as nat, focused, mask));
    r
}

/// A text input in an area `width` columns wide: it leaves editing when
/// not focused, then shows its editing rows or its collapsed row.
pub open spec fn text_rows(label: Seq<char>, value: Seq<char>, cursor: nat, editing: bool, width: nat, focused: bool) -> Seq<Seq<(Seq<char>, Style)>> {
    if editing && focused {
        editing_spec(label, value, cursor, width, focused, false)
    } else {
        seq![collapsed_spec(label, value, width, focused)]
    }
}

impl Text {
    /// The rows of the input (leaving editing first when not focused).
    pub fn view(&mut self, width: u16, focused: bool) -> (r: Vec<Vec<Span>>)
        ensures
            final(self).label == old(self).label,
            final(self).value == old(self).value,
            final(self).cursor == old(self).cursor,
            final(self).editing == (old(self).editing && focused),
            rows_view(r@) == text_rows(
                old(self).label@,
                old(self).value@,
                old(self).cursor as nat,
                old(self).editing,
                width as nat,
                focused,
            ),
    {
        self.blur(focused);
        if self.editing {
            editing_rows(self.label.as_str(), self.value.as_str(), self.cursor, width, focused, false)
        } else {
            let mut r: Vec<Vec<Span>> = Vec::new();
            r.push(collapsed_spans(self.label.as_str(), self.value.as_str(), width, focused));
            assert(rows_view(r@) =~~= seq![collapsed_spec(self.label@, self.value@, width as nat, focused)]);
            r
        }
    }
}

/// A password input: like a text input, its value masked while editing
/// and shown collapsed as `empty` or `filled`.
pub open spec fn password_rows(p: Password, width: nat, focused: bool) -> Seq<Seq<(Seq<char>, Style)>> {
    if p.editing && focused {
        editing_spec(p.label@, p.value@, p.cursor as nat, width, focused, true)
    } else {
        seq![
            collapsed_spec(
                p.label@,
                if p.value@.len() == 0 { p.empty@ } else { p.filled@ },
                width,
                focused,
            ),
        ]
    }
}

impl Password {
    /// The rows of the input (leaving editing first when not focused).
    pub fn view(&mut self, width: u16, focused: bool) -> (r: Vec<Vec<Span>>)
        ensures
            final(self).label == old(self).label,
            final(self).value == old(self).value,
            final(self).cursor == old(self).cursor,
            final(self).empty == old(self).empty,
            final(self).filled == old(self).filled,
            final(self).editing == (old(self).editing && focused),
            rows_view(r@) == password_rows(*old(self), width as nat, focused),
    {
        self.blur(focused);
        if self.editing {
            editing_rows(self.label.as_str(), self.value.as_str(), self.cursor, width, focused, true)
        } else {
            let mut r: Vec<Vec<Span>> = Vec::new();
            r.push(collapsed_spans(self.label.as_str(), self.preview(), width, focused));
            r
        }
    }
}

// ---------------------------------------------------------------- choices

/// The captions of the options: each label, separated by ` · `; the
/// selected one active when set, all unknown when not set.
pub open spec fn option_spans(opts: Seq<SelectOption>, selected: usize, set: bool, n: nat) -> Seq<(Seq<char>, Style)>
    decreases n,
{
    if n == 0 {
        Seq::empty()
    } else {
        let i = (n - 1) as int;
        let style = if !set { unknown_spec() } else if i == selected { active_spec() } else { inactive_spec() };
        let sep: Seq<(Seq<char>, Style)> = if i > 0 { seq![(" · "@, plain())] } else { Seq::empty() };
        option_spans(opts, selected, set, (n - 1) as nat) + sep + seq![(opts[i].label@, style)]
    }
}

/// A select's row: ` label: `, the captions, and a dash when there are no
/// options.
pub open spec fn select_spec(s: Select, focused: bool) -> Seq<(Seq<char>, Style)> {
    seq![(seq![' '] + s.label@ + seq![':', ' '], label_spec(focused))] + option_spans(
        s.options@,
        s.selected,
        s.set,
        s.options@.len(),
    ) + if s.options@.len() == 0 { seq![("—"@, unknown_spec())] } else { Seq::empty() }
}

impl Select {
    /// The select's row.
    pub fn view(&self, focused: bool) -> (r: Vec<Span>)
        ensures
            span_views(r@) == select_spec(*self, focused),
    {
        let mut head = to_chars(" ");
        push_str(&mut head, self.label.as_str());
        push_str(&mut head, ": ");
        let mut r: Vec<Span> = Vec::new();
        r.push(span(from_chars(head.as_slice()), label_style(focused)));
        proof {
            reveal_strlit(" ");
            reveal_strlit(": ");
        }
        let ghost h = seq![(seq![' '] + self.label@ + seq![':', ' '], label_spec(focused))];
        assert(span_views(r@) =~~= h + option_spans(self.options@, self.selected, self.set, 0));
        let mut i: usize = 0;
        while i < self.options.len()
            invariant
                i <= self.options@.len(),
                span_views(r@) =~~= h + option_spans(self.options@, self.selected, self.set, i as nat),
            decreases self.options.len() - i,
        {
            let ghost before = span_views(r@);
            if i > 0 {
                r.push(raw_str(" · "));
            }
            let style = if !self.set {
                style_fg(Color::Yellow)
            } else if i == self.selected {
                style_bold_fg(Color::Green)
            } else {
                style_fg(Color::DarkGray)
            };
            r.push(span(self.options[i].label.clone(), style));
            proof {
                let ii = i as int;
                let st = if !self.set {
                    unknown_spec()
                } else if ii == self.selected {
                    active_spec()
                } else {
                    inactive_spec()
                };
                let sep: Seq<(Seq<char>, Style)> = if ii > 0 { seq![(" · "@, plain())] } else { Seq::empty() };
                assert(style == st);
                assert(span_views(r@) =~~= before + sep + seq![(self.options@[ii].label@, st)]);
                assert(option_spans(self.options@, self.selected, self.set, (i + 1) as nat) == option_spans(
                    self.options@,
                    self.selected,
                    self.set,
                    i as nat,
                ) + sep + seq![(self.options@[ii].label@, st)]);
            }
            assert(span_views(r@) =~~= h + option_spans(self.options@, self.selected, self.set, (i + 1) as nat));
            i = i + 1;
        }
        if self.options.len() == 0 {
            r.push(span("—".to_owned(), style_fg(Color::Yellow)));
        }
        assert(span_views(r@) =~~= select_spec(*self, focused));
        r
    }
}

/// The mark of a checkbox value.
pub open spec fn mark_of(v: Option<bool>) -> Seq<char> {
    match v {
        Some(true) => "[x]"@,
        Some(false) => "[ ]"@,
        None => "[?]"@,
    }
}

/// A checkbox's row: the mark, then the label.
pub open spec fn checkbox_spec(c: Checkbox, focused: bool) -> Seq<(Seq<char>, Style)> {
    seq![(seq![' '] + mark_of(c.value) + seq![' '], field_spec(focused)), (c.label@, label_spec(focused))]
}

impl Checkbox {
    /// The checkbox's row.
    pub fn view(&self, focused: bool) -> (r: Vec<Span>)
        ensures
            span_views(r@) == checkbox_spec(*self, focused),
    {
        let mark = match self.value {
            Some(true) => " [x] ",
            Some(false) => " [ ] ",
            None => " [?] ",
        };
        let mut r: Vec<Span> = Vec::new();
        r.push(span(mark.to_owned(), field_style(focused)));
        r.push(span(self.label.clone(), label_style(focused)));
        proof {
            reveal_strlit(" [x] ");
            reveal_strlit(" [ ] ");
            reveal_strlit(" [?] ");
            reveal_strlit("[x]");
            reveal_strlit("[ ]");
            reveal_strlit("[?]");
        }
        assert(span_views(r@) =~~= checkbox_spec(*self, focused));
        r
    }
}

/// A switch's row: ` label `, then both captions, the current one active
/// (both unknown when unset).
pub open spec fn enable_spec(e: Enable, focused: bool) -> Seq<(Seq<char>, Style)> {
    let (on_style, off_style) = match e.value {
        Some(true) => (active_spec(), inactive_spec()),
        Some(false) => (inactive_spec(), active_spec()),
        None => (unknown_spec(), unknown_spec()),
    };
    seq![
        (seq![' '] + e.label@ + seq![' '], label_spec(focused)),
        (e.on@, on_style),
        (" · "@, plain()),
        (e.off@, off_style),
    ]
}

impl Enable {
    /// The switch's row.
    pub fn view(&self, focused: bool) -> (r: Vec<Span>)
        ensures
            span_views(r@) == enable_spec(*self, focused),
    {
        let (on_style, off_style) = match self.value {
            Some(true) => (style_bold_fg(Color::Green), style_fg(Color::DarkGray)),
            Some(false) => (style_fg(Color::DarkGray), style_bold_fg(Color::Green)),
            None => (style_fg(Color::Yellow), style_fg(Color::Yellow)),
        };
        let mut head = to_chars(" ");
        push_str(&mut head, self.label.as_str());
        head.push(' ');
        let mut r: Vec<Span> = Vec::new();
        r.push(span(from_chars(head.as_slice()), label_style(focused)));
        r.push(span(self.on.clone(), on_style));
        r.push(raw_str(" · "));
        r.push(span(self.off.clone(), off_style));
        proof {
            reveal_strlit(" ");
        }
        assert(span_views(r@) =~~= enable_spec(*self, focused));
        r
    }
}

impl Button {
    /// The button's row: ` label ` in the button colours.
    pub fn view(&self, focused: bool) -> (r: Vec<Span>)
        ensures
            span_views(r@) == seq![(seq![' '] + self.label@ + seq![' '], button_spec(focused))],
    {
        let mut t = to_chars(" ");
        push_str(&mut t, self.label.as_str());
        t.push(' ');
        let style = if focused {
            style_bold_fg(Color::Black).bg(Color::Cyan)
        } else {
            style_fg(Color::White).bg(Color::Rgb(0x3b, 0x42, 0x52))
        };
        let mut r: Vec<Span> = Vec::new();
        r.push(span(from_chars(t.as_slice()), style));
        proof {
            reveal_strlit(" ");
        }
        assert(span_views(r@) =~~= seq![(seq![' '] + self.label@ + seq![' '], button_spec(focused))]);
        r
    }
}


// ---------------------------------------------------------------- text area

/// A row showing `content` `width` columns inside its margins, the last
/// column holding the wrap mark when the line goes on.
pub open spec fn padded_spec(content: Seq<char>, width: nat, style: Style, wraps: bool) -> Seq<(Seq<char>, Style)> {
    if width == 0 {
        Seq::empty()
    } else if wraps {
        seq![
            (seq![' '], plain()),
            (fitted(content, (width - 1) as nat), style),
            (seq![WRAP_MARK], style),
            (seq![' '], plain()),
        ]
    } else {
        seq![(seq![' '], plain()), (fitted(content, width), style), (seq![' '], plain())]
    }
}

/// The cells of a row holding the cursor at `rel`: the characters before
/// it, the one under it (a space past the end), and the rest padded to
/// `content_w` cells.
pub open spec fn cursor_cells(chunk: Seq<char>, content_w: nat, rel: nat) -> (Seq<char>, char, Seq<char>) {
    let at = if rel < chunk.len() { chunk[rel as int] } else { ' ' };
    let after = if rel + 1 <= chunk.len() { chunk.skip((rel + 1) as int) } else { Seq::empty() };
    let used = rel + 1 + after.len();
    let pad: nat = if content_w > used { (content_w - used) as nat } else { 0 };
    (chunk.take(rel as int), at, after + spaces(pad))
}

/// A visual row of logical line `line`; with `show_cursor`, the cell of
/// column `col` (kept inside the row) is drawn as the cursor and the rest
/// padded to the width.
pub open spec fn visual_row_spec(line: Seq<char>, vr: VRow, width: nat, style: Style, show_cursor: bool, col: nat) -> Seq<(Seq<char>, Style)> {
    let chunk = line.subrange(vr.start as int, (vr.start + vr.len) as int);
    let mark_w: nat = if vr.wraps { 1 } else { 0 };
    if !show_cursor || width <= mark_w {
        padded_spec(chunk, width, style, vr.wraps)
    } else {
        let content_w = (width - mark_w) as nat;
        let rel0: nat = if col > vr.start { (col - vr.start) as nat } else { 0 };
        let rel1: nat = if rel0 > vr.len { vr.len } else { rel0 };
        let rel: nat = if rel1 >= content_w { (content_w - 1) as nat } else { rel1 };
        let (before, at, rest) = cursor_cells(chunk, content_w, rel);
        seq![(seq![' '], plain()), (before, style), (seq![at], cursor_spec()), (rest, style)]
            + (if vr.wraps { seq![(seq![WRAP_MARK], style)] } else { Seq::empty() }) + seq![(seq![' '], plain())]
    }
}

/// The `view_h` rows of an editor over `lines` with the cursor at `row`,
/// `col`, `width` columns inside its margins: the visual rows scrolled to
/// show the cursor's, then empty rows.
pub open spec fn area_rows_spec(lines: Seq<Seq<char>>, row: nat, col: nat, width: nat, view_h: nat, focused: bool) -> Seq<Seq<(Seq<char>, Style)>> {
    let v = visual_of(lens_of(lines), width);
    let cv = vindex(v, row, col);
    let first = first_shown(cv as nat, view_h, v.len());
    let rest: nat = if v.len() > first { (v.len() - first) as nat } else { 0 };
    let k: nat = if view_h < rest { view_h } else { rest };
    let style = input_spec(focused);
    Seq::new(
        k,
        |j: int| visual_row_spec(lines[v[first + j].log_row as int], v[first + j], width, style, focused && first + j == cv, col),
    ) + Seq::new((view_h - k) as nat, |j: int| padded_spec(Seq::empty(), width, style, false))
}

/// Rows of the body of an editor in an area `height` rows high.
pub open spec fn body_rows(height: nat, view_height: nat) -> nat {
    let h: nat = if height >= 1 { (height - 1) as nat } else { 0 };
    if h < view_height { h } else { view_height }
}

fn padded(content: &[char], width: usize, style: Style, wraps: bool) -> (r: Vec<Span>)
    ensures
        span_views(r@) =~~= padded_spec(content@, width as nat, style, wraps),
{
    let mut r: Vec<Span> = Vec::new();
    if width == 0 {
        return r;
    }
    proof {
        reveal_strlit(" ");
    }
    r.push(raw_str(" "));
    if wraps {
        let f = fit_chars(content, width - 1);
        r.push(span(from_chars(f.as_slice()), style));
        let mut m: Vec<char> = Vec::new();
        m.push(WRAP_MARK);
        r.push(span(from_chars(m.as_slice()), style));
        assert(m@ =~= seq![WRAP_MARK]);
    } else {
        let f = fit_chars(content, width);
        r.push(span(from_chars(f.as_slice()), style));
    }
    r.push(raw_str(" "));
    r
}

fn cursor_cells_exec(chunk: &[char], content_w: usize, rel: usize) -> (r: (Vec<char>, char, Vec<char>))
    requires
        rel <= chunk@.len(),
        rel < content_w,
    ensures
        (r.0@, r.1, r.2@) == cursor_cells(chunk@, content_w as nat, rel as nat),
{
    let before = crate::text::slice_chars(chunk, 0, rel);
    let at = if rel < chunk.len() { chunk[rel] } else { ' ' };
    let mut after: Vec<char> = if rel + 1 <= chunk.len() {
        crate::text::slice_chars(chunk, rel + 1, chunk.len())
    } else {
        Vec::new()
    };
    let used = rel + 1 + after.len();
    let pad = if content_w > used { content_w - used } else { 0 };
    let ghost a0 = after@;
    let mut k: usize = 0;
    while k < pad
        invariant
            k <= pad,
            after@ =~= a0 + spaces(k as nat),
        decreases pad - k,
    {
        after.push(' ');
        k = k + 1;
    }
    assert(before@ =~= chunk@.take(rel as int));
    proof {
        if rel + 1 <= chunk@.len() {
            assert(a0 =~= chunk@.skip((rel + 1) as int));
        } else {
            assert(a0 =~= Seq::<char>::empty());
        }
    }
    (before, at, after)
}

#[verifier::rlimit(60)]
fn visual_row(line: &String, vr: VisualRow, width: usize, style: Style, show_cursor: bool, col: usize) -> (r: Vec<Span>)
    requires
        vr.start + vr.len <= line@.len(),
    ensures
        span_views(r@) =~~= visual_row_spec(line@, vr@, width as nat, style, show_cursor, col as nat),
{
    let cs = to_chars(line.as_str());
    let n = cs.len();
    assert(n == line@.len());
    let end: usize = vr.start + vr.len;
    let chunk = crate::text::slice_chars(cs.as_slice(), vr.start, end);
    let ghost ch = line@.subrange(vr.start as int, end as int);
    assert(chunk@ == ch);
    let mark_w: usize = if vr.wraps { 1 } else { 0 };
    if !show_cursor || width <= mark_w {
        return padded(chunk.as_slice(), width, style, vr.wraps);
    }
    let content_w = width - mark_w;
    let rel0 = if col > vr.start { col - vr.start } else { 0 };
    let rel1 = if rel0 > vr.len { vr.len } else { rel0 };
    let rel = if rel1 >= content_w { content_w - 1 } else { rel1 };
    let (before, at, rest) = cursor_cells_exec(chunk.as_slice(), content_w, rel);
    let ghost cells = cursor_cells(ch, content_w as nat, rel as nat);
    assert(before@ == cells.0 && at == cells.1 && rest@ == cells.2);
    proof {
        reveal_strlit(" ");
    }
    let mut a: Vec<char> = Vec::new();
    a.push(at);
    let mut r: Vec<Span> = Vec::new();
    r.push(raw_str(" "));
    r.push(span(from_chars(before.as_slice()), style));
    r.push(span(from_chars(a.as_slice()), input_cursor_style()));
    r.push(span(from_chars(rest.as_slice()), style));
    if vr.wraps {
        let mut m: Vec<char> = Vec::new();
        m.push(WRAP_MARK);
        r.push(span(from_chars(m.as_slice()), style));
        assert(m@ =~= seq![WRAP_MARK]);
    }
    r.push(raw_str(" "));
    assert(a@ =~= seq![at]);
    let ghost tail: Seq<(Seq<char>, Style)> = if vr.wraps { seq![(seq![WRAP_MARK], style)] } else { Seq::empty() };
    assert(span_views(r@) =~~= seq![(seq![' '], plain()), (cells.0, style), (seq![cells.1], cursor_spec()), (cells.2, style)]
        + tail + seq![(seq![' '], plain())]);
    r
}

/// The body rows of an editor (see [`area_rows_spec`]).
#[verifier::loop_isolation(false)]
fn area_rows(lines: &Vec<String>, row: usize, col: usize, w: usize, vh: usize, focused: bool) -> (r: Vec<Vec<Span>>)
    requires
        lines@.len() > 0,
    ensures
        rows_view(r@) == area_rows_spec(strings(lines@), row as nat, col as nat, w as nat, vh as nat, focused),
{
    let ghost ls = strings(lines@);
    let style = input_style(focused);
    let visual = build_visual(lines, w);
    let ghost v = visual_of(lens_of(ls), w as nat);
    proof {
        assert(lens_of(ls).len() > 0);
        lemma_visual_of(lens_of(ls), w as nat);
    }
    let cv = visual_index_for_cursor(&visual, row, col);
    let first = scroll_to_cursor(cv, vh, visual.len());
    let rest = if visual.len() > first { visual.len() - first } else { 0 };
    let k = if vh < rest { vh } else { rest };
    let ghost rows_k = Seq::new(
        k as nat,
        |j: int| visual_row_spec(ls[v[first + j].log_row as int], v[first + j], w as nat, style, focused && first + j == cv, col as nat),
    );
    let mut r: Vec<Vec<Span>> = Vec::new();
    let mut j: usize = 0;
    while j < k
        invariant
            j <= k,
            r@.len() == j,
            forall|i: int| 0 <= i < j ==> span_views(#[trigger] r@[i]@) == rows_k[i],
        decreases k - j,
    {
        let vi = first + j;
        let vr = visual[vi];
        proof {
            assert(v[vi as int] == vr@);
            assert(ls[vr.log_row as int] == lines@[vr.log_row as int]@);
        }
        let one = visual_row(&lines[vr.log_row], vr, w, style, focused && vi == cv, col);
        r.push(one);
        proof {
            assert(span_views(r@[j as int]@) == rows_k[j as int]);
        }
        j = j + 1;
    }
    let ghost pads = Seq::new((vh - k) as nat, |i: int| padded_spec(Seq::empty(), w as nat, style, false));
    let empty: Vec<char> = Vec::new();
    let mut p: usize = 0;
    while p < vh - k
        invariant
            p <= vh - k,
            r@.len() == k + p,
            forall|i: int| 0 <= i < k ==> span_views(#[trigger] r@[i]@) == rows_k[i],
            forall|i: int| 0 <= i < p ==> span_views(#[trigger] r@[i + k]@) == pads[i],
        decreases vh - k - p,
    {
        r.push(padded(empty.as_slice(), w, style, false));
        proof {
            assert(empty@ =~= Seq::<char>::empty());
            assert(span_views(r@[p + k]@) == pads[p as int]);
        }
        p = p + 1;
    }
    proof {
        let whole = rows_k + pads;
        assert forall|i: int| 0 <= i < r@.len() implies rows_view(r@)[i] == whole[i] by {
            if i >= k {
                assert(span_views(r@[(i - k) + k]@) == pads[i - k]);
            }
        }
        assert(rows_view(r@) =~= whole);
    }
    r
}

/// The rows of an editor in an area `width` by `height` (see
/// [`TextArea::view`]).
pub open spec fn textarea_rows(t: TextArea, width: nat, height: nat, focused: bool) -> Seq<Seq<(Seq<char>, Style)>> {
    if width == 0 || height == 0 {
        Seq::empty()
    } else {
        seq![seq![(seq![' '] + t.label@, label_spec(focused))]] + area_rows_spec(
            strings(t.lines@),
            t.row as nat,
            t.col as nat,
            inner(width),
            body_rows(height, t.view_height as nat),
            focused,
        )
    }
}

/// An editor after being shown in an area `width` by `height`.
pub open spec fn textarea_shown(t: TextArea, width: nat, height: nat) -> TextArea {
    if width == 0 || height == 0 {
        t
    } else {
        TextArea { last_width: inner(width) as usize, ..t }
    }
}

impl TextArea {
    /// The rows of the editor in an area `width` by `height`: the label,
    /// then the body; the width inside the margins is recorded for the
    /// visual movement keys. Nothing is shown, or recorded, in an empty
    /// area.
    pub fn view(&mut self, width: u16, height: u16, focused: bool) -> (r: Vec<Vec<Span>>)
        requires
            old(self).lines@.len() > 0,
        ensures
            *final(self) == textarea_shown(*old(self), width as nat, height as nat),
            rows_view(r@) == textarea_rows(*old(self), width as nat, height as nat, focused),
    {
        let mut r: Vec<Vec<Span>> = Vec::new();
        if width == 0 || height == 0 {
            assert(rows_view(r@) =~= Seq::<Seq<(Seq<char>, Style)>>::empty());
            return r;
        }
        let w: usize = if width >= 2 { (width - 2) as usize } else { 0 };
        self.last_width = w;
        let h1: u16 = height - 1;
        let vh: usize = if h1 < self.view_height { h1 as usize } else { self.view_height as usize };
        let mut head = to_chars(" ");
        push_str(&mut head, self.label.as_str());
        let mut first_row: Vec<Span> = Vec::new();
        first_row.push(span(from_chars(head.as_slice()), label_style(focused)));
        proof {
            reveal_strlit(" ");
            assert(span_views(first_row@) =~~= seq![(seq![' '] + self.label@, label_spec(focused))]);
        }
        r.push(first_row);
        let mut body = area_rows(&self.lines, self.row, self.col, w, vh, focused);
        let ghost b = body@;
        r.append(&mut body);
        assert(rows_view(r@) =~= seq![seq![(seq![' '] + self.label@, label_spec(focused))]] + rows_view(b));
        r
    }
}

} // verus!
