//! The widget gallery: every form widget once (and a few more to scroll),
//! with Tab focus, page scrolling and a one-line summary of each value.

use vstd::prelude::*;
use crate::form::{
    placed, checkbox_key, enable_key, layout_of, password_key, sat_add, scroll_into_view, scroll_step, scrolled, select_key,
    text_key, textarea_key, visible_scroll,
};
use crate::text::{debug_string, debug_text, dec, fmt_u64, from_chars, push_str, str_concat, strings, to_chars};
use crate::widgets::checkbox::Checkbox;
use crate::widgets::enable::Enable;
use crate::widgets::key::{Key, KeyEvent, Mods};
use crate::widgets::look::{
    checkbox_spec, enable_spec, password_rows, rows_view, select_spec, text_rows, textarea_rows, textarea_shown,
};
use crate::sanitize::Span;
use crate::style::Style;
use crate::widgets::password::Password;
use crate::widgets::select::{Select, SelectOption};
use crate::widgets::text::Text;
use crate::widgets::textarea::TextArea;

verus! {

/// One widget of the gallery.
#[derive(Debug, Clone)]
pub enum DemoField {
    Text(Text),
    Password(Password),
    TextArea(TextArea),
    Select(Select),
    Checkbox(Checkbox),
    Enable(Enable),
}

pub open spec fn demo_height(f: DemoField) -> int {
    match f {
        DemoField::Text(w) => if w.editing { 2 } else { 1 },
        DemoField::Password(w) => if w.editing { 2 } else { 1 },
        DemoField::TextArea(w) => 1 + w.view_height,
        _ => 1,
    }
}

pub open spec fn demo_ok(f: DemoField) -> bool {
    &&& f matches DemoField::TextArea(w) ==> w.view_height < u16::MAX
    &&& f matches DemoField::Text(w) ==> w.cursor < usize::MAX
    &&& f matches DemoField::Password(w) ==> w.cursor < usize::MAX
}

/// What a key does to a widget of the gallery.
pub open spec fn demo_key(a: DemoField, b: DemoField, key: KeyEvent, used: bool) -> bool {
    match (a, b) {
        (DemoField::Text(x), DemoField::Text(y)) => text_key(x, y, key, used),
        (DemoField::Password(x), DemoField::Password(y)) => password_key(x, y, key, used),
        (DemoField::TextArea(x), DemoField::TextArea(y)) => textarea_key(x, y, key, used),
        (DemoField::Select(x), DemoField::Select(y)) => select_key(x, y, key, used),
        (DemoField::Checkbox(x), DemoField::Checkbox(y)) => checkbox_key(x, y, key, used),
        (DemoField::Enable(x), DemoField::Enable(y)) => enable_key(x, y, key, used),
        _ => false,
    }
}

/// `{:?}` of an optional boolean.
pub open spec fn opt_bool_text(v: Option<bool>) -> Seq<char> {
    match v {
        Some(true) => "Some(true)"@,
        Some(false) => "Some(false)"@,
        None => "None"@,
    }
}

/// `s` with each newline written as backslash-n.
pub open spec fn escape_newlines(s: Seq<char>) -> Seq<char>
    decreases s.len(),
{
    if s.len() == 0 {
        Seq::empty()
    } else {
        escape_newlines(s.drop_last()) + if s.last() == '\n' { seq!['\\', 'n'] } else { seq![s.last()] }
    }
}

/// One-line summary of a widget's value.
pub open spec fn summary_spec(f: DemoField) -> Seq<char> {
    match f {
        DemoField::Text(w) => "text="@ + debug_text(w.value@),
        DemoField::Password(w) => "password=<"@ + dec(w.value@.len()) + " chars>"@,
        DemoField::TextArea(w) => "textarea="@ + debug_text(
            escape_newlines(crate::text::join(strings(w.lines@), seq!['\n'])),
        ),
        DemoField::Select(w) => "select="@ + debug_text(
            if w.set && w.selected < w.options@.len() { w.options@[w.selected as int].value@ } else { Seq::empty() },
        ),
        DemoField::Checkbox(w) => "checkbox="@ + opt_bool_text(w.value),
        DemoField::Enable(w) => "enable="@ + opt_bool_text(w.value),
    }
}

fn escape_newlines_exec(s: &[char]) -> (r: Vec<char>)
    ensures
        r@ == escape_newlines(s@),
{
    let mut r: Vec<char> = Vec::new();
    let mut i: usize = 0;
    assert(s@.take(0) =~= Seq::<char>::empty());
    while i < s.len()
        invariant
            i <= s.len(),
            r@ == escape_newlines(s@.take(i as int)),
        decreases s.len() - i,
    {
        assert(s@.take(i + 1).drop_last() =~= s@.take(i as int));
        if s[i] == '\n' {
            r.push('\\');
            r.push('n');
        } else {
            r.push(s[i]);
        }
        i = i + 1;
    }
    assert(s@.take(s.len() as int) =~= s@);
    r
}

fn opt_bool_string(v: Option<bool>) -> (r: &'static str)
    ensures
        r@ == opt_bool_text(v),
{
    match v {
        Some(true) => "Some(true)",
        Some(false) => "Some(false)",
        None => "None",
    }
}

impl DemoField {
    pub fn height(&self) -> (h: u16)
        requires
            demo_ok(*self),
        ensures
            h == demo_height(*self),
    {
        match self {
            DemoField::Text(w) => w.height(),
            DemoField::Password(w) => w.height(),
            DemoField::TextArea(w) => w.height(),
            DemoField::Select(w) => w.height(),
            DemoField::Checkbox(w) => w.height(),
            DemoField::Enable(w) => w.height(),
        }
    }

    /// Whether the widget is an open select (which keeps Tab and Esc).
    pub fn select_open(&self) -> (r: bool)
        ensures
            !r,
    {
        match self {
            DemoField::Select(s) => s.open(),
            _ => false,
        }
    }

    /// Passes a key to the widget; returns whether it was used.
    pub fn handle_key(&mut self, key: KeyEvent) -> (used: bool)
        requires
            demo_ok(*old(self)),
        ensures
            demo_key(*old(self), *final(self), key, used),
    {
        match self {
            DemoField::Text(w) => w.handle_key(key),
            DemoField::Password(w) => w.handle_key(key),
            DemoField::TextArea(w) => w.handle_key(key),
            DemoField::Select(w) => w.handle_key(key),
            DemoField::Checkbox(w) => w.handle_key(key),
            DemoField::Enable(w) => w.handle_key(key),
        }
    }

    /// The widget's value in one line.
    pub fn summary(&self) -> (r: String)
        ensures
            r@ == summary_spec(*self),
    {
        match self {
            DemoField::Text(w) => str_concat("text=", debug_string(w.value.as_str()).as_str()),
            DemoField::Password(w) => {
                let n = to_chars(w.value.as_str()).len();
                let mut v = to_chars("password=<");
                let d = fmt_u64(n as u64);
                crate::text::push_all(&mut v, d.as_slice());
                push_str(&mut v, " chars>");
                from_chars(v.as_slice())
            },
            DemoField::TextArea(w) => {
                let t = w.text();
                let e = from_chars(escape_newlines_exec(to_chars(t.as_str()).as_slice()).as_slice());
                str_concat("textarea=", debug_string(e.as_str()).as_str())
            },
            DemoField::Select(w) => {
                let v = match w.value() {
                    Some(v) => v.to_owned(),
                    None => String::new(),
                };
                str_concat("select=", debug_string(v.as_str()).as_str())
            },
            DemoField::Checkbox(w) => str_concat("checkbox=", opt_bool_string(w.value)),
            DemoField::Enable(w) => str_concat("enable=", opt_bool_string(w.value)),
        }
    }
}


/// The rows a widget of the gallery shows in an area `width` by `height`.
pub open spec fn demo_rows(f: DemoField, width: nat, height: nat, focused: bool) -> Seq<Seq<(Seq<char>, Style)>> {
    match f {
        DemoField::Text(w) => text_rows(w.label@, w.value@, w.cursor as nat, w.editing, width, focused),
        DemoField::Password(w) => password_rows(w, width, focused),
        DemoField::TextArea(w) => textarea_rows(w, width, height, focused),
        DemoField::Select(s) => seq![select_spec(s, focused)],
        DemoField::Checkbox(c) => seq![checkbox_spec(c, focused)],
        DemoField::Enable(e) => seq![enable_spec(e, focused)],
    }
}

/// A widget of the gallery after being shown.
pub open spec fn demo_shown(f: DemoField, width: nat, height: nat, focused: bool) -> DemoField {
    match f {
        DemoField::Text(w) => DemoField::Text(Text { editing: w.editing && focused, ..w }),
        DemoField::Password(w) => DemoField::Password(Password { editing: w.editing && focused, ..w }),
        DemoField::TextArea(w) => DemoField::TextArea(textarea_shown(w, width, height)),
        _ => f,
    }
}

/// The widget's text area, if it is one, has a line.
pub open spec fn demo_view_ok(f: DemoField) -> bool {
    f matches DemoField::TextArea(w) ==> w.lines@.len() > 0
}

impl DemoField {
    /// The rows of the widget in an area `width` by `height`.
    pub fn view(&mut self, width: u16, height: u16, focused: bool) -> (r: Vec<Vec<Span>>)
        requires
            demo_view_ok(*old(self)),
        ensures
            *final(self) == demo_shown(*old(self), width as nat, height as nat, focused),
            rows_view(r@) == demo_rows(*old(self), width as nat, height as nat, focused),
    {
        let mut r: Vec<Vec<Span>> = Vec::new();
        match self {
            DemoField::Text(w) => w.view(width, focused),
            DemoField::Password(w) => w.view(width, focused),
            DemoField::TextArea(w) => w.view(width, height, focused),
            DemoField::Select(s) => {
                r.push(s.view(focused));
                r
            },
            DemoField::Checkbox(c) => {
                r.push(c.view(focused));
                r
            },
            DemoField::Enable(e) => {
                r.push(e.view(focused));
                r
            },
        }
    }
}

pub open spec fn demo_heights(fields: Seq<DemoField>) -> Seq<int> {
    fields.map_values(|f: DemoField| demo_height(f))
}

pub open spec fn all_ok(fields: Seq<DemoField>) -> bool {
    forall|i: int| 0 <= i < fields.len() ==> demo_ok(#[trigger] fields[i])
}

/// Top offset of each widget and the total height, one blank row between
/// neighbours.
pub fn field_layout(fields: &Vec<DemoField>) -> (r: (Vec<u16>, u16))
    requires
        all_ok(fields@),
    ensures
        (r.0@, r.1) == layout_of(demo_heights(fields@), true),
{
    let ghost hs = demo_heights(fields@);
    let mut offsets: Vec<u16> = Vec::new();
    let mut y: u16 = 0;
    let mut i: usize = 0;
    assert(hs.take(0) =~= Seq::<int>::empty());
    while i < fields.len()
        invariant
            i <= fields.len(),
            hs == demo_heights(fields@),
            all_ok(fields@),
            (offsets@, y) == layout_of(hs.take(i as int), true),
        decreases fields.len() - i,
    {
        assert(hs.take(i + 1).drop_last() =~= hs.take(i as int));
        assert(hs.take(i + 1).last() == demo_height(fields@[i as int]));
        if i > 0 {
            y = y.saturating_add(1);
        }
        offsets.push(y);
        y = y.saturating_add(fields[i].height());
        i = i + 1;
    }
    assert(hs.take(fields.len() as int) =~= hs);
    (offsets, y)
}


/// The gallery's state.
pub struct Demo {
    pub fields: Vec<DemoField>,
    pub focus: usize,
    /// First visible content row.
    pub scroll: u16,
    pub should_quit: bool,
}

fn option(label: &str, value: &str) -> (o: SelectOption)
    ensures
        o.label@ == label@,
        o.value@ == value@,
{
    SelectOption { label: label.to_owned(), value: value.to_owned() }
}

impl Demo {
    /// The gallery: text, password, text area, select, checkbox, two
    /// switches, then three more widgets.
    pub fn new() -> (d: Demo)
        ensures
            d.fields@.len() == 10,
            d.focus == 0,
            d.scroll == 0,
            !d.should_quit,
            d.fields@[0] matches DemoField::Text(w) && w.label@ == "text"@ && w.value@ == "John"@ && !w.editing,
            d.fields@[1] matches DemoField::Password(w) && w.label@ == "password"@ && w.value@ == "secret"@,
            d.fields@[2] matches DemoField::TextArea(w) && w.label@ == "textarea"@ && w.view_height == 5,
            d.fields@[3] matches DemoField::Select(w) && w.label@ == "select"@ && w.options@.len() == 3 && w.selected
                == 0 && w.set,
            d.fields@[4] matches DemoField::Checkbox(w) && w.label@ == "checkbox"@ && w.value == Some(false),
            d.fields@[5] matches DemoField::Enable(w) && w.label@ == "enable"@ && w.value == Some(true),
            d.fields@[6] matches DemoField::Enable(w) && w.label@ == "enable (ru)"@ && w.value is None && w.on@
                == "вкл"@ && w.off@ == "выкл"@,
            d.fields@[7] matches DemoField::Text(w) && w.label@ == "extra text"@,
            d.fields@[8] matches DemoField::Checkbox(w) && w.label@ == "extra checkbox"@ && w.value is None,
            d.fields@[9] matches DemoField::Enable(w) && w.label@ == "extra enable"@ && w.value == Some(false),
            all_ok(d.fields@),
    {
        let mut opts: Vec<SelectOption> = Vec::new();
        opts.push(option("Red", "1"));
        opts.push(option("Green", "2"));
        opts.push(option("Blue", "3"));
        let mut fields: Vec<DemoField> = Vec::new();
        fields.push(DemoField::Text(Text::new("text", "John")));
        fields.push(DemoField::Password(Password::new("password", "secret")));
        fields.push(
            DemoField::TextArea(
                TextArea::new(
                    "textarea",
                    "Короткая строка.\nА эта строка специально длинная, чтобы было видно soft-wrap с маркером ↩ справа на перенесённых рядах.",
                    5,
                ),
            ),
        );
        fields.push(DemoField::Select(Select::new("select", opts, 0)));
        fields.push(DemoField::Checkbox(Checkbox::new("checkbox", Some(false))));
        fields.push(DemoField::Enable(Enable::new("enable", Some(true), "enabled", "disabled")));
        fields.push(DemoField::Enable(Enable::new("enable (ru)", None, "вкл", "выкл")));
        fields.push(DemoField::Text(Text::new("extra text", "")));
        fields.push(DemoField::Checkbox(Checkbox::new("extra checkbox", None)));
        fields.push(DemoField::Enable(Enable::new("extra enable", Some(false), "on", "off")));
        proof {
            reveal_strlit("John");
            reveal_strlit("secret");
            reveal_strlit("");
            assert forall|i: int| 0 <= i < fields@.len() implies demo_ok(#[trigger] fields@[i]) by {
                if i == 0 || i == 1 || i == 7 {
                }
            }
        }
        Demo { fields, focus: 0, scroll: 0, should_quit: false }
    }
}


impl Demo {
    /// Tab: the next widget, wrapping (not while a select is open).
    pub fn focus_next(&mut self)
        requires
            old(self).fields@.len() > 0,
            old(self).focus < old(self).fields@.len(),
        ensures
            final(self).focus == (old(self).focus + 1) % (old(self).fields@.len() as int),
            final(self).fields == old(self).fields,
            final(self).scroll == old(self).scroll,
            final(self).should_quit == old(self).should_quit,
    {
        if self.fields[self.focus].select_open() {
            return;
        }
        let n = self.fields.len();
        self.focus = (self.focus + 1) % n;
    }

    /// Shift-Tab: the previous widget, wrapping.
    pub fn focus_prev(&mut self)
        requires
            old(self).fields@.len() > 0,
            old(self).focus < old(self).fields@.len(),
        ensures
            final(self).focus == (if old(self).focus == 0 { old(self).fields@.len() - 1 } else { old(self).focus - 1 }),
            final(self).fields == old(self).fields,
            final(self).scroll == old(self).scroll,
            final(self).should_quit == old(self).should_quit,
    {
        if self.fields[self.focus].select_open() {
            return;
        }
        self.focus = if self.focus == 0 { self.fields.len() - 1 } else { self.focus - 1 };
    }

    /// Scrolls so that the focused widget is wholly visible.
    pub fn ensure_focus_visible(&mut self, offsets: &Vec<u16>, viewport_h: u16, total_h: u16)
        requires
            offsets@.len() == old(self).fields@.len(),
            all_ok(old(self).fields@),
        ensures
            final(self).scroll == (if old(self).focus < old(self).fields@.len() {
                scroll_into_view(
                    old(self).scroll,
                    offsets@[old(self).focus as int],
                    demo_height(old(self).fields@[old(self).focus as int]),
                    viewport_h,
                    total_h,
                )
            } else {
                old(self).scroll
            }),
            final(self).fields == old(self).fields,
            final(self).focus == old(self).focus,
            final(self).should_quit == old(self).should_quit,
    {
        if self.focus >= self.fields.len() {
            return;
        }
        let h = self.fields[self.focus].height();
        self.scroll = visible_scroll(self.scroll, offsets[self.focus], h, viewport_h, total_h);
    }

    /// Scrolls by `delta` rows within the content.
    pub fn scroll_by(&mut self, delta: i32, viewport_h: u16, total_h: u16)
        requires
            i32::MIN <= old(self).scroll + delta <= i32::MAX,
        ensures
            final(self).scroll == scrolled(old(self).scroll, delta, viewport_h, total_h),
            final(self).fields == old(self).fields,
            final(self).focus == old(self).focus,
            final(self).should_quit == old(self).should_quit,
    {
        self.scroll = scroll_step(self.scroll, delta, viewport_h, total_h);
    }

    /// The values line: every widget's summary, separated by a dot.
    pub fn values_line(&self) -> (r: String)
        ensures
            r@ == crate::text::join(self.fields@.map_values(|f: DemoField| summary_spec(f)), "  ·  "@),
    {
        let mut parts: Vec<Vec<char>> = Vec::new();
        let mut i: usize = 0;
        while i < self.fields.len()
            invariant
                i <= self.fields@.len(),
                crate::text::views(parts@) =~= self.fields@.map_values(|f: DemoField| summary_spec(f)).take(i as int),
            decreases self.fields.len() - i,
        {
            let ghost before = crate::text::views(parts@);
            let s = self.fields[i].summary();
            parts.push(to_chars(s.as_str()));
            assert(crate::text::views(parts@) =~= before.push(summary_spec(self.fields@[i as int])));
            i = i + 1;
        }
        assert(self.fields@.map_values(|f: DemoField| summary_spec(f)).take(self.fields@.len() as int)
            =~= self.fields@.map_values(|f: DemoField| summary_spec(f)));
        let sep = to_chars("  ·  ");
        from_chars(crate::text::join_chars(&parts, sep.as_slice()).as_slice())
    }

    /// The bottom line: focus, last index, scroll offset and content height.
    pub fn footer(&self, total_h: u16) -> (r: String)
        ensures
            r@ == " focus: "@ + dec(self.focus as nat) + seq!['/'] + dec(
                if self.fields@.len() > 0 { (self.fields@.len() - 1) as nat } else { 0 },
            ) + "  scroll: "@ + dec(self.scroll as nat) + "  content: "@ + dec(total_h as nat),
    {
        let mut v = to_chars(" focus: ");
        crate::text::push_all(&mut v, fmt_u64(self.focus as u64).as_slice());
        v.push('/');
        let last = if self.fields.len() > 0 { self.fields.len() - 1 } else { 0 };
        crate::text::push_all(&mut v, fmt_u64(last as u64).as_slice());
        push_str(&mut v, "  scroll: ");
        crate::text::push_all(&mut v, fmt_u64(self.scroll as u64).as_slice());
        push_str(&mut v, "  content: ");
        crate::text::push_all(&mut v, fmt_u64(total_h as u64).as_slice());
        from_chars(v.as_slice())
    }
}

/// The gallery's reaction to a key: Ctrl-Q/Ctrl-C and Esc quit, Tab and
/// Shift-Tab move the focus, PageDown/PageUp scroll by a page, other keys
/// go to the focused widget.
pub fn handle_key(demo: &mut Demo, key: KeyEvent, viewport_h: u16, total_h: u16)
    requires
        old(demo).fields@.len() > 0,
        old(demo).focus < old(demo).fields@.len(),
        demo_ok(old(demo).fields@[old(demo).focus as int]),
    ensures
        final(demo).focus < final(demo).fields@.len(),
        final(demo).fields@.len() == old(demo).fields@.len(),
        ({
            let ctrl_quit = key.modifiers == Mods::Control && (key.code == Key::Char('q') || key.code == Key::Char('c'));
            if ctrl_quit || key.code == Key::Esc {
                final(demo).should_quit && final(demo).fields == old(demo).fields && final(demo).focus == old(demo).focus
            } else if key.code == Key::Tab {
                final(demo).focus == (old(demo).focus + 1) % (old(demo).fields@.len() as int) && final(demo).fields
                    == old(demo).fields
            } else if key.code == Key::BackTab {
                final(demo).focus == (if old(demo).focus == 0 {
                    old(demo).fields@.len() - 1
                } else {
                    old(demo).focus - 1
                }) && final(demo).fields == old(demo).fields
            } else if key.code == Key::PageDown {
                final(demo).scroll == scrolled(old(demo).scroll, viewport_h as i32, viewport_h, total_h)
                    && final(demo).fields == old(demo).fields
            } else if key.code == Key::PageUp {
                final(demo).scroll == scrolled(old(demo).scroll, (-(viewport_h as int)) as i32, viewport_h, total_h)
                    && final(demo).fields == old(demo).fields
            } else {
                &&& final(demo).focus == old(demo).focus
                &&& forall|j: int|
                    0 <= j < final(demo).fields@.len() && j != old(demo).focus ==> final(demo).fields@[j] == old(
                        demo,
                    ).fields@[j]
                &&& exists|used: bool|
                    demo_key(old(demo).fields@[old(demo).focus as int], final(demo).fields@[old(demo).focus as int], key, used)
            }
        }),
{
    let ctrl = match key.modifiers {
        Mods::Control => true,
        _ => false,
    };
    let ctrl_quit = ctrl && match key.code {
        Key::Char(c) => c == 'q' || c == 'c',
        _ => false,
    };
    if ctrl_quit {
        demo.should_quit = true;
        return;
    }
    match key.code {
        Key::Esc => {
            if !demo.fields[demo.focus].select_open() {
                demo.should_quit = true;
            }
            return;
        },
        Key::Tab => {
            demo.focus_next();
            return;
        },
        Key::BackTab => {
            demo.focus_prev();
            return;
        },
        Key::PageDown => {
            demo.scroll_by(viewport_h as i32, viewport_h, total_h);
            return;
        },
        Key::PageUp => {
            demo.scroll_by(-(viewport_h as i32), viewport_h, total_h);
            return;
        },
        _ => {},
    }
    let i = demo.focus;
    let mut f = demo.fields.remove(i);
    let _ = f.handle_key(key);
    demo.fields.insert(i, f);
    assert(demo.fields@[i as int] == f);
}


impl Demo {
    /// Where the visible widgets go in a content area of `content_h` rows:
    /// each wholly visible widget with its row inside the area and height.
    pub fn placements(&self, offsets: &Vec<u16>, content_h: u16) -> (r: Vec<(usize, u16, u16)>)
        requires
            offsets@.len() == self.fields@.len(),
            all_ok(self.fields@),
        ensures
            r@ == placed(demo_heights(self.fields@), offsets@, self.scroll, content_h, 0),
    {
        let ghost hs = demo_heights(self.fields@);
        let mut out: Vec<(usize, u16, u16)> = Vec::new();
        let n = self.fields.len();
        let mut k: usize = n;
        while k > 0
            invariant
                k <= n,
                n == self.fields@.len(),
                hs == demo_heights(self.fields@),
                offsets@.len() == n,
                all_ok(self.fields@),
                out@ == placed(hs, offsets@, self.scroll, content_h, k as int),
            decreases k,
        {
            let i = k - 1;
            let top = offsets[i];
            let h = self.fields[i].height();
            let bottom = top.saturating_add(h);
            if !(top < self.scroll || bottom > self.scroll.saturating_add(content_h)) {
                out.insert(0, (i, top - self.scroll, h));
                assert(out@ =~= seq![(i, (top - self.scroll) as u16, h)] + placed(hs, offsets@, self.scroll, content_h, k as int));
            }
            k = i;
        }
        out
    }
}

} // verus!
