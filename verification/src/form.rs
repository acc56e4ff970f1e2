//! The form editor: one widget per schema field, filled from the input
//! document, a Save button, keyboard focus and vertical scrolling.
//!
//! Writing the file is the front end's work: [`handle_key`] answers
//! [`FormAction::Save`] and the front end writes [`Form::values`], then
//! reports with [`Form::saved`] or [`Form::save_failed`].

use vstd::prelude::*;
use crate::scalar::{bool_text, node_text, parse_bool_str, scalar_of, scalar_string, value_as_string, Scalar, ScalarV};
use crate::schema::{Field, FieldV, Schema, ValueType, ValueTypeV, Widget, WidgetV, fields_view, opt_view, options_view};
use crate::text::{str_concat, strings, to_chars};
use crate::widgets::button::Button;
use crate::widgets::checkbox::Checkbox;
use crate::widgets::enable::Enable;
use crate::widgets::key::{Key, KeyEvent, Mods};
use crate::widgets::look::{
    checkbox_spec, enable_spec, password_rows, rows_view, select_spec, text_rows, textarea_rows, textarea_shown,
};
use crate::sanitize::Span;
use crate::style::Style;
use crate::widgets::password::Password;
use crate::widgets::select::{Select, SelectOption};
use crate::widgets::text::{input_key, Text};
use crate::widgets::textarea::{initial_lines, TextArea};
use crate::yaml::{Entry, EntryV, Node, NodeV, entries_view};

verus! {

// ---------------------------------------------------------------- reading the input

/// The value of the first entry at or after `i` whose key is the string `k`.
pub open spec fn lookup_key(es: Seq<EntryV>, k: Seq<char>, i: int) -> Option<NodeV>
    decreases es.len() - i,
{
    if i < 0 || i >= es.len() {
        None
    } else if es[i].key == NodeV::Str(k) {
        Some(es[i].value)
    } else {
        lookup_key(es, k, i + 1)
    }
}

/// The value under the string key `key`, if any.
pub fn lookup_value<'a>(data: &'a Vec<Entry>, key: &String) -> (r: Option<&'a Node>)
    ensures
        match r {
            Some(n) => lookup_key(entries_view(data@), key@, 0) == Some(n@),
            None => lookup_key(entries_view(data@), key@, 0) is None,
        },
{
    let ghost es = entries_view(data@);
    let k = to_chars(key.as_str());
    let mut i: usize = 0;
    while i < data.len()
        invariant
            i <= data.len(),
            es == entries_view(data@),
            k@ == key@,
            lookup_key(es, key@, i as int) == lookup_key(es, key@, 0),
        decreases data.len() - i,
    {
        assert(es[i as int] == data@[i as int]@);
        match &data[i].key {
            Node::Str(s) => {
                let sc = to_chars(s.as_str());
                if crate::text::chars_eq(sc.as_slice(), k.as_slice()) {
                    return Some(&data[i].value);
                }
            },
            _ => {},
        }
        i = i + 1;
    }
    None
}

/// The text of a raw value, if it has one.
pub open spec fn raw_text(raw: Option<NodeV>) -> Option<Seq<char>> {
    match raw {
        Some(n) => node_text(n),
        None => None,
    }
}

/// The starting text of a text-like field and whether it counts as set:
/// the input's value, else the schema default (both set), else empty and
/// set only if the key is in the input.
pub open spec fn string_value_spec(raw: Option<NodeV>, default: Option<Seq<char>>, in_data: bool) -> (Seq<char>, bool) {
    match raw_text(raw) {
        Some(v) => (v, true),
        None => match default {
            Some(d) => (d, true),
            None => (Seq::empty(), in_data),
        },
    }
}

fn text_of(raw: Option<&Node>) -> (r: Option<String>)
    ensures
        match r {
            Some(s) => raw_text(opt_node(raw)) == Some(s@),
            None => raw_text(opt_node(raw)) is None,
        },
{
    match raw {
        Some(n) => value_as_string(n),
        None => None,
    }
}

pub open spec fn opt_node(raw: Option<&Node>) -> Option<NodeV> {
    match raw {
        Some(n) => Some(n@),
        None => None,
    }
}

pub fn string_value(raw: Option<&Node>, default: &Option<String>, in_data: bool) -> (r: (String, bool))
    ensures
        (r.0@, r.1) == string_value_spec(opt_node(raw), opt_view(*default), in_data),
{
    if let Some(v) = text_of(raw) {
        return (v, true);
    }
    if let Some(d) = default {
        return (d.clone(), true);
    }
    (String::new(), in_data)
}

/// The starting value of a boolean field: the input's boolean, else the
/// boolean its text reads as, else the default's.
pub open spec fn bool_value_spec(raw: Option<NodeV>, default: Option<Seq<char>>) -> Option<bool> {
    match raw {
        Some(NodeV::Bool(b)) => Some(b),
        _ => match raw_text(raw) {
            Some(s) => bool_text(s),
            None => match default {
                Some(d) => bool_text(d),
                None => None,
            },
        },
    }
}

pub fn bool_value(raw: Option<&Node>, default: &Option<String>) -> (r: Option<bool>)
    ensures
        r == bool_value_spec(opt_node(raw), opt_view(*default)),
{
    if let Some(Node::Bool(b)) = raw {
        return Some(*b);
    }
    if let Some(s) = text_of(raw) {
        return parse_bool_str(s.as_str());
    }
    match default {
        Some(d) => parse_bool_str(d.as_str()),
        None => None,
    }
}

// ---------------------------------------------------------------- fields

/// The widget of a form field; the text-like ones know whether their value
/// counts as set.
#[derive(Debug, Clone)]
pub enum FormWidget {
    Text { w: Text, defined: bool },
    Password { w: Password, defined: bool },
    TextArea { w: TextArea, defined: bool },
    Select(Select),
    Checkbox(Checkbox),
    Enable(Enable),
}

/// One field of the form.
#[derive(Debug, Clone)]
pub struct FormField {
    pub key: String,
    pub value_type: ValueType,
    pub widget: FormWidget,
}

pub open spec fn sel_options_view(v: Seq<SelectOption>) -> Seq<(Seq<char>, Seq<char>)> {
    v.map_values(|o: SelectOption| (o.label@, o.value@))
}

/// The first option at or after `i` whose value or label is `v`.
pub open spec fn option_index(opts: Seq<(Seq<char>, Seq<char>)>, v: Seq<char>, i: int) -> Option<int>
    decreases opts.len() - i,
{
    if i < 0 || i >= opts.len() {
        None
    } else if opts[i].1 == v || opts[i].0 == v {
        Some(i)
    } else {
        option_index(opts, v, i + 1)
    }
}

/// Rows of a text area: the schema's height (4 when absent, at least 1)
/// as a 16-bit count, at least 1.
pub open spec fn area_rows(height: Option<u32>) -> u16 {
    let h: int = match height {
        Some(x) => x as int,
        None => 4,
    };
    let h1: int = if h >= 1 { h } else { 1 };
    let t = (h1 % 65536) as u16;
    if t >= 1 { t } else { 1 }
}

/// `ff` is the field built from schema field `f` over the input entries
/// `es`.
pub open spec fn built(ff: FormField, f: FieldV, es: Seq<EntryV>) -> bool {
    let label = match f.label {
        Some(l) => l,
        None => f.key,
    };
    let raw = lookup_key(es, f.key, 0);
    let sv = string_value_spec(raw, f.default, raw is Some);
    &&& ff.key@ == f.key
    &&& ff.value_type@ == f.value_type
    &&& match f.widget {
        WidgetV::Text => ff.widget matches FormWidget::Text { w, defined } && w.label@ == label && w.value@
            == sv.0 && w.cursor == sv.0.len() && !w.editing && defined == sv.1,
        WidgetV::Password { empty, filled } => ff.widget matches FormWidget::Password { w, defined } && w.label@
            == label && w.value@ == sv.0 && w.cursor == sv.0.len() && !w.editing && defined == sv.1 && w.empty@
            == (match empty {
            Some(e) => e,
            None => "empty"@,
        }) && w.filled@ == (match filled {
            Some(x) => x,
            None => "provided"@,
        }),
        WidgetV::Textarea { height } => ff.widget matches FormWidget::TextArea { w, defined } && w.label@ == label
            && strings(w.lines@) == initial_lines(sv.0) && w.row == 0 && w.col == 0 && w.view_height == area_rows(
            height,
        ) && w.last_width == 0 && defined == sv.1,
        WidgetV::Select { options } => ff.widget matches FormWidget::Select(s) && s.label@ == label
            && sel_options_view(s.options@) == options && {
            let choice = match raw_text(raw) {
                Some(v) => Some(v),
                None => f.default,
            };
            let found = match choice {
                Some(v) => option_index(options, v, 0),
                None => None,
            };
            match found {
                Some(i) => s.selected == i && s.set,
                None => s.selected == 0 && !s.set,
            }
        },
        WidgetV::Checkbox => ff.widget matches FormWidget::Checkbox(c) && c.label@ == label && c.value
            == bool_value_spec(raw, f.default),
        WidgetV::Enable { on, off } => ff.widget matches FormWidget::Enable(e) && e.label@ == label && e.value
            == bool_value_spec(raw, f.default) && e.on@ == (match on {
            Some(x) => x,
            None => "enabled"@,
        }) && e.off@ == (match off {
            Some(x) => x,
            None => "disabled"@,
        }),
        WidgetV::Other(_) => false,
    }
}

fn find_option(opts: &Vec<SelectOption>, v: &String) -> (r: Option<usize>)
    ensures
        match r {
            Some(i) => option_index(sel_options_view(opts@), v@, 0) == Some(i as int),
            None => option_index(sel_options_view(opts@), v@, 0) is None,
        },
{
    let ghost ov = sel_options_view(opts@);
    let vc = to_chars(v.as_str());
    let mut i: usize = 0;
    while i < opts.len()
        invariant
            i <= opts.len(),
            ov == sel_options_view(opts@),
            vc@ == v@,
            option_index(ov, v@, i as int) == option_index(ov, v@, 0),
        decreases opts.len() - i,
    {
        let a = to_chars(opts[i].value.as_str());
        let b = to_chars(opts[i].label.as_str());
        if crate::text::chars_eq(a.as_slice(), vc.as_slice()) || crate::text::chars_eq(b.as_slice(), vc.as_slice()) {
            return Some(i);
        }
        i = i + 1;
    }
    None
}

/// Builds the field for schema field `f` from the input entries `data`;
/// an unknown widget is refused.
pub fn build_field(f: &Field, data: &Vec<Entry>) -> (r: Result<FormField, String>)
    ensures
        match r {
            Ok(ff) => built(ff, f@, entries_view(data@)),
            Err(e) => f.widget@ matches WidgetV::Other(name) && e@ == "неподдерживаемый виджет: "@ + name,
        },
{
    let label = match &f.label {
        Some(l) => l.clone(),
        None => f.key.clone(),
    };
    let raw = lookup_value(data, &f.key);
    let in_data = raw.is_some();
    let widget = match &f.widget {
        Widget::Text => {
            let (value, defined) = string_value(raw, &f.default, in_data);
            FormWidget::Text { w: Text::new(label.as_str(), value.as_str()), defined }
        },
        Widget::Password { empty, filled } => {
            let (value, defined) = string_value(raw, &f.default, in_data);
            FormWidget::Password {
                w: Password::with_hints(label.as_str(), value.as_str(), empty.clone(), filled.clone()),
                defined,
            }
        },
        Widget::Textarea { height } => {
            let (value, defined) = string_value(raw, &f.default, in_data);
            let h: u32 = match height {
                Some(x) => *x,
                None => 4,
            };
            let h1: u32 = if h >= 1 { h } else { 1 };
            let rows = (h1 % 65536) as u16;
            FormWidget::TextArea { w: TextArea::new(label.as_str(), value.as_str(), rows), defined }
        },
        Widget::Select { options } => {
            let mut opts: Vec<SelectOption> = Vec::new();
            let mut i: usize = 0;
            while i < options.len()
                invariant
                    i <= options@.len(),
                    sel_options_view(opts@) =~= options_view(options@).take(i as int),
                decreases options.len() - i,
            {
                let o = SelectOption { label: options[i].label.clone(), value: options[i].value.clone() };
                let ghost before = sel_options_view(opts@);
                opts.push(o);
                assert(sel_options_view(opts@) =~= before.push((options@[i as int].label@, options@[i as int].value@)));
                assert(options_view(options@).take(i + 1) =~= options_view(options@).take(i as int).push(
                    (options@[i as int].label@, options@[i as int].value@),
                ));
                i = i + 1;
            }
            assert(options_view(options@).take(options@.len() as int) =~= options_view(options@));
            let mut sel = Select::new(label.as_str(), opts, 0);
            let choice = match text_of(raw) {
                Some(v) => Some(v),
                None => f.default.clone(),
            };
            match choice {
                Some(v) => match find_option(&sel.options, &v) {
                    Some(idx) => {
                        sel.selected = idx;
                        sel.set = true;
                    },
                    None => {
                        sel = sel.unset();
                    },
                },
                None => {
                    sel = sel.unset();
                },
            }
            FormWidget::Select(sel)
        },
        Widget::Checkbox => FormWidget::Checkbox(Checkbox::new(label.as_str(), bool_value(raw, &f.default))),
        Widget::Enable { on, off } => {
            let on = match on {
                Some(x) => x.clone(),
                None => "enabled".to_owned(),
            };
            let off = match off {
                Some(x) => x.clone(),
                None => "disabled".to_owned(),
            };
            FormWidget::Enable(Enable::new(label.as_str(), bool_value(raw, &f.default), on.as_str(), off.as_str()))
        },
        Widget::Other(name) => {
            return Err(str_concat("неподдерживаемый виджет: ", name.as_str()));
        },
    };
    Ok(FormField { key: f.key.clone(), value_type: crate::schema::copy_value_type(&f.value_type), widget })
}


/// Height in rows of a field's widget.
pub open spec fn field_height(ff: FormField) -> int {
    match ff.widget {
        FormWidget::Text { w, .. } => if w.editing { 2 } else { 1 },
        FormWidget::Password { w, .. } => if w.editing { 2 } else { 1 },
        FormWidget::TextArea { w, .. } => 1 + w.view_height,
        _ => 1,
    }
}

/// The field's height fits in 16 bits.
pub open spec fn height_ok(ff: FormField) -> bool {
    ff.widget matches FormWidget::TextArea { w, .. } ==> w.view_height < u16::MAX
}

/// The field can take a key: a one-line input's cursor has room to move.
pub open spec fn key_ok(ff: FormField) -> bool {
    &&& ff.widget matches FormWidget::Text { w, .. } ==> w.cursor < usize::MAX
    &&& ff.widget matches FormWidget::Password { w, .. } ==> w.cursor < usize::MAX
}

/// Whether a field is in its editing mode (one-line inputs only).
pub open spec fn field_editing(ff: FormField) -> bool {
    match ff.widget {
        FormWidget::Text { w, .. } => w.editing,
        FormWidget::Password { w, .. } => w.editing,
        _ => false,
    }
}

/// A field after leaving its editing mode.
pub open spec fn ended(ff: FormField) -> FormField {
    match ff.widget {
        FormWidget::Text { w, defined } => FormField {
            widget: FormWidget::Text { w: Text { editing: false, ..w }, defined },
            ..ff
        },
        FormWidget::Password { w, defined } => FormField {
            widget: FormWidget::Password { w: Password { editing: false, ..w }, defined },
            ..ff
        },
        _ => ff,
    }
}

/// A key on a one-line input.
pub open spec fn text_key(a: Text, b: Text, key: KeyEvent, used: bool) -> bool {
    &&& b.label == a.label
    &&& (b.value@, b.cursor as nat, b.editing, used) == input_key(a.value@, a.cursor as nat, a.editing, key)
}

/// A key on a password input.
pub open spec fn password_key(a: Password, b: Password, key: KeyEvent, used: bool) -> bool {
    &&& b.label == a.label
    &&& b.empty == a.empty
    &&& b.filled == a.filled
    &&& (b.value@, b.cursor as nat, b.editing, used) == input_key(a.value@, a.cursor as nat, a.editing, key)
}

/// A key on a text area.
pub open spec fn textarea_key(a: TextArea, b: TextArea, key: KeyEvent, used: bool) -> bool {
    &&& b.label == a.label
    &&& b.view_height == a.view_height
    &&& b.last_width == a.last_width
    &&& (strings(b.lines@), b.row as nat, b.col as nat, used) == crate::widgets::textarea::editor_key(
        strings(a.lines@),
        a.row as nat,
        a.col as nat,
        a.last_width as nat,
        key,
    )
}

/// A key on a select.
pub open spec fn select_key(a: Select, b: Select, key: KeyEvent, used: bool) -> bool {
    let n = a.options@.len();
    &&& b.label == a.label
    &&& b.options == a.options
    &&& (n == 0 ==> !used && b == a)
    &&& (n > 0 && crate::widgets::select::is_prev_key(key.code) ==> used && b.set && b.selected == (if a.selected
        == 0 {
        n - 1
    } else {
        a.selected - 1
    }))
    &&& (n > 0 && crate::widgets::select::is_next_key(key.code) ==> used && b.set && b.selected == (a.selected + 1)
        % (n as int))
    &&& (n > 0 && (key.code == Key::Delete || key.code == Key::Backspace) ==> used && !b.set && b.selected
        == a.selected)
    &&& (!(crate::widgets::select::is_prev_key(key.code) || crate::widgets::select::is_next_key(key.code)
        || key.code == Key::Delete || key.code == Key::Backspace) ==> !used && b == a)
}

/// A key on a checkbox.
pub open spec fn checkbox_key(a: Checkbox, b: Checkbox, key: KeyEvent, used: bool) -> bool {
    &&& b.label@ == a.label@
    &&& ((key.code == Key::Char(' ') || key.code == Key::Enter) ==> used && b.value
        == crate::widgets::checkbox::toggled(a.value))
    &&& ((key.code == Key::Delete || key.code == Key::Backspace) ==> used && b.value is None)
    &&& (!(key.code == Key::Char(' ') || key.code == Key::Enter || key.code == Key::Delete || key.code
        == Key::Backspace) ==> !used && b.value == a.value)
}

/// A key on an on/off switch.
pub open spec fn enable_key(a: Enable, b: Enable, key: KeyEvent, used: bool) -> bool {
    &&& b.label@ == a.label@
    &&& b.on@ == a.on@
    &&& b.off@ == a.off@
    &&& ((key.code == Key::Char(' ') || key.code == Key::Enter || key.code == Key::Left || key.code == Key::Right)
        ==> used && b.value == crate::widgets::checkbox::toggled(a.value))
    &&& ((key.code == Key::Delete || key.code == Key::Backspace) ==> used && b.value is None)
    &&& (!(key.code == Key::Char(' ') || key.code == Key::Enter || key.code == Key::Left || key.code == Key::Right
        || key.code == Key::Delete || key.code == Key::Backspace) ==> !used && b.value == a.value)
}

/// The text a text area writes: its lines joined by newlines.
pub open spec fn area_text(t: TextArea) -> Seq<char> {
    crate::text::join(strings(t.lines@), seq!['\n'])
}

/// What a key does to a field: each widget handles it; a text-like value
/// becomes set once a key changes its text (opening and leaving the editor
/// leaves an untouched field unset).
pub open spec fn field_key(old: FormField, new: FormField, key: KeyEvent, used: bool) -> bool {
    &&& new.key == old.key
    &&& new.value_type == old.value_type
    &&& match (old.widget, new.widget) {
        (FormWidget::Text { w: a, defined: d }, FormWidget::Text { w: b, defined: e }) => text_key(a, b, key, used)
            && e == (d || b.value@ != a.value@),
        (FormWidget::Password { w: a, defined: d }, FormWidget::Password { w: b, defined: e }) => password_key(
            a,
            b,
            key,
            used,
        ) && e == (d || b.value@ != a.value@),
        (FormWidget::TextArea { w: a, defined: d }, FormWidget::TextArea { w: b, defined: e }) => textarea_key(
            a,
            b,
            key,
            used,
        ) && e == (d || area_text(b) != area_text(a)),
        (FormWidget::Select(a), FormWidget::Select(b)) => select_key(a, b, key, used),
        (FormWidget::Checkbox(a), FormWidget::Checkbox(b)) => checkbox_key(a, b, key, used),
        (FormWidget::Enable(a), FormWidget::Enable(b)) => enable_key(a, b, key, used),
        _ => false,
    }
}

/// The value a field writes: a set text-like value as a scalar of the
/// field's type, the chosen option's value, a defined boolean; nothing for
/// an unset field.
pub open spec fn field_value(ff: FormField) -> Option<ScalarV> {
    let vt = ff.value_type@;
    match ff.widget {
        FormWidget::Text { w, defined } => if defined { Some(scalar_of(w.value@, vt)) } else { None },
        FormWidget::Password { w, defined } => if defined { Some(scalar_of(w.value@, vt)) } else { None },
        FormWidget::TextArea { w, defined } => if defined {
            Some(scalar_of(crate::text::join(strings(w.lines@), seq!['\n']), vt))
        } else {
            None
        },
        FormWidget::Select(s) => if s.set && s.selected < s.options@.len() {
            Some(scalar_of(s.options@[s.selected as int].value@, vt))
        } else {
            None
        },
        FormWidget::Checkbox(c) => match c.value {
            Some(b) => Some(ScalarV::Bool(b)),
            None => None,
        },
        FormWidget::Enable(e) => match e.value {
            Some(b) => Some(ScalarV::Bool(b)),
            None => None,
        },
    }
}

pub open spec fn opt_scalar(o: Option<Scalar>) -> Option<ScalarV> {
    match o {
        Some(s) => Some(s@),
        None => None,
    }
}

impl FormField {
    pub fn height(&self) -> (h: u16)
        requires
            height_ok(*self),
        ensures
            h == field_height(*self),
    {
        match &self.widget {
            FormWidget::Text { w, .. } => w.height(),
            FormWidget::Password { w, .. } => w.height(),
            FormWidget::TextArea { w, .. } => w.height(),
            FormWidget::Select(w) => w.height(),
            FormWidget::Checkbox(w) => w.height(),
            FormWidget::Enable(w) => w.height(),
        }
    }

    pub fn is_editing(&self) -> (r: bool)
        ensures
            r == field_editing(*self),
    {
        match &self.widget {
            FormWidget::Text { w, .. } => w.is_editing(),
            FormWidget::Password { w, .. } => w.is_editing(),
            FormWidget::Select(s) => s.open(),
            _ => false,
        }
    }

    pub fn end_editing(&mut self)
        ensures
            *final(self) == ended(*old(self)),
    {
        match &mut self.widget {
            FormWidget::Text { w, .. } => {
                w.editing = false;
            },
            FormWidget::Password { w, .. } => {
                w.editing = false;
            },
            _ => {},
        }
    }

    /// Applies a key to the field's widget; returns whether it was used.
    pub fn handle_key(&mut self, key: KeyEvent) -> (used: bool)
        requires
            key_ok(*old(self)),
        ensures
            field_key(*old(self), *final(self), key, used),
    {
        match &mut self.widget {
            FormWidget::Text { w, defined } => {
                let before = w.value.clone();
                let used = w.handle_key(key);
                if w.value != before {
                    *defined = true;
                }
                used
            },
            FormWidget::Password { w, defined } => {
                let before = w.value.clone();
                let used = w.handle_key(key);
                if w.value != before {
                    *defined = true;
                }
                used
            },
            FormWidget::TextArea { w, defined } => {
                let before = w.text();
                let used = w.handle_key(key);
                let after = w.text();
                if after != before {
                    *defined = true;
                }
                used
            },
            FormWidget::Select(w) => w.handle_key(key),
            FormWidget::Checkbox(w) => w.handle_key(key),
            FormWidget::Enable(w) => w.handle_key(key),
        }
    }

    /// The value the field writes, if any.
    pub fn to_yaml(&self) -> (r: Option<Scalar>)
        ensures
            opt_scalar(r) == field_value(*self),
    {
        match &self.widget {
            FormWidget::Text { w, defined } => if *defined {
                Some(scalar_string(w.value.as_str(), &self.value_type))
            } else {
                None
            },
            FormWidget::Password { w, defined } => if *defined {
                Some(scalar_string(w.value.as_str(), &self.value_type))
            } else {
                None
            },
            FormWidget::TextArea { w, defined } => if *defined {
                let t = w.text();
                Some(scalar_string(t.as_str(), &self.value_type))
            } else {
                None
            },
            FormWidget::Select(s) => match s.value() {
                Some(v) => Some(scalar_string(v, &self.value_type)),
                None => None,
            },
            FormWidget::Checkbox(c) => match c.value {
                Some(b) => Some(Scalar::Bool(b)),
                None => None,
            },
            FormWidget::Enable(e) => match e.value {
                Some(b) => Some(Scalar::Bool(b)),
                None => None,
            },
        }
    }
}


/// The rows a field shows in an area `width` by `height`.
pub open spec fn field_rows(ff: FormField, width: nat, height: nat, focused: bool) -> Seq<Seq<(Seq<char>, Style)>> {
    match ff.widget {
        FormWidget::Text { w, .. } => text_rows(w.label@, w.value@, w.cursor as nat, w.editing, width, focused),
        FormWidget::Password { w, .. } => password_rows(w, width, focused),
        FormWidget::TextArea { w, .. } => textarea_rows(w, width, height, focused),
        FormWidget::Select(s) => seq![select_spec(s, focused)],
        FormWidget::Checkbox(c) => seq![checkbox_spec(c, focused)],
        FormWidget::Enable(e) => seq![enable_spec(e, focused)],
    }
}

/// A field after being shown: a one-line input not focused leaves editing;
/// a text area records its inner width.
pub open spec fn field_shown(ff: FormField, width: nat, height: nat, focused: bool) -> FormField {
    match ff.widget {
        FormWidget::Text { w, defined } => FormField {
            widget: FormWidget::Text { w: Text { editing: w.editing && focused, ..w }, defined },
            ..ff
        },
        FormWidget::Password { w, defined } => FormField {
            widget: FormWidget::Password { w: Password { editing: w.editing && focused, ..w }, defined },
            ..ff
        },
        FormWidget::TextArea { w, defined } => FormField {
            widget: FormWidget::TextArea { w: textarea_shown(w, width, height), defined },
            ..ff
        },
        _ => ff,
    }
}

/// The field's text area, if any, has a line.
pub open spec fn view_ok(ff: FormField) -> bool {
    ff.widget matches FormWidget::TextArea { w, .. } ==> w.lines@.len() > 0
}

impl FormField {
    /// The rows of the field in an area `width` by `height`.
    pub fn view(&mut self, width: u16, height: u16, focused: bool) -> (r: Vec<Vec<Span>>)
        requires
            view_ok(*old(self)),
        ensures
            *final(self) == field_shown(*old(self), width as nat, height as nat, focused),
            rows_view(r@) == field_rows(*old(self), width as nat, height as nat, focused),
    {
        let mut r: Vec<Vec<Span>> = Vec::new();
        match &mut self.widget {
            FormWidget::Text { w, .. } => w.view(width, focused),
            FormWidget::Password { w, .. } => w.view(width, focused),
            FormWidget::TextArea { w, .. } => w.view(width, height, focused),
            FormWidget::Select(s) => {
                r.push(s.view(focused));
                r
            },
            FormWidget::Checkbox(c) => {
                r.push(c.view(focused));
                r
            },
            FormWidget::Enable(e) => {
                r.push(e.view(focused));
                r
            },
        }
    }
}

/// Top offsets of the fields stacked from row 0, and the total height
/// (adding with saturation at the 16-bit limit).
pub open spec fn layout_of(heights: Seq<int>, gap: bool) -> (Seq<u16>, u16)
    decreases heights.len(),
{
    if heights.len() == 0 {
        (Seq::empty(), 0)
    } else {
        let (offs, y) = layout_of(heights.drop_last(), gap);
        let y0: u16 = if gap && heights.len() > 1 { sat_add(y, 1) } else { y };
        (offs.push(y0), sat_add(y0, heights.last()))
    }
}

/// 16-bit addition saturating at the maximum.
pub open spec fn sat_add(a: u16, b: int) -> u16 {
    if a + b > u16::MAX { u16::MAX } else if a + b < 0 { 0 } else { (a + b) as u16 }
}

/// 16-bit subtraction saturating at zero.
pub open spec fn sat_sub(a: u16, b: u16) -> u16 {
    if a >= b { (a - b) as u16 } else { 0 }
}

pub open spec fn heights_of(fields: Seq<FormField>) -> Seq<int> {
    fields.map_values(|f: FormField| field_height(f))
}

pub open spec fn all_heights_ok(fields: Seq<FormField>) -> bool {
    forall|i: int| 0 <= i < fields.len() ==> height_ok(#[trigger] fields[i])
}

/// Top offset of each field and the total height of the form.
pub fn field_layout(fields: &Vec<FormField>) -> (r: (Vec<u16>, u16))
    requires
        all_heights_ok(fields@),
    ensures
        (r.0@, r.1) == layout_of(heights_of(fields@), false),
{
    let ghost hs = heights_of(fields@);
    let mut offsets: Vec<u16> = Vec::new();
    let mut y: u16 = 0;
    let mut i: usize = 0;
    assert(hs.take(0) =~= Seq::<int>::empty());
    while i < fields.len()
        invariant
            i <= fields.len(),
            hs == heights_of(fields@),
            all_heights_ok(fields@),
            (offsets@, y) == layout_of(hs.take(i as int), false),
        decreases fields.len() - i,
    {
        assert(hs.take(i + 1).drop_last() =~= hs.take(i as int));
        assert(hs.take(i + 1).last() == field_height(fields@[i as int]));
        offsets.push(y);
        let h = fields[i].height();
        y = y.saturating_add(h);
        i = i + 1;
    }
    assert(hs.take(fields.len() as int) =~= hs);
    (offsets, y)
}

/// The scroll offset that shows the rows `top .. top + h` (saturating) in
/// a viewport of `viewport` rows, clamped to the content's last page.
pub open spec fn scroll_into_view(scroll: u16, top: u16, h: int, viewport: u16, total: u16) -> u16 {
    if viewport == 0 {
        scroll
    } else {
        let bottom = sat_add(top, h);
        let s1 = if top < scroll { top } else { scroll };
        let s2 = if bottom > sat_add(s1, viewport as int) { sat_sub(bottom, viewport) } else { s1 };
        let max_scroll = sat_sub(total, viewport);
        if s2 > max_scroll { max_scroll } else { s2 }
    }
}

pub fn visible_scroll(scroll: u16, top: u16, h: u16, viewport: u16, total: u16) -> (r: u16)
    ensures
        r == scroll_into_view(scroll, top, h as int, viewport, total),
{
    if viewport == 0 {
        return scroll;
    }
    let bottom = top.saturating_add(h);
    let mut s = scroll;
    if top < s {
        s = top;
    }
    if bottom > s.saturating_add(viewport) {
        s = bottom.saturating_sub(viewport);
    }
    let max_scroll = total.saturating_sub(viewport);
    if s > max_scroll {
        s = max_scroll;
    }
    s
}

/// The scroll offset moved by `delta` rows and kept on the content.
pub open spec fn scrolled(scroll: u16, delta: i32, viewport: u16, total: u16) -> u16 {
    let max_scroll = sat_sub(total, viewport) as int;
    let next = scroll + delta;
    (if next < 0 { 0 } else if next > max_scroll { max_scroll } else { next }) as u16
}

pub fn scroll_step(scroll: u16, delta: i32, viewport: u16, total: u16) -> (r: u16)
    requires
        i32::MIN <= scroll + delta <= i32::MAX,
    ensures
        r == scrolled(scroll, delta, viewport, total),
{
    let max_scroll = total.saturating_sub(viewport) as i32;
    let next = scroll as i32 + delta;
    let c = if next < 0 { 0 } else if next > max_scroll { max_scroll } else { next };
    c as u16
}


// ---------------------------------------------------------------- the form

/// Which part of the form has the keyboard.
#[derive(Debug, Clone, Copy, PartialEq, Eq, Structural)]
pub enum Focus {
    Field(usize),
    Save,
}

/// What the front end is asked to do after a key.
#[derive(Debug, Clone, Copy, PartialEq, Eq, Structural)]
pub enum FormAction {
    Nothing,
    /// Write [`Form::values`] to the output file.
    Save,
}

/// The form editor's state.
pub struct Form {
    pub fields: Vec<FormField>,
    pub focus: Focus,
    /// First visible content row.
    pub scroll: u16,
    pub save_btn: Button,
    /// Path of the output file, for messages.
    pub output: String,
    pub should_quit: bool,
    pub saved: bool,
    pub status: String,
}

/// The form's invariant: at least one field, the focus on one of them or
/// on Save.
pub open spec fn form_wf(fields: Seq<FormField>, focus: Focus) -> bool {
    &&& fields.len() > 0
    &&& (focus matches Focus::Field(i) ==> i < fields.len())
}

/// The schema's fields built one after the other, or the first error.
pub open spec fn first_error(fs: Seq<FieldV>) -> Option<Seq<char>>
    decreases fs.len(),
{
    if fs.len() == 0 {
        None
    } else {
        match first_error(fs.drop_last()) {
            Some(e) => Some(e),
            None => match fs.last().widget {
                WidgetV::Other(name) => Some("неподдерживаемый виджет: "@ + name),
                _ => None,
            },
        }
    }
}

/// Focus after Tab: the next field, Save after the last one, the first
/// after Save.
pub open spec fn next_focus(focus: Focus, n: nat) -> Focus {
    match focus {
        Focus::Field(i) => if i + 1 < n { Focus::Field((i + 1) as usize) } else { Focus::Save },
        Focus::Save => Focus::Field(0),
    }
}

/// Focus after Shift-Tab: the previous field, Save before the first one,
/// the last field before Save.
pub open spec fn prev_focus(focus: Focus, n: nat) -> Focus {
    match focus {
        Focus::Field(i) => if i == 0 { Focus::Save } else { Focus::Field((i - 1) as usize) },
        Focus::Save => Focus::Field((n - 1) as usize),
    }
}

/// The fields with the focused one out of its editing mode.
pub open spec fn leave_field(fields: Seq<FormField>, focus: Focus) -> Seq<FormField> {
    match focus {
        Focus::Field(i) => fields.update(i as int, ended(fields[i as int])),
        Focus::Save => fields,
    }
}

/// The values a form writes: each field's key with its value, in order,
/// fields without a value left out.
pub open spec fn values_of(fields: Seq<FormField>) -> Seq<(Seq<char>, ScalarV)>
    decreases fields.len(),
{
    if fields.len() == 0 {
        Seq::empty()
    } else {
        let rest = values_of(fields.drop_last());
        match field_value(fields.last()) {
            Some(v) => rest.push((fields.last().key@, v)),
            None => rest,
        }
    }
}

pub open spec fn pairs_view(v: Seq<(String, Scalar)>) -> Seq<(Seq<char>, ScalarV)> {
    v.map_values(|p: (String, Scalar)| (p.0@, p.1@))
}

impl Form {
    /// The form for `schema` filled from the input entries `data`; a schema
    /// without fields or with an unknown widget is refused.
    pub fn from_schema(schema: &Schema, data: &Vec<Entry>, output: &str) -> (r: Result<Form, String>)
        ensures
            match r {
                Ok(f) => {
                    &&& schema.fields@.len() > 0
                    &&& first_error(fields_view(schema.fields@)) is None
                    &&& f.fields@.len() == schema.fields@.len()
                    &&& forall|i: int|
                        0 <= i < f.fields@.len() ==> built(
                            #[trigger] f.fields@[i],
                            schema.fields@[i]@,
                            entries_view(data@),
                        )
                    &&& f.focus == Focus::Field(0)
                    &&& f.scroll == 0
                    &&& f.save_btn.label@ == "Save"@
                    &&& f.output@ == output@
                    &&& !f.should_quit
                    &&& !f.saved
                    &&& f.status@ == Seq::<char>::empty()
                },
                Err(e) => if schema.fields@.len() == 0 {
                    e@ == "в схеме нет полей для редактирования"@
                } else {
                    first_error(fields_view(schema.fields@)) == Some(e@)
                },
            },
    {
        if schema.fields.len() == 0 {
            return Err("в схеме нет полей для редактирования".to_owned());
        }
        let ghost fv = fields_view(schema.fields@);
        let mut fields: Vec<FormField> = Vec::new();
        let mut i: usize = 0;
        while i < schema.fields.len()
            invariant
                i <= schema.fields@.len(),
                fv == fields_view(schema.fields@),
                fields@.len() == i,
                first_error(fv.take(i as int)) is None,
                forall|j: int| 0 <= j < i ==> built(#[trigger] fields@[j], schema.fields@[j]@, entries_view(data@)),
            decreases schema.fields.len() - i,
        {
            assert(fv.take(i + 1).drop_last() =~= fv.take(i as int));
            assert(fv.take(i + 1).last() == schema.fields@[i as int]@);
            match build_field(&schema.fields[i], data) {
                Ok(ff) => {
                    fields.push(ff);
                },
                Err(e) => {
                    proof {
                        lemma_first_error_prefix(fv, i + 1);
                    }
                    return Err(e);
                },
            }
            i = i + 1;
        }
        assert(fv.take(schema.fields@.len() as int) =~= fv);
        Ok(Form {
            fields,
            focus: Focus::Field(0),
            scroll: 0,
            save_btn: Button::new("Save"),
            output: output.to_owned(),
            should_quit: false,
            saved: false,
            status: String::new(),
        })
    }

    /// Tab: leaves the focused field's editing mode and moves on.
    pub fn focus_next(&mut self)
        requires
            form_wf(old(self).fields@, old(self).focus),
        ensures
            final(self).fields@ == leave_field(old(self).fields@, old(self).focus),
            final(self).focus == next_focus(old(self).focus, old(self).fields@.len()),
            final(self).scroll == old(self).scroll,
            final(self).should_quit == old(self).should_quit,
            final(self).status == old(self).status,
            form_wf(final(self).fields@, final(self).focus),
    {
        if let Focus::Field(i) = self.focus {
            let mut f = self.fields.remove(i);
            f.end_editing();
            self.fields.insert(i, f);
            assert(self.fields@ =~= leave_field(old(self).fields@, old(self).focus));
        }
        self.focus = match self.focus {
            Focus::Field(i) => if i < self.fields.len() - 1 { Focus::Field(i + 1) } else { Focus::Save },
            Focus::Save => Focus::Field(0),
        };
    }

    /// Shift-Tab: leaves the focused field's editing mode and moves back.
    pub fn focus_prev(&mut self)
        requires
            form_wf(old(self).fields@, old(self).focus),
        ensures
            final(self).fields@ == leave_field(old(self).fields@, old(self).focus),
            final(self).focus == prev_focus(old(self).focus, old(self).fields@.len()),
            final(self).scroll == old(self).scroll,
            final(self).should_quit == old(self).should_quit,
            final(self).status == old(self).status,
            form_wf(final(self).fields@, final(self).focus),
    {
        if let Focus::Field(i) = self.focus {
            let mut f = self.fields.remove(i);
            f.end_editing();
            self.fields.insert(i, f);
            assert(self.fields@ =~= leave_field(old(self).fields@, old(self).focus));
        }
        self.focus = match self.focus {
            Focus::Field(i) => if i == 0 { Focus::Save } else { Focus::Field(i - 1) },
            Focus::Save => Focus::Field(self.fields.len() - 1),
        };
    }

    /// Scrolls so that the focused field is wholly in a viewport of
    /// `viewport_h` rows.
    pub fn ensure_focus_visible(&mut self, offsets: &Vec<u16>, viewport_h: u16, total_h: u16)
        requires
            offsets@.len() == old(self).fields@.len(),
            all_heights_ok(old(self).fields@),
        ensures
            final(self).scroll == (match old(self).focus {
                Focus::Field(i) => if i < old(self).fields@.len() {
                    scroll_into_view(
                        old(self).scroll,
                        offsets@[i as int],
                        field_height(old(self).fields@[i as int]),
                        viewport_h,
                        total_h,
                    )
                } else {
                    old(self).scroll
                },
                Focus::Save => old(self).scroll,
            }),
            final(self).fields == old(self).fields,
            final(self).focus == old(self).focus,
            final(self).should_quit == old(self).should_quit,
            final(self).status == old(self).status,
    {
        let i = match self.focus {
            Focus::Field(i) => i,
            Focus::Save => {
                return;
            },
        };
        if i >= self.fields.len() {
            return;
        }
        let h = self.fields[i].height();
        self.scroll = visible_scroll(self.scroll, offsets[i], h, viewport_h, total_h);
    }

    /// Scrolls by `delta` rows within the content.
    pub fn scroll_by(&mut self, delta: i32, viewport_h: u16, total_h: u16)
        requires
            i32::MIN <= old(self).scroll + delta <= i32::MAX,
        ensures
            final(self).scroll == scrolled(old(self).scroll, delta, viewport_h, total_h),
            final(self).fields == old(self).fields,
            final(self).focus == old(self).focus,
            final(self).should_quit == old(self).should_quit,
            final(self).status == old(self).status,
    {
        self.scroll = scroll_step(self.scroll, delta, viewport_h, total_h);
    }

    /// The key/value pairs to write.
    pub fn values(&self) -> (r: Vec<(String, Scalar)>)
        ensures
            pairs_view(r@) == values_of(self.fields@),
    {
        let mut out: Vec<(String, Scalar)> = Vec::new();
        let mut i: usize = 0;
        assert(self.fields@.take(0) =~= Seq::<FormField>::empty());
        while i < self.fields.len()
            invariant
                i <= self.fields@.len(),
                pairs_view(out@) == values_of(self.fields@.take(i as int)),
            decreases self.fields.len() - i,
        {
            assert(self.fields@.take(i + 1).drop_last() =~= self.fields@.take(i as int));
            assert(self.fields@.take(i + 1).last() == self.fields@[i as int]);
            match self.fields[i].to_yaml() {
                Some(v) => {
                    let ghost before = pairs_view(out@);
                    let k = self.fields[i].key.clone();
                    out.push((k, v));
                    assert(pairs_view(out@) =~= before.push((self.fields@[i as int].key@, v@)));
                },
                None => {},
            }
            i = i + 1;
        }
        assert(self.fields@.take(self.fields.len() as int) =~= self.fields@);
        out
    }

    /// The file was written: the editor closes.
    pub fn saved(&mut self)
        ensures
            final(self).saved,
            final(self).should_quit,
            final(self).fields == old(self).fields,
            final(self).focus == old(self).focus,
            final(self).status == old(self).status,
    {
        self.saved = true;
        self.should_quit = true;
    }

    /// Writing failed with `message`: it is shown in the status bar.
    pub fn save_failed(&mut self, message: &str)
        ensures
            final(self).status@ == "ошибка: "@ + message@,
            final(self).saved == old(self).saved,
            final(self).should_quit == old(self).should_quit,
            final(self).fields == old(self).fields,
            final(self).focus == old(self).focus,
    {
        self.status = str_concat("ошибка: ", message);
    }

    /// The status bar: the last message, else the output path.
    pub fn status_text(&self) -> (r: String)
        ensures
            r@ == " "@ + (if self.status@.len() == 0 { " output: "@ + self.output@ } else { self.status@ }),
    {
        let n = to_chars(self.status.as_str()).len();
        let body = if n == 0 { str_concat(" output: ", self.output.as_str()) } else { self.status.clone() };
        str_concat(" ", body.as_str())
    }
}

proof fn lemma_first_error_prefix(fs: Seq<FieldV>, n: int)
    requires
        0 < n <= fs.len(),
        first_error(fs.take(n - 1)) is None,
        fs[n - 1].widget matches WidgetV::Other(_),
    ensures
        first_error(fs.take(n)) == first_error(fs),
        first_error(fs) == Some("неподдерживаемый виджет: "@ + (fs[n - 1].widget->Other_0)),
    decreases fs.len() - n,
{
    assert(fs.take(n).drop_last() =~= fs.take(n - 1));
    if n < fs.len() {
        assert(fs.take(n + 1).drop_last() =~= fs.take(n));
        lemma_first_error_extend(fs, n + 1);
    } else {
        assert(fs.take(n) =~= fs);
    }
}

/// Once an error is found, later fields keep it.
proof fn lemma_first_error_extend(fs: Seq<FieldV>, m: int)
    requires
        0 < m <= fs.len(),
        first_error(fs.take(m - 1)) is Some,
    ensures
        first_error(fs) == first_error(fs.take(m - 1)),
    decreases fs.len() - m,
{
    assert(fs.take(m).drop_last() =~= fs.take(m - 1));
    if m < fs.len() {
        lemma_first_error_extend(fs, m + 1);
    } else {
        assert(fs.take(m) =~= fs);
    }
}

/// The form's reaction to a key: Ctrl-Q/Ctrl-C, and Esc outside editing,
/// quit; Tab/Shift-Tab move the focus; PageDown/PageUp scroll by a page;
/// other keys go to the focused field, or press Save.
pub fn handle_key(form: &mut Form, key: KeyEvent, viewport_h: u16, total_h: u16) -> (r: FormAction)
    requires
        form_wf(old(form).fields@, old(form).focus),
        old(form).focus matches Focus::Field(i) ==> key_ok(old(form).fields@[i as int]),
    ensures
        form_wf(final(form).fields@, final(form).focus),
        ({
            let old_f = *old(form);
            let new_f = *final(form);
            let editing = match old_f.focus {
                Focus::Field(i) => field_editing(old_f.fields@[i as int]),
                Focus::Save => false,
            };
            let ctrl_quit = key.modifiers == Mods::Control && (key.code == Key::Char('q') || key.code == Key::Char('c'));
            if ctrl_quit || (key.code == Key::Esc && !editing) {
                new_f.should_quit && new_f.fields == old_f.fields && new_f.focus == old_f.focus && r == FormAction::Nothing
            } else if key.code == Key::Tab {
                new_f.fields@ == leave_field(old_f.fields@, old_f.focus) && new_f.focus == next_focus(
                    old_f.focus,
                    old_f.fields@.len(),
                ) && r == FormAction::Nothing
            } else if key.code == Key::BackTab {
                new_f.fields@ == leave_field(old_f.fields@, old_f.focus) && new_f.focus == prev_focus(
                    old_f.focus,
                    old_f.fields@.len(),
                ) && r == FormAction::Nothing
            } else if key.code == Key::PageDown {
                new_f.scroll == scrolled(old_f.scroll, viewport_h as i32, viewport_h, total_h) && new_f.fields
                    == old_f.fields && r == FormAction::Nothing
            } else if key.code == Key::PageUp {
                new_f.scroll == scrolled(old_f.scroll, (-(viewport_h as int)) as i32, viewport_h, total_h) && new_f.fields
                    == old_f.fields && r == FormAction::Nothing
            } else {
                match old_f.focus {
                    Focus::Field(i) => new_f.fields@.len() == old_f.fields@.len() && (forall|j: int|
                        0 <= j < new_f.fields@.len() && j != i ==> new_f.fields@[j] == old_f.fields@[j]) && (exists|
                        used: bool,
                    | field_key(old_f.fields@[i as int], new_f.fields@[i as int], key, used)) && r
                        == FormAction::Nothing && new_f.focus == old_f.focus,
                    Focus::Save => new_f.fields == old_f.fields && r == (if key.code == Key::Enter || key.code
                        == Key::Char(' ') {
                        FormAction::Save
                    } else {
                        FormAction::Nothing
                    }),
                }
            }
        }),
{
    let editing = match form.focus {
        Focus::Field(i) => form.fields[i].is_editing(),
        Focus::Save => false,
    };
    let ctrl = match key.modifiers {
        Mods::Control => true,
        _ => false,
    };
    let ctrl_quit = ctrl && match key.code {
        Key::Char(c) => c == 'q' || c == 'c',
        _ => false,
    };
    if ctrl_quit {
        form.should_quit = true;
        return FormAction::Nothing;
    }
    match key.code {
        Key::Esc => {
            if !editing {
                form.should_quit = true;
                return FormAction::Nothing;
            }
        },
        Key::Tab => {
            form.focus_next();
            return FormAction::Nothing;
        },
        Key::BackTab => {
            form.focus_prev();
            return FormAction::Nothing;
        },
        Key::PageDown => {
            form.scroll_by(viewport_h as i32, viewport_h, total_h);
            return FormAction::Nothing;
        },
        Key::PageUp => {
            form.scroll_by(-(viewport_h as i32), viewport_h, total_h);
            return FormAction::Nothing;
        },
        _ => {},
    }
    match form.focus {
        Focus::Field(i) => {
            let mut f = form.fields.remove(i);
            let used = f.handle_key(key);
            form.fields.insert(i, f);
            proof {
                assert(form.fields@[i as int] == f);
                assert forall|j: int| 0 <= j < form.fields@.len() && j != i implies form.fields@[j]
                    == old(form).fields@[j] by {}
            }
            FormAction::Nothing
        },
        Focus::Save => {
            if form.save_btn.handle_key(key) {
                FormAction::Save
            } else {
                FormAction::Nothing
            }
        },
    }
}


/// The fields wholly inside the viewport `scroll .. scroll + content_h`,
/// from field `i` on: each with its row inside the viewport and height.
pub open spec fn placed(heights: Seq<int>, offsets: Seq<u16>, scroll: u16, content_h: u16, i: int) -> Seq<(usize, u16, u16)>
    decreases heights.len() - i,
{
    if i < 0 || i >= heights.len() {
        Seq::empty()
    } else {
        let top = offsets[i];
        let bottom = sat_add(top, heights[i]);
        let rest = placed(heights, offsets, scroll, content_h, i + 1);
        if top < scroll || bottom > sat_add(scroll, content_h as int) {
            rest
        } else {
            seq![(i as usize, (top - scroll) as u16, heights[i] as u16)] + rest
        }
    }
}

impl Form {
    /// Where the visible fields go in a content area of `content_h` rows.
    pub fn placements(&self, offsets: &Vec<u16>, content_h: u16) -> (r: Vec<(usize, u16, u16)>)
        requires
            offsets@.len() == self.fields@.len(),
            all_heights_ok(self.fields@),
        ensures
            r@ == placed(heights_of(self.fields@), offsets@, self.scroll, content_h, 0),
    {
        let ghost hs = heights_of(self.fields@);
        let mut out: Vec<(usize, u16, u16)> = Vec::new();
        let n = self.fields.len();
        let mut k: usize = n;
        while k > 0
            invariant
                k <= n,
                n == self.fields@.len(),
                hs == heights_of(self.fields@),
                offsets@.len() == n,
                all_heights_ok(self.fields@),
                out@ == placed(hs, offsets@, self.scroll, content_h, k as int),
            decreases k,
        {
            let i = k - 1;
            let top = offsets[i];
            let h = self.fields[i].height();
            let bottom = top.saturating_add(h);
            if !(top < self.scroll || bottom > self.scroll.saturating_add(content_h)) {
                out.insert(0, (i, top - self.scroll, h));
                assert(out@ =~= seq![(i, (top - self.scroll) as u16, h)] + placed(hs, offsets@, self.scroll, content_h, k as int));
            }
            k = i;
        }
        out
    }
}


// ---------------------------------------------------------------- laws

/// A text field of a string value starts from the input's text and, left
/// as it is, writes that same text back.
pub proof fn law_text_field_keeps_input(ff: FormField, f: FieldV, es: Seq<EntryV>, s: Seq<char>)
    requires
        built(ff, f, es),
        f.widget == WidgetV::Text,
        f.value_type == ValueTypeV::String,
        lookup_key(es, f.key, 0) == Some(NodeV::Str(s)),
    ensures
        field_value(ff) == Some(ScalarV::Str(s)),
{
}

/// A text area of a string value, left as it is, writes the input's text
/// back when that text has no carriage return and no final newline (the
/// editor splits its text into lines as `str::lines` does).
pub proof fn law_textarea_keeps_input(ff: FormField, f: FieldV, es: Seq<EntryV>, s: Seq<char>)
    requires
        built(ff, f, es),
        f.widget is Textarea,
        f.value_type == ValueTypeV::String,
        lookup_key(es, f.key, 0) == Some(NodeV::Str(s)),
        !s.contains('\r'),
        s.len() == 0 || s.last() != '\n',
    ensures
        field_value(ff) == Some(ScalarV::Str(s)),
{
    let sv = string_value_spec(lookup_key(es, f.key, 0), f.default, true);
    assert(sv == (s, true));
    if s.len() > 0 {
        crate::text::lemma_join_lines(s);
        assert(initial_lines(s) == crate::text::lines_of(s));
    } else {
        assert(crate::text::join(seq![Seq::<char>::empty()], seq!['\n']) == Seq::<char>::empty());
    }
    assert(crate::text::join(initial_lines(s), seq!['\n']) == s);
    let w = ff.widget->TextArea_w;
    assert(strings(w.lines@) == initial_lines(s));
}

/// Opening or leaving a text field's editor (Enter, Esc) sets nothing: an
/// untouched field without a default stays unset and is left out on save.
pub proof fn law_opening_editor_keeps_field_unset(a: FormField, b: FormField, key: KeyEvent, used: bool)
    requires
        field_key(a, b, key, used),
        a.widget matches FormWidget::Text { defined, .. } && !defined,
        key.code == Key::Enter || key.code == Key::Esc,
    ensures
        b.widget matches FormWidget::Text { defined, .. } && !defined,
        field_value(b) is None,
{
}

/// The same for a boolean field shown as a checkbox: the input's boolean
/// is written back unchanged.
pub proof fn law_checkbox_keeps_input(ff: FormField, f: FieldV, es: Seq<EntryV>, b: bool)
    requires
        built(ff, f, es),
        f.widget == WidgetV::Checkbox,
        lookup_key(es, f.key, 0) == Some(NodeV::Bool(b)),
    ensures
        field_value(ff) == Some(ScalarV::Bool(b)),
{
}

/// A select whose input value is one of its options' values writes that
/// option's value back.
pub proof fn law_select_keeps_input(ff: FormField, f: FieldV, es: Seq<EntryV>, v: Seq<char>, i: int)
    requires
        built(ff, f, es),
        f.widget matches WidgetV::Select { options } && 0 <= i < options.len() && options[i].1 == v && forall|
            j: int,
        | 0 <= j < i ==> options[j].1 != v && options[j].0 != v,
        f.value_type == ValueTypeV::String,
        lookup_key(es, f.key, 0) == Some(NodeV::Str(v)),
    ensures
        field_value(ff) == Some(ScalarV::Str(v)),
{
    let options = f.widget->Select_options;
    lemma_option_index(options, v, 0, i);
}

proof fn lemma_option_index(opts: Seq<(Seq<char>, Seq<char>)>, v: Seq<char>, j: int, i: int)
    requires
        0 <= j <= i < opts.len(),
        opts[i].1 == v,
        forall|k: int| 0 <= k < i ==> opts[k].1 != v && opts[k].0 != v,
    ensures
        option_index(opts, v, j) == Some(i),
    decreases i - j,
{
    if j < i {
        lemma_option_index(opts, v, j + 1, i);
    }
}


/// A select's choice stays on one of its options, whatever key is pressed.
pub proof fn law_select_stays_on_an_option(a: Select, b: Select, key: KeyEvent, used: bool)
    requires
        select_key(a, b, key, used),
        a.selected < a.options@.len(),
    ensures
        b.selected < b.options@.len(),
{
}

/// Stepping a select forward and then back returns to the same option.
pub proof fn law_select_next_then_prev(a: Select, b: Select, c: Select, k1: KeyEvent, k2: KeyEvent, u1: bool, u2: bool)
    requires
        select_key(a, b, k1, u1),
        select_key(b, c, k2, u2),
        crate::widgets::select::is_next_key(k1.code),
        crate::widgets::select::is_prev_key(k2.code),
        a.selected < a.options@.len(),
    ensures
        c.selected == a.selected,
        c.set,
{
    let n = a.options@.len() as int;
    if a.selected + 1 < n {
        assert((a.selected + 1) % n == a.selected + 1) by (nonlinear_arith)
            requires
                0 <= a.selected + 1 < n,
        ;
    } else {
        assert((a.selected + 1) % n == 0) by (nonlinear_arith)
            requires
                a.selected + 1 == n,
                n > 0,
        ;
    }
}

/// Keys move the focus around a cycle: Tab from the last field reaches
/// Save, and from Save the first field; Shift-Tab undoes Tab.
pub proof fn law_focus_cycle(focus: Focus, n: nat)
    requires
        0 < n <= usize::MAX,
        focus matches Focus::Field(i) ==> i < n,
    ensures
        prev_focus(next_focus(focus, n), n) == focus,
        next_focus(prev_focus(focus, n), n) == focus,
{
}

/// Whether the form shows a scrollbar: its rows do not fit the area's
/// height, and the area is wide enough to give the bar a column of its own.
pub fn shows_scrollbar(total_height: u16, area_height: u16, area_width: u16) -> (r: bool)
    ensures
        r == (total_height > area_height && area_width > 1),
{
    total_height > area_height && area_width > 1
}

} // verus!
