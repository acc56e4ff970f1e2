//! Schema of a YAML document for the form editor, and the parser of its
//! compact leaf DSL:
//!
//! ```text
//! leaf   := value_type ":" params | "boolean"
//! params := param ("," param)*        param := key "=" value
//! ```
//!
//! `boolean` alone means `boolean:widget=checkbox`; `widget` is required.

use vstd::prelude::*;
use crate::text::{
    from_chars, is_word, parse_uint, parse_unsigned, push_all, push_str, split_char,
    split_on, split_once, split_once_spec, to_chars, trim, trim_chars, views,
};
use crate::yaml::{Entry, EntryV, Node, NodeV, RootV, entries_view, schema_entries, schema_root_msg, yaml_root};

verus! {

/// Type of a value in the written YAML.
#[derive(Debug, Clone, PartialEq, Eq)]
pub enum ValueType {
    String,
    Boolean,
    Number,
    /// A type named in the schema that is not supported yet.
    Other(String),
}

/// One choice of a select widget.
#[derive(Debug, Clone, PartialEq, Eq)]
pub struct SelectOption {
    pub label: String,
    pub value: String,
}

/// Widget that edits a field.
#[derive(Debug, Clone, PartialEq, Eq)]
pub enum Widget {
    Text,
    /// Masked input; the collapsed preview reads `empty` or `filled`.
    Password { empty: Option<String>, filled: Option<String> },
    Textarea { height: Option<u32> },
    Select { options: Vec<SelectOption> },
    Checkbox,
    /// A boolean shown with on/off captions.
    Enable { on: Option<String>, off: Option<String> },
    /// A widget the editor does not know.
    Other(String),
}

/// A leaf of the schema.
#[derive(Debug, Clone, PartialEq, Eq)]
pub struct Field {
    pub key: String,
    pub value_type: ValueType,
    pub widget: Widget,
    /// Default from the DSL; `None` means undefined.
    pub default: Option<String>,
    pub label: Option<String>,
}

/// A parsed schema: its fields, and the keys that were left out.
#[derive(Debug, Clone, PartialEq, Eq)]
pub struct Schema {
    pub fields: Vec<Field>,
    pub skipped: Vec<Skipped>,
}

/// A key that was left out, and why.
#[derive(Debug, Clone, PartialEq, Eq)]
pub struct Skipped {
    pub key: String,
    pub reason: String,
}

// ---------------------------------------------------------------- views

pub enum ValueTypeV {
    String,
    Boolean,
    Number,
    Other(Seq<char>),
}

pub enum WidgetV {
    Text,
    Password { empty: Option<Seq<char>>, filled: Option<Seq<char>> },
    Textarea { height: Option<u32> },
    Select { options: Seq<(Seq<char>, Seq<char>)> },
    Checkbox,
    Enable { on: Option<Seq<char>>, off: Option<Seq<char>> },
    Other(Seq<char>),
}

pub struct FieldV {
    pub key: Seq<char>,
    pub value_type: ValueTypeV,
    pub widget: WidgetV,
    pub default: Option<Seq<char>>,
    pub label: Option<Seq<char>>,
}

pub struct SchemaV {
    pub fields: Seq<FieldV>,
    pub skipped: Seq<(Seq<char>, Seq<char>)>,
}

pub open spec fn opt_view(o: Option<String>) -> Option<Seq<char>> {
    match o {
        Some(s) => Some(s@),
        None => None,
    }
}

pub open spec fn options_view(v: Seq<SelectOption>) -> Seq<(Seq<char>, Seq<char>)> {
    v.map_values(|o: SelectOption| (o.label@, o.value@))
}

impl View for ValueType {
    type V = ValueTypeV;

    open spec fn view(&self) -> ValueTypeV {
        match self {
            ValueType::String => ValueTypeV::String,
            ValueType::Boolean => ValueTypeV::Boolean,
            ValueType::Number => ValueTypeV::Number,
            ValueType::Other(s) => ValueTypeV::Other(s@),
        }
    }
}

impl View for Widget {
    type V = WidgetV;

    open spec fn view(&self) -> WidgetV {
        match self {
            Widget::Text => WidgetV::Text,
            Widget::Password { empty, filled } => WidgetV::Password {
                empty: opt_view(*empty),
                filled: opt_view(*filled),
            },
            Widget::Textarea { height } => WidgetV::Textarea { height: *height },
            Widget::Select { options } => WidgetV::Select { options: options_view(options@) },
            Widget::Checkbox => WidgetV::Checkbox,
            Widget::Enable { on, off } => WidgetV::Enable { on: opt_view(*on), off: opt_view(*off) },
            Widget::Other(s) => WidgetV::Other(s@),
        }
    }
}

impl View for Field {
    type V = FieldV;

    open spec fn view(&self) -> FieldV {
        FieldV {
            key: self.key@,
            value_type: self.value_type@,
            widget: self.widget@,
            default: opt_view(self.default),
            label: opt_view(self.label),
        }
    }
}

pub open spec fn skipped_view(v: Seq<Skipped>) -> Seq<(Seq<char>, Seq<char>)> {
    v.map_values(|s: Skipped| (s.key@, s.reason@))
}

pub open spec fn fields_view(v: Seq<Field>) -> Seq<FieldV> {
    v.map_values(|f: Field| f@)
}

impl View for Schema {
    type V = SchemaV;

    open spec fn view(&self) -> SchemaV {
        SchemaV { fields: fields_view(self.fields@), skipped: skipped_view(self.skipped@) }
    }
}

/// A copy of a value type.
pub fn copy_value_type(v: &ValueType) -> (r: ValueType)
    ensures
        r@ == v@,
{
    match v {
        ValueType::String => ValueType::String,
        ValueType::Boolean => ValueType::Boolean,
        ValueType::Number => ValueType::Number,
        ValueType::Other(s) => ValueType::Other(s.clone()),
    }
}

// ---------------------------------------------------------------- specs

/// Parameters as `(key, value)` pairs.
pub open spec fn pair_views(v: Seq<(Vec<char>, Vec<char>)>) -> Seq<(Seq<char>, Seq<char>)> {
    v.map_values(|p: (Vec<char>, Vec<char>)| (p.0@, p.1@))
}

/// Value of the first parameter named `k`.
pub open spec fn lookup(ps: Seq<(Seq<char>, Seq<char>)>, k: Seq<char>) -> Option<Seq<char>>
    decreases ps.len(),
{
    if ps.len() == 0 {
        None
    } else if ps[0].0 == k {
        Some(ps[0].1)
    } else {
        lookup(ps.drop_first(), k)
    }
}

/// One `key=value` piece added to the parameters read so far.
pub open spec fn param_step(
    acc: Result<Seq<(Seq<char>, Seq<char>)>, Seq<char>>,
    piece: Seq<char>,
) -> Result<Seq<(Seq<char>, Seq<char>)>, Seq<char>> {
    match acc {
        Err(e) => Err(e),
        Ok(a) => {
            let part = trim(piece);
            if part.len() == 0 {
                Ok(a)
            } else {
                match split_once_spec(part, '=') {
                    None => Err("параметр без `=`: `"@ + part + "`"@),
                    Some((k, v)) => if trim(k).len() == 0 {
                        Err("пустое имя параметра в `"@ + part + "`"@)
                    } else {
                        Ok(a.push((trim(k), trim(v))))
                    },
                }
            }
        },
    }
}

/// The parameters of the comma-separated `pieces`, the first error winning.
pub open spec fn params_of(pieces: Seq<Seq<char>>) -> Result<Seq<(Seq<char>, Seq<char>)>, Seq<char>>
    decreases pieces.len(),
{
    if pieces.len() == 0 {
        Ok(Seq::empty())
    } else {
        param_step(params_of(pieces.drop_last()), pieces.last())
    }
}

/// What [`parse_params`] gives for `s`.
pub open spec fn params_spec(s: Seq<char>) -> Result<Seq<(Seq<char>, Seq<char>)>, Seq<char>> {
    params_of(split_char(s, ','))
}

/// `s` without its trailing `')'` characters.
pub open spec fn trim_end_parens(s: Seq<char>) -> Seq<char>
    decreases s.len(),
{
    if s.len() > 0 && s.last() == ')' {
        trim_end_parens(s.drop_last())
    } else {
        s
    }
}

/// One option: `label(value)` or just `label`, which is also the value.
pub open spec fn option_of(opt: Seq<char>) -> (Seq<char>, Seq<char>) {
    let o = trim(opt);
    match split_once_spec(o, '(') {
        Some((l, r)) => (l, trim_end_parens(r)),
        None => (o, o),
    }
}

/// The options of a select: `|`-separated, none for empty text.
pub open spec fn options_of(raw: Seq<char>) -> Seq<(Seq<char>, Seq<char>)> {
    if raw.len() == 0 {
        Seq::empty()
    } else {
        split_char(raw, '|').map_values(|o: Seq<char>| option_of(o))
    }
}

/// Type named by the prefix of a leaf.
pub open spec fn value_type_of(s: Seq<char>) -> ValueTypeV {
    if s == "string"@ {
        ValueTypeV::String
    } else if s == "boolean"@ {
        ValueTypeV::Boolean
    } else if s == "number"@ || s == "integer"@ {
        ValueTypeV::Number
    } else {
        ValueTypeV::Other(s)
    }
}

/// The widget named `name`, with its parameters.
pub open spec fn widget_of(name: Seq<char>, height: Option<u32>, ps: Seq<(Seq<char>, Seq<char>)>) -> WidgetV {
    if name == "text"@ {
        WidgetV::Text
    } else if name == "password"@ {
        WidgetV::Password { empty: lookup(ps, "empty"@), filled: lookup(ps, "filled"@) }
    } else if name == "textarea"@ {
        WidgetV::Textarea { height }
    } else if name == "checkbox"@ {
        WidgetV::Checkbox
    } else if name == "enable"@ {
        WidgetV::Enable { on: lookup(ps, "on"@), off: lookup(ps, "off"@) }
    } else if name == "select"@ {
        WidgetV::Select {
            options: options_of(
                match lookup(ps, "options"@) {
                    Some(v) => v,
                    None => Seq::empty(),
                },
            ),
        }
    } else {
        WidgetV::Other(name)
    }
}

/// The `height` parameter: absent, a `u32`, or an error.
pub open spec fn height_of(ps: Seq<(Seq<char>, Seq<char>)>) -> Result<Option<u32>, Seq<char>> {
    match lookup(ps, "height"@) {
        None => Ok(None),
        Some(v) => match parse_unsigned(v, 4294967295) {
            Some(h) => Ok(Some(h as u32)),
            None => Err("height должен быть числом"@),
        },
    }
}

/// What [`parse_leaf`] gives for the key `key` and the description `dsl`.
pub open spec fn leaf_spec(key: Seq<char>, dsl: Seq<char>) -> Result<FieldV, Seq<char>> {
    let d = trim(dsl);
    if d.len() == 0 {
        Err("пустое описание поля"@)
    } else if d == "boolean"@ {
        Ok(FieldV { key, value_type: ValueTypeV::Boolean, widget: WidgetV::Checkbox, default: None, label: None })
    } else {
        match split_once_spec(d, ':') {
            None => Err("ожидалось `value_type:params` или `boolean`, получено `"@ + d + "`"@),
            Some((t0, p0)) => {
                let t = trim(t0);
                let p = trim(p0);
                if t.len() == 0 || p.len() == 0 {
                    Err("неполное описание поля `"@ + d + "`"@)
                } else {
                    match params_spec(p) {
                        Err(e) => Err(e),
                        Ok(ps) => match lookup(ps, "widget"@) {
                            None => Err("нет обязательного параметра widget"@),
                            Some(w) => match height_of(ps) {
                                Err(e) => Err(e),
                                Ok(h) => Ok(FieldV {
                                    key,
                                    value_type: value_type_of(t),
                                    widget: widget_of(w, h, ps),
                                    default: lookup(ps, "default"@),
                                    label: lookup(ps, "label"@),
                                }),
                            },
                        },
                    }
                }
            },
        }
    }
}

proof fn lemma_params_err_sticky(pieces: Seq<Seq<char>>, i: int)
    requires
        0 <= i <= pieces.len(),
        params_of(pieces.take(i)) is Err,
    ensures
        params_of(pieces) == params_of(pieces.take(i)),
    decreases pieces.len() - i,
{
    if i < pieces.len() {
        let j = pieces.len() - 1;
        assert(pieces.drop_last().take(i) =~= pieces.take(i));
        lemma_params_err_sticky(pieces.drop_last(), i);
    } else {
        assert(pieces.take(i) =~= pieces);
    }
}

// ---------------------------------------------------------------- exec

/// The value of the first parameter named `k`.
fn find_param(ps: &Vec<(Vec<char>, Vec<char>)>, k: &str) -> (r: Option<Vec<char>>)
    ensures
        match r {
            Some(v) => lookup(pair_views(ps@), k@) == Some(v@),
            None => lookup(pair_views(ps@), k@) is None,
        },
{
    let ghost pv = pair_views(ps@);
    let mut i: usize = 0;
    assert(pv.skip(0) =~= pv);
    while i < ps.len()
        invariant
            i <= ps.len(),
            pv == pair_views(ps@),
            lookup(pv, k@) == lookup(pv.skip(i as int), k@),
        decreases ps.len() - i,
    {
        let ghost rest = pv.skip(i as int);
        assert(rest[0] == pv[i as int]);
        assert(rest.drop_first() =~= pv.skip(i + 1));
        if is_word(ps[i].0.as_slice(), k) {
            return Some(ps[i].1.clone());
        }
        i = i + 1;
    }
    assert(pv.skip(i as int).len() == 0);
    None
}

/// The value type named by `s`.
pub fn parse_value_type(s: &[char]) -> (t: ValueType)
    ensures
        t@ == value_type_of(s@),
{
    if is_word(s, "string") {
        ValueType::String
    } else if is_word(s, "boolean") {
        ValueType::Boolean
    } else if is_word(s, "number") || is_word(s, "integer") {
        ValueType::Number
    } else {
        ValueType::Other(from_chars(s))
    }
}

/// Builds a message: `a`, then `x`, then `b`.
fn message(a: &str, x: &[char], b: &str) -> (m: String)
    ensures
        m@ == a@ + x@ + b@,
{
    let mut v = to_chars(a);
    push_all(&mut v, x);
    push_str(&mut v, b);
    from_chars(v.as_slice())
}

/// The `key=value` parameters of a comma-separated list.
pub fn parse_params(s: &[char]) -> (r: Result<Vec<(Vec<char>, Vec<char>)>, String>)
    ensures
        match r {
            Ok(ps) => params_spec(s@) == Ok::<_, Seq<char>>(pair_views(ps@)),
            Err(e) => params_spec(s@) == Err::<Seq<(Seq<char>, Seq<char>)>, _>(e@),
        },
{
    let pieces = split_on(s, ',');
    let ghost pv = views(pieces@);
    let mut out: Vec<(Vec<char>, Vec<char>)> = Vec::new();
    let mut i: usize = 0;
    assert(pv.take(0) =~= Seq::<Seq<char>>::empty());
    assert(pair_views(out@) =~= Seq::<(Seq<char>, Seq<char>)>::empty());
    while i < pieces.len()
        invariant
            i <= pieces.len(),
            pv == views(pieces@),
            pv == split_char(s@, ','),
            params_of(pv.take(i as int)) == Ok::<_, Seq<char>>(pair_views(out@)),
        decreases pieces.len() - i,
    {
        assert(pv.take(i + 1).drop_last() =~= pv.take(i as int));
        assert(pv.take(i + 1).last() == pieces@[i as int]@);
        let part = trim_chars(pieces[i].as_slice());
        if part.len() > 0 {
            match split_once(part.as_slice(), '=') {
                None => {
                    let e = message("параметр без `=`: `", part.as_slice(), "`");
                    proof {
                        lemma_params_err_sticky(pv, i + 1);
                    }
                    return Err(e);
                },
                Some((k, v)) => {
                    let k = trim_chars(k.as_slice());
                    let v = trim_chars(v.as_slice());
                    if k.len() == 0 {
                        let e = message("пустое имя параметра в `", part.as_slice(), "`");
                        proof {
                            lemma_params_err_sticky(pv, i + 1);
                        }
                        return Err(e);
                    }
                    let ghost old_out = pair_views(out@);
                    out.push((k, v));
                    assert(pair_views(out@) =~= old_out.push((k@, v@)));
                },
            }
        }
        i = i + 1;
    }
    assert(pv.take(pieces.len() as int) =~= pv);
    Ok(out)
}

/// `s` without trailing `')'`.
fn strip_parens(s: &[char]) -> (r: Vec<char>)
    ensures
        r@ == trim_end_parens(s@),
{
    let mut n = s.len();
    assert(s@.take(n as int) =~= s@);
    while n > 0 && s[n - 1] == ')'
        invariant
            n <= s.len(),
            trim_end_parens(s@) == trim_end_parens(s@.take(n as int)),
        decreases n,
    {
        assert(s@.take(n as int).drop_last() =~= s@.take(n - 1));
        n = n - 1;
    }
    let r = crate::text::slice_chars(s, 0, n);
    assert(r@ =~= s@.take(n as int));
    r
}

/// The options of a select.
pub fn parse_options(raw: &[char]) -> (r: Vec<SelectOption>)
    ensures
        options_view(r@) == options_of(raw@),
{
    let mut out: Vec<SelectOption> = Vec::new();
    if raw.len() == 0 {
        assert(options_view(out@) =~= Seq::<(Seq<char>, Seq<char>)>::empty());
        return out;
    }
    let parts = split_on(raw, '|');
    let ghost pv = views(parts@);
    let mut i: usize = 0;
    while i < parts.len()
        invariant
            i <= parts.len(),
            pv == views(parts@),
            pv == split_char(raw@, '|'),
            options_view(out@) =~= pv.take(i as int).map_values(|o: Seq<char>| option_of(o)),
        decreases parts.len() - i,
    {
        let o = trim_chars(parts[i].as_slice());
        assert(pv[i as int] == parts@[i as int]@);
        let opt = match split_once(o.as_slice(), '(') {
            Some((l, r)) => {
                let v = strip_parens(r.as_slice());
                SelectOption { label: from_chars(l.as_slice()), value: from_chars(v.as_slice()) }
            },
            None => SelectOption { label: from_chars(o.as_slice()), value: from_chars(o.as_slice()) },
        };
        assert((opt.label@, opt.value@) == option_of(pv[i as int]));
        let ghost old_out = options_view(out@);
        out.push(opt);
        assert(options_view(out@) =~= old_out.push(option_of(pv[i as int])));
        assert(pv.take(i + 1) =~= pv.take(i as int).push(pv[i as int]));
        i = i + 1;
    }
    assert(pv.take(parts.len() as int) =~= pv);
    out
}

fn opt_string(o: Option<Vec<char>>) -> (r: Option<String>)
    ensures
        opt_view(r) == (match o {
            Some(v) => Some(v@),
            None => None,
        }),
{
    match o {
        Some(v) => Some(from_chars(v.as_slice())),
        None => None,
    }
}

/// The widget named `name`, with its parameters.
pub fn parse_widget(name: &[char], height: Option<u32>, params: &Vec<(Vec<char>, Vec<char>)>) -> (w: Widget)
    ensures
        w@ == widget_of(name@, height, pair_views(params@)),
{
    if is_word(name, "text") {
        Widget::Text
    } else if is_word(name, "password") {
        Widget::Password {
            empty: opt_string(find_param(params, "empty")),
            filled: opt_string(find_param(params, "filled")),
        }
    } else if is_word(name, "textarea") {
        Widget::Textarea { height }
    } else if is_word(name, "checkbox") {
        Widget::Checkbox
    } else if is_word(name, "enable") {
        Widget::Enable {
            on: opt_string(find_param(params, "on")),
            off: opt_string(find_param(params, "off")),
        }
    } else if is_word(name, "select") {
        let raw = match find_param(params, "options") {
            Some(v) => v,
            None => Vec::new(),
        };
        let options = parse_options(raw.as_slice());
        Widget::Select { options }
    } else {
        Widget::Other(from_chars(name))
    }
}

/// Parses the compact description of one leaf.
pub fn parse_leaf(key: &str, dsl: &str) -> (r: Result<Field, String>)
    ensures
        match r {
            Ok(f) => leaf_spec(key@, dsl@) matches Ok(v) && f@ == v,
            Err(e) => leaf_spec(key@, dsl@) == Err::<FieldV, _>(e@),
        },
{
    let raw = to_chars(dsl);
    let d = trim_chars(raw.as_slice());
    if d.len() == 0 {
        return Err(from_chars(to_chars("пустое описание поля").as_slice()));
    }
    if is_word(d.as_slice(), "boolean") {
        return Ok(Field {
            key: from_chars(to_chars(key).as_slice()),
            value_type: ValueType::Boolean,
            widget: Widget::Checkbox,
            default: None,
            label: None,
        });
    }
    let (t0, p0) = match split_once(d.as_slice(), ':') {
        Some(x) => x,
        None => {
            return Err(
                message("ожидалось `value_type:params` или `boolean`, получено `", d.as_slice(), "`"),
            );
        },
    };
    let t = trim_chars(t0.as_slice());
    let p = trim_chars(p0.as_slice());
    if t.len() == 0 || p.len() == 0 {
        return Err(message("неполное описание поля `", d.as_slice(), "`"));
    }
    let value_type = parse_value_type(t.as_slice());
    let params = match parse_params(p.as_slice()) {
        Ok(ps) => ps,
        Err(e) => {
            return Err(e);
        },
    };
    let widget_name = match find_param(&params, "widget") {
        Some(w) => w,
        None => {
            return Err(from_chars(to_chars("нет обязательного параметра widget").as_slice()));
        },
    };
    let height = match find_param(&params, "height") {
        None => None,
        Some(v) => match parse_uint(v.as_slice(), 4294967295u64) {
            Some(h) => Some(h as u32),
            None => {
                return Err(from_chars(to_chars("height должен быть числом").as_slice()));
            },
        },
    };
    let widget = parse_widget(widget_name.as_slice(), height, &params);
    let default = opt_string(find_param(&params, "default"));
    let label = opt_string(find_param(&params, "label"));
    Ok(Field { key: from_chars(to_chars(key).as_slice()), value_type, widget, default, label })
}


// ---------------------------------------------------------------- documents

/// The schema after one more top-level entry.
pub open spec fn schema_step(acc: SchemaV, e: EntryV) -> SchemaV {
    match e.key {
        NodeV::Str(k) => match e.value {
            NodeV::Str(dsl) => match leaf_spec(k, dsl) {
                Ok(f) => SchemaV { fields: acc.fields.push(f), ..acc },
                Err(m) => SchemaV { skipped: acc.skipped.push((k, m)), ..acc },
            },
            NodeV::Mapping => SchemaV {
                skipped: acc.skipped.push((k, "вложенные объекты пока не поддерживаются"@)),
                ..acc
            },
            _ => SchemaV {
                skipped: acc.skipped.push(
                    (k, "ожидалась строка компактного DSL, получено "@ + e.value_debug),
                ),
                ..acc
            },
        },
        _ => SchemaV { skipped: acc.skipped.push((e.key_debug, "ключ не строка"@)), ..acc },
    }
}

/// The schema of a document whose top-level mapping has the entries `es`:
/// string keys with DSL strings become fields, everything else is skipped
/// with its reason.
pub open spec fn schema_of(es: Seq<EntryV>) -> SchemaV
    decreases es.len(),
{
    if es.len() == 0 {
        SchemaV { fields: Seq::empty(), skipped: Seq::empty() }
    } else {
        schema_step(schema_of(es.drop_last()), es.last())
    }
}

fn skip(key: &String, reason: String) -> (s: Skipped)
    ensures
        s.key@ == key@,
        s.reason@ == reason@,
{
    Skipped { key: from_chars(to_chars(key.as_str()).as_slice()), reason }
}

/// The schema of a document whose top-level mapping has the entries `entries`.
pub fn schema_from_entries(entries: &Vec<Entry>) -> (s: Schema)
    ensures
        s@ == schema_of(entries_view(entries@)),
{
    let ghost ev = entries_view(entries@);
    let mut fields: Vec<Field> = Vec::new();
    let mut skipped: Vec<Skipped> = Vec::new();
    let mut i: usize = 0;
    assert(ev.take(0) =~= Seq::<EntryV>::empty());
    assert(fields_view(fields@) =~= Seq::<FieldV>::empty());
    assert(skipped_view(skipped@) =~= Seq::<(Seq<char>, Seq<char>)>::empty());
    while i < entries.len()
        invariant
            i <= entries.len(),
            ev == entries_view(entries@),
            schema_of(ev.take(i as int)) == (SchemaV {
                fields: fields_view(fields@),
                skipped: skipped_view(skipped@),
            }),
        decreases entries.len() - i,
    {
        assert(ev.take(i + 1).drop_last() =~= ev.take(i as int));
        assert(ev.take(i + 1).last() == entries@[i as int]@);
        let e = &entries[i];
        let ghost fv = fields_view(fields@);
        let ghost sv = skipped_view(skipped@);
        match &e.key {
            Node::Str(k) => match &e.value {
                Node::Str(dsl) => match parse_leaf(k.as_str(), dsl.as_str()) {
                    Ok(f) => {
                        fields.push(f);
                        assert(fields_view(fields@) =~= fv.push(fields@.last()@));
                    },
                    Err(m) => {
                        let sk = skip(k, m);
                        skipped.push(sk);
                        assert(skipped_view(skipped@) =~= sv.push((sk.key@, sk.reason@)));
                    },
                },
                Node::Mapping => {
                    let sk = skip(k, from_chars(to_chars("вложенные объекты пока не поддерживаются").as_slice()));
                    skipped.push(sk);
                    assert(skipped_view(skipped@) =~= sv.push((sk.key@, sk.reason@)));
                },
                _ => {
                    let mut m = to_chars("ожидалась строка компактного DSL, получено ");
                    push_str(&mut m, e.value_debug.as_str());
                    let sk = skip(k, from_chars(m.as_slice()));
                    skipped.push(sk);
                    assert(skipped_view(skipped@) =~= sv.push((sk.key@, sk.reason@)));
                },
            },
            _ => {
                let sk = skip(&e.key_debug, from_chars(to_chars("ключ не строка").as_slice()));
                skipped.push(sk);
                assert(skipped_view(skipped@) =~= sv.push((sk.key@, sk.reason@)));
            },
        }
        i = i + 1;
    }
    assert(ev.take(entries.len() as int) =~= ev);
    Schema { fields, skipped }
}


/// A schema document's text read: the schema of its mapping root; a text
/// that is not YAML, or whose root is not a mapping, is refused.
pub fn parse_str(text: &str) -> (r: Result<Schema, String>)
    ensures
        match yaml_root(text@) {
            Err(m) => r matches Err(e) && e@ == "невалидный YAML: "@ + m,
            Ok(RootV::Mapping(es)) => r matches Ok(s) && s@ == schema_of(es),
            Ok(_) => r matches Err(e) && e@ == schema_root_msg(),
        },
{
    match crate::yaml::parse_yaml(text) {
        Err(m) => Err(crate::text::str_concat("невалидный YAML: ", m.as_str())),
        Ok(root) => match schema_entries(root) {
            Ok(es) => Ok(schema_from_entries(&es)),
            Err(e) => Err(e),
        },
    }
}

} // verus!
