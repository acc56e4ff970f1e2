//! Text dump of a parsed schema.

use vstd::prelude::*;
use crate::schema::{Field, FieldV, Schema, SchemaV, Skipped, ValueType, ValueTypeV, Widget, WidgetV, options_view};
use crate::text::{
    all_digits, dec, debug_string, debug_text, digits_value, fmt_u64, from_chars, has_infix, lemma_dec_reads_back, join, join_chars, push_all, push_str,
    strings, to_chars, views,
};

verus! {

/// How a value type reads in the dump.
pub open spec fn value_type_text(t: ValueTypeV) -> Seq<char> {
    match t {
        ValueTypeV::String => "string"@,
        ValueTypeV::Boolean => "boolean"@,
        ValueTypeV::Number => "number"@,
        ValueTypeV::Other(s) => "other("@ + s + ")"@,
    }
}

/// How one select option reads: its label, and its value in brackets when
/// they differ.
pub open spec fn option_text(o: (Seq<char>, Seq<char>)) -> Seq<char> {
    if o.0 == o.1 {
        o.0
    } else {
        o.0 + "("@ + o.1 + ")"@
    }
}

/// How a widget reads in the dump.
pub open spec fn widget_text(w: WidgetV) -> Seq<char> {
    match w {
        WidgetV::Text => "text"@,
        WidgetV::Password { .. } => "password"@,
        WidgetV::Textarea { height } => match height {
            Some(h) => "textarea(height="@ + dec(h as nat) + ")"@,
            None => "textarea"@,
        },
        WidgetV::Select { options } => "select["@ + join(
            options.map_values(|o: (Seq<char>, Seq<char>)| option_text(o)),
            " | "@,
        ) + "]"@,
        WidgetV::Checkbox => "checkbox"@,
        WidgetV::Enable { on, off } => "enable(on="@ + (match on {
            Some(s) => s,
            None => "enabled"@,
        }) + ", off="@ + (match off {
            Some(s) => s,
            None => "disabled"@,
        }) + ")"@,
        WidgetV::Other(s) => "other("@ + s + ")"@,
    }
}

/// The dump of one field: a blank line, its key in brackets, then its
/// value type, widget, default and label.
pub open spec fn field_lines(f: FieldV) -> Seq<Seq<char>> {
    seq![
        Seq::empty(),
        "  ["@ + f.key + "]"@,
        "    value_type: "@ + value_type_text(f.value_type),
        "    widget:     "@ + widget_text(f.widget),
        match f.default {
            Some(v) => "    default:    "@ + debug_text(v),
            None => "    default:    <undefined>"@,
        },
        match f.label {
            Some(v) => "    label:      "@ + v,
            None => "    label:      <none>"@,
        },
    ]
}

pub open spec fn all_field_lines(fs: Seq<FieldV>) -> Seq<Seq<char>>
    decreases fs.len(),
{
    if fs.len() == 0 {
        Seq::empty()
    } else {
        all_field_lines(fs.drop_last()) + field_lines(fs.last())
    }
}

/// The dump of a schema: a count of fields, each field, then, when some
/// keys were skipped, a blank line, their count and each with its reason.
pub open spec fn dump_text(s: SchemaV) -> Seq<Seq<char>> {
    seq!["schema: "@ + dec(s.fields.len()) + " field(s)"@] + all_field_lines(s.fields) + if s.skipped.len() == 0 {
        Seq::empty()
    } else {
        seq![Seq::empty(), "skipped: "@ + dec(s.skipped.len()) + " key(s)"@] + s.skipped.map_values(
            |k: (Seq<char>, Seq<char>)| "  ["@ + k.0 + "] — "@ + k.1,
        )
    }
}

fn chars3(a: &str, x: &[char], b: &str) -> (r: Vec<char>)
    ensures
        r@ == a@ + x@ + b@,
{
    let mut v = to_chars(a);
    push_all(&mut v, x);
    push_str(&mut v, b);
    v
}

/// The dump text of a value type.
pub fn fmt_value_type(t: &ValueType) -> (r: String)
    ensures
        r@ == value_type_text(t@),
{
    match t {
        ValueType::String => from_chars(to_chars("string").as_slice()),
        ValueType::Boolean => from_chars(to_chars("boolean").as_slice()),
        ValueType::Number => from_chars(to_chars("number").as_slice()),
        ValueType::Other(s) => from_chars(chars3("other(", to_chars(s.as_str()).as_slice(), ")").as_slice()),
    }
}

/// The dump text of a widget.
pub fn fmt_widget(w: &Widget) -> (r: String)
    ensures
        r@ == widget_text(w@),
{
    match w {
        Widget::Text => from_chars(to_chars("text").as_slice()),
        Widget::Password { .. } => from_chars(to_chars("password").as_slice()),
        Widget::Textarea { height } => match height {
            Some(h) => from_chars(chars3("textarea(height=", fmt_u64(*h as u64).as_slice(), ")").as_slice()),
            None => from_chars(to_chars("textarea").as_slice()),
        },
        Widget::Select { options } => {
            let ghost ov = options_view(options@);
            let mut texts: Vec<Vec<char>> = Vec::new();
            let mut i: usize = 0;
            while i < options.len()
                invariant
                    i <= options.len(),
                    ov == options_view(options@),
                    views(texts@) =~= ov.take(i as int).map_values(
                        |o: (Seq<char>, Seq<char>)| option_text(o),
                    ),
                decreases options.len() - i,
            {
                let l = to_chars(options[i].label.as_str());
                let v = to_chars(options[i].value.as_str());
                let t = if crate::text::chars_eq(l.as_slice(), v.as_slice()) {
                    l
                } else {
                    let mut t = l;
                    push_str(&mut t, "(");
                    push_all(&mut t, v.as_slice());
                    push_str(&mut t, ")");
                    t
                };
                assert(ov[i as int] == (options@[i as int].label@, options@[i as int].value@));
                assert(t@ =~= option_text(ov[i as int]));
                let ghost before = views(texts@);
                texts.push(t);
                assert(views(texts@) =~= before.push(option_text(ov[i as int])));
                assert(ov.take(i + 1) =~= ov.take(i as int).push(ov[i as int]));
                i = i + 1;
            }
            assert(ov.take(options.len() as int) =~= ov);
            let joined = join_chars(&texts, to_chars(" | ").as_slice());
            from_chars(chars3("select[", joined.as_slice(), "]").as_slice())
        },
        Widget::Checkbox => from_chars(to_chars("checkbox").as_slice()),
        Widget::Enable { on, off } => {
            let on_t = match on {
                Some(s) => to_chars(s.as_str()),
                None => to_chars("enabled"),
            };
            let off_t = match off {
                Some(s) => to_chars(s.as_str()),
                None => to_chars("disabled"),
            };
            let mut v = chars3("enable(on=", on_t.as_slice(), ", off=");
            push_all(&mut v, off_t.as_slice());
            push_str(&mut v, ")");
            from_chars(v.as_slice())
        },
        Widget::Other(s) => from_chars(chars3("other(", to_chars(s.as_str()).as_slice(), ")").as_slice()),
    }
}

fn line(a: &str, x: &[char], b: &str) -> (r: String)
    ensures
        r@ == a@ + x@ + b@,
{
    from_chars(chars3(a, x, b).as_slice())
}

/// The dump of one field.
fn dump_field(f: &Field, out: &mut Vec<String>)
    ensures
        strings(final(out)@) == strings(old(out)@) + field_lines(f@),
{
    let ghost o = strings(out@);
    let l0 = from_chars(&[]);
    assert(l0@ =~= Seq::<char>::empty());
    let l1 = line("  [", to_chars(f.key.as_str()).as_slice(), "]");
    let mut vt = to_chars("    value_type: ");
    push_str(&mut vt, fmt_value_type(&f.value_type).as_str());
    let l2 = from_chars(vt.as_slice());
    let mut wt = to_chars("    widget:     ");
    push_str(&mut wt, fmt_widget(&f.widget).as_str());
    let l3 = from_chars(wt.as_slice());
    let l4 = match &f.default {
        Some(v) => {
            let mut d = to_chars("    default:    ");
            push_str(&mut d, debug_string(v.as_str()).as_str());
            from_chars(d.as_slice())
        },
        None => from_chars(to_chars("    default:    <undefined>").as_slice()),
    };
    let l5 = match &f.label {
        Some(v) => {
            let mut d = to_chars("    label:      ");
            push_str(&mut d, v.as_str());
            from_chars(d.as_slice())
        },
        None => from_chars(to_chars("    label:      <none>").as_slice()),
    };
    let ghost fl = field_lines(f@);
    assert(l0@ == fl[0]);
    assert(l1@ == fl[1]);
    assert(l2@ == fl[2]);
    assert(l3@ == fl[3]);
    assert(l4@ == fl[4]);
    assert(l5@ == fl[5]);
    out.push(l0);
    out.push(l1);
    out.push(l2);
    out.push(l3);
    out.push(l4);
    out.push(l5);
    assert(strings(out@) =~= o + fl);
}

/// The dump of a schema, line by line.
pub fn dump(schema: &Schema) -> (lines: Vec<String>)
    ensures
        strings(lines@) == dump_text(schema@),
{
    let mut out: Vec<String> = Vec::new();
    let mut head = to_chars("schema: ");
    push_all(&mut head, fmt_u64(schema.fields.len() as u64).as_slice());
    push_str(&mut head, " field(s)");
    out.push(from_chars(head.as_slice()));
    let ghost fv = schema@.fields;
    let mut i: usize = 0;
    assert(fv.take(0) =~= Seq::<FieldV>::empty());
    while i < schema.fields.len()
        invariant
            i <= schema.fields.len(),
            fv == schema@.fields,
            strings(out@) =~= seq!["schema: "@ + dec(fv.len()) + " field(s)"@] + all_field_lines(fv.take(i as int)),
        decreases schema.fields.len() - i,
    {
        assert(fv.take(i + 1).drop_last() =~= fv.take(i as int));
        assert(fv.take(i + 1).last() == schema.fields@[i as int]@);
        dump_field(&schema.fields[i], &mut out);
        i = i + 1;
    }
    assert(fv.take(schema.fields.len() as int) =~= fv);
    let ghost before = strings(out@);
    if schema.skipped.len() > 0 {
        let e = from_chars(&[]);
        assert(e@ =~= Seq::<char>::empty());
        out.push(e);
        let mut h = to_chars("skipped: ");
        push_all(&mut h, fmt_u64(schema.skipped.len() as u64).as_slice());
        push_str(&mut h, " key(s)");
        out.push(from_chars(h.as_slice()));
        let ghost sv = schema@.skipped;
        let ghost mid = strings(out@);
        let mut j: usize = 0;
        while j < schema.skipped.len()
            invariant
                j <= schema.skipped.len(),
                sv == schema@.skipped,
                strings(out@) =~= mid + sv.take(j as int).map_values(
                    |k: (Seq<char>, Seq<char>)| "  ["@ + k.0 + "] — "@ + k.1,
                ),
            decreases schema.skipped.len() - j,
        {
            let s: &Skipped = &schema.skipped[j];
            let mut l = chars3("  [", to_chars(s.key.as_str()).as_slice(), "] — ");
            push_str(&mut l, s.reason.as_str());
            let ghost b2 = strings(out@);
            out.push(from_chars(l.as_slice()));
            assert(sv[j as int] == (s.key@, s.reason@));
            assert(strings(out@) =~= b2.push("  ["@ + sv[j as int].0 + "] — "@ + sv[j as int].1));
            assert(sv.take(j + 1) =~= sv.take(j as int).push(sv[j as int]));
            j = j + 1;
        }
        assert(sv.take(schema.skipped.len() as int) =~= sv);
        assert(strings(out@) =~= before + (seq![Seq::empty(), "skipped: "@ + dec(sv.len()) + " key(s)"@] + sv.map_values(
            |k: (Seq<char>, Seq<char>)| "  ["@ + k.0 + "] — "@ + k.1,
        )));
    } else {
        assert(strings(out@) =~= before + Seq::<Seq<char>>::empty());
    }
    out
}

/// Each piece of a list is a contiguous part of the list joined.
proof fn lemma_join_holds(list: Seq<Seq<char>>, sep: Seq<char>, i: int) -> (r: (Seq<char>, Seq<char>))
    requires
        0 <= i < list.len(),
    ensures
        join(list, sep) == r.0 + list[i] + r.1,
    decreases list.len(),
{
    if list.len() == 1 {
        assert(join(list, sep) =~= Seq::<char>::empty() + list[i] + Seq::<char>::empty());
        (Seq::empty(), Seq::empty())
    } else if i == list.len() - 1 {
        let pre = join(list.drop_last(), sep) + sep;
        assert(join(list, sep) =~= pre + list[i] + Seq::<char>::empty());
        (pre, Seq::empty())
    } else {
        let (pre, post) = lemma_join_holds(list.drop_last(), sep, i);
        assert(list.drop_last()[i] == list[i]);
        let post2 = post + sep + list.last();
        assert(join(list, sep) =~= pre + list[i] + post2);
        (pre, post2)
    }
}

/// A select widget's dump shows every option whose value differs from its
/// label as the label with the value in brackets after it, and every other
/// option by its label.
pub proof fn law_select_dump_shows_values(options: Seq<(Seq<char>, Seq<char>)>, i: int)
    requires
        0 <= i < options.len(),
    ensures
        options[i].0 != options[i].1 ==> has_infix(
            widget_text(WidgetV::Select { options }),
            options[i].0 + "("@ + options[i].1 + ")"@,
        ),
        has_infix(widget_text(WidgetV::Select { options }), options[i].0),
{
    let texts = options.map_values(|o: (Seq<char>, Seq<char>)| option_text(o));
    let (pre, post) = lemma_join_holds(texts, " | "@, i);
    let whole = widget_text(WidgetV::Select { options });
    let head = "select["@ + pre;
    let piece = texts[i];
    assert(whole =~= head + piece + (post + "]"@));
    let at = head.len() as int;
    assert(whole.subrange(at, at + piece.len()) =~= piece);
    assert(piece.subrange(0, options[i].0.len() as int) =~= options[i].0);
    assert(whole.subrange(at, at + options[i].0.len()) =~= options[i].0);
}

proof fn lemma_all_field_lines_len(fs: Seq<FieldV>)
    ensures
        all_field_lines(fs).len() == 6 * fs.len(),
    decreases fs.len(),
{
    if fs.len() > 0 {
        lemma_all_field_lines_len(fs.drop_last());
    }
}

/// The dump has a head line counting the fields, six lines per field, and,
/// when keys were skipped, two more lines and one per skipped key; the
/// number in the head line reads back as the number of fields.
pub proof fn law_dump_shape(s: SchemaV)
    ensures
        dump_text(s).len() == 1 + 6 * s.fields.len() + if s.skipped.len() == 0 { 0 } else { 2 + s.skipped.len() },
        exists|n: Seq<char>|
            #[trigger] dump_text(s)[0] == "schema: "@ + n + " field(s)"@ && n.len() > 0 && all_digits(n)
                && digits_value(n) == s.fields.len(),
{
    lemma_all_field_lines_len(s.fields);
    lemma_dec_reads_back(s.fields.len());
    assert(dump_text(s)[0] == "schema: "@ + dec(s.fields.len()) + " field(s)"@);
}

} // verus!
