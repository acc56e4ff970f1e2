//! Normalising process output for display, and turning a line with SGR
//! escape sequences into styled spans.
//!
//! - `'\r'` drops the current line (everything after the last `'\n'`);
//! - a CSI "erase in line" (`ESC [ … K`) drops the current line too;
//! - CSI SGR sequences (`ESC [ … m`) are kept (colours and styles);
//! - other CSI, OSC and other escapes are dropped;
//! - other control characters, except `'\t'` and `'\n'`, are dropped.

use vstd::prelude::*;
use crate::style::{Color, Modifiers, Style, added, plain, removed};
use crate::text::{all_digits, digits_value, from_chars, parse_uint, parse_unsigned, slice_chars, split_char, split_on, to_chars, unsigned_body, views};

verus! {

pub open spec fn esc() -> char {
    '\u{1b}'
}

/// `char::is_control`: the C0 and C1 control characters and DEL.
pub open spec fn is_control(c: char) -> bool {
    (c as u32) <= 0x1f || (0x7f <= (c as u32) && (c as u32) <= 0x9f)
}

/// Final byte of a CSI sequence (`'@'` to `'~'`).
pub open spec fn is_final_byte(c: char) -> bool {
    0x40 <= (c as u32) && (c as u32) <= 0x7e
}

/// What ends an OSC string: BEL or ESC.
pub open spec fn ends_osc(c: char) -> bool {
    c == '\u{7}' || c == '\u{1b}'
}

/// Index of the first character of `t` that satisfies `p` (`t.len()` if none).
pub open spec fn index_where(t: Seq<char>, p: spec_fn(char) -> bool) -> int
    decreases t.len(),
{
    if t.len() == 0 {
        0
    } else if p(t[0]) {
        0
    } else {
        1 + index_where(t.drop_first(), p)
    }
}

pub proof fn lemma_index_where(t: Seq<char>, p: spec_fn(char) -> bool)
    ensures
        0 <= index_where(t, p) <= t.len(),
        forall|j: int| 0 <= j < index_where(t, p) ==> !p(#[trigger] t[j]),
        index_where(t, p) < t.len() ==> p(t[index_where(t, p)]),
    decreases t.len(),
{
    if t.len() > 0 && !p(t[0]) {
        lemma_index_where(t.drop_first(), p);
        assert forall|j: int| 0 <= j < index_where(t, p) implies !p(#[trigger] t[j]) by {
            if j > 0 {
                assert(t[j] == t.drop_first()[j - 1]);
            }
        }
        if index_where(t, p) < t.len() {
            assert(t[index_where(t, p)] == t.drop_first()[index_where(t, p) - 1]);
        }
    }
}

/// Length of the CSI body after `ESC [` up to and including the final byte
/// (the whole rest when no final byte comes).
pub open spec fn csi_body_len(t: Seq<char>) -> nat {
    let k = index_where(t, |c: char| is_final_byte(c));
    if k < t.len() {
        (k + 1) as nat
    } else {
        t.len()
    }
}

/// How many characters after the ESC an escape other than CSI takes:
/// an OSC string up to BEL, or up to ESC and one more character; two for
/// a charset selection (`(`, `)`, `%`, `#` and the next character); one
/// for anything else.
pub open spec fn other_escape_len(r: Seq<char>) -> nat {
    if r.len() == 0 {
        0
    } else if r[0] == ']' {
        let t = r.drop_first();
        let j = index_where(t, |c: char| ends_osc(c));
        if j < t.len() {
            if t[j] == '\u{7}' {
                (j + 2) as nat
            } else if j + 3 <= r.len() {
                (j + 3) as nat
            } else {
                r.len()
            }
        } else {
            r.len()
        }
    } else if r[0] == '(' || r[0] == ')' || r[0] == '%' || r[0] == '#' {
        if r.len() >= 2 {
            2
        } else {
            r.len()
        }
    } else {
        1
    }
}

/// Effect of the escape whose text after ESC is `r`: how many characters
/// of `r` it takes, and the output after it.
pub open spec fn escape_step(r: Seq<char>, out: Seq<char>, ls: nat) -> (nat, Seq<char>) {
    if r.len() > 0 && r[0] == '[' {
        let t = r.drop_first();
        let k = index_where(t, |c: char| is_final_byte(c));
        if k < t.len() {
            if t[k] == 'm' {
                ((k + 2) as nat, out + seq![esc(), '['] + t.take(k + 1))
            } else if t[k] == 'K' {
                ((k + 2) as nat, out.take(ls as int))
            } else {
                ((k + 2) as nat, out)
            }
        } else {
            ((t.len() + 1) as nat, out)
        }
    } else {
        (other_escape_len(r), out)
    }
}

pub proof fn lemma_escape_step_len(r: Seq<char>, out: Seq<char>, ls: nat)
    ensures
        escape_step(r, out, ls).0 <= r.len(),
        r.len() > 0 ==> escape_step(r, out, ls).0 >= 1,
{
    lemma_index_where(r.drop_first(), |c: char| is_final_byte(c));
    lemma_index_where(r.drop_first(), |c: char| ends_osc(c));
}

/// The sanitizer as a machine over the input: output so far and start of
/// the current output line.
pub open spec fn san(s: Seq<char>, out: Seq<char>, ls: nat) -> (Seq<char>, nat)
    decreases s.len(),
{
    if s.len() == 0 {
        (out, ls)
    } else {
        let c = s[0];
        let r = s.drop_first();
        if c == '\r' {
            san(r, out.take(ls as int), ls)
        } else if c == '\n' {
            san(r, out.push('\n'), (out.len() + 1) as nat)
        } else if c == '\t' {
            san(r, out.push('\t'), ls)
        } else if c == esc() {
            let n = escape_step(r, out, ls).0;
            if n <= r.len() {
                san(r.skip(n as int), escape_step(r, out, ls).1, ls)
            } else {
                (out, ls)
            }
        } else if is_control(c) {
            san(r, out, ls)
        } else {
            san(r, out.push(c), ls)
        }
    }
}

/// What [`sanitize_output`] returns for the characters `s`.
pub open spec fn sanitized(s: Seq<char>) -> Seq<char> {
    san(s, Seq::empty(), 0).0
}

fn is_control_char(c: char) -> (r: bool)
    ensures
        r == is_control(c),
{
    let u = c as u32;
    u <= 0x1f || (0x7f <= u && u <= 0x9f)
}

fn is_final_char(c: char) -> (r: bool)
    ensures
        r == is_final_byte(c),
{
    let u = c as u32;
    0x40 <= u && u <= 0x7e
}

/// Index of the first final byte in `s[from..]`, or `s.len()`.
fn find_final(s: &Vec<char>, from: usize) -> (k: usize)
    requires
        from <= s.len(),
    ensures
        k == from + index_where(s@.skip(from as int), |c: char| is_final_byte(c)),
        from <= k <= s.len(),
{
    let ghost t = s@.skip(from as int);
    proof {
        lemma_index_where(t, |c: char| is_final_byte(c));
    }
    let mut k = from;
    while k < s.len() && !is_final_char(s[k])
        invariant
            from <= k <= s.len(),
            t == s@.skip(from as int),
            forall|j: int| 0 <= j < k - from ==> !is_final_byte(#[trigger] t[j]),
            0 <= index_where(t, |c: char| is_final_byte(c)) <= t.len(),
            forall|j: int|
                0 <= j < index_where(t, |c: char| is_final_byte(c)) ==> !is_final_byte(
                    #[trigger] t[j],
                ),
            index_where(t, |c: char| is_final_byte(c)) < t.len() ==> is_final_byte(
                t[index_where(t, |c: char| is_final_byte(c))],
            ),
        decreases s.len() - k,
    {
        assert(t[k - from] == s@[k as int]);
        k = k + 1;
    }
    if k < s.len() {
        assert(t[k - from] == s@[k as int]);
    }
    k
}

/// Index of the first BEL or ESC in `s[from..]`, or `s.len()`.
fn find_osc_end(s: &Vec<char>, from: usize) -> (k: usize)
    requires
        from <= s.len(),
    ensures
        k == from + index_where(s@.skip(from as int), |c: char| ends_osc(c)),
        from <= k <= s.len(),
{
    let ghost t = s@.skip(from as int);
    proof {
        lemma_index_where(t, |c: char| ends_osc(c));
    }
    let mut k = from;
    while k < s.len() && !(s[k] == '\u{7}' || s[k] == '\u{1b}')
        invariant
            from <= k <= s.len(),
            t == s@.skip(from as int),
            forall|j: int| 0 <= j < k - from ==> !ends_osc(#[trigger] t[j]),
            0 <= index_where(t, |c: char| ends_osc(c)) <= t.len(),
            forall|j: int|
                0 <= j < index_where(t, |c: char| ends_osc(c)) ==> !ends_osc(#[trigger] t[j]),
            index_where(t, |c: char| ends_osc(c)) < t.len() ==> ends_osc(
                t[index_where(t, |c: char| ends_osc(c))],
            ),
        decreases s.len() - k,
    {
        assert(t[k - from] == s@[k as int]);
        k = k + 1;
    }
    if k < s.len() {
        assert(t[k - from] == s@[k as int]);
    }
    k
}

/// Skips an escape other than CSI whose text after ESC starts at `i`;
/// returns the index after it.
fn skip_non_csi_escape(s: &Vec<char>, i: usize) -> (j: usize)
    requires
        i <= s.len(),
        !(i < s.len() && s@[i as int] == '['),
    ensures
        j == i + other_escape_len(s@.skip(i as int)),
        j <= s.len(),
{
    let ghost r = s@.skip(i as int);
    if i == s.len() {
        return i;
    }
    assert(r[0] == s@[i as int]);
    let c = s[i];
    if c == ']' {
        assert(r.drop_first() =~= s@.skip(i + 1));
        let k = find_osc_end(s, i + 1);
        if k < s.len() {
            assert(r.drop_first()[k - i - 1] == s@[k as int]);
            if s[k] == '\u{7}' {
                k + 1
            } else if k + 1 < s.len() {
                k + 2
            } else {
                s.len()
            }
        } else {
            s.len()
        }
    } else if c == '(' || c == ')' || c == '%' || c == '#' {
        if i + 1 < s.len() {
            i + 2
        } else {
            s.len()
        }
    } else {
        i + 1
    }
}

/// Handles the escape whose text after ESC starts at `i`: keeps SGR,
/// drops the current line on erase-in-line, drops anything else.
/// Returns the index after the escape.
fn handle_escape(s: &Vec<char>, i: usize, out: &mut Vec<char>, ls: usize) -> (j: usize)
    requires
        i <= s.len(),
        ls <= old(out).len(),
    ensures
        j == i + escape_step(s@.skip(i as int), old(out)@, ls as nat).0,
        final(out)@ == escape_step(s@.skip(i as int), old(out)@, ls as nat).1,
        j <= s.len(),
        ls <= final(out).len(),
{
    let ghost r = s@.skip(i as int);
    proof {
        lemma_escape_step_len(r, out@, ls as nat);
    }
    if i < s.len() && s[i] == '[' {
        assert(r[0] == s@[i as int]);
        let ghost t = r.drop_first();
        assert(t =~= s@.skip(i + 1));
        let k = find_final(s, i + 1);
        if k < s.len() {
            let f = s[k];
            assert(t[k - i - 1] == f);
            if f == 'm' {
                let ghost old_out = out@;
                out.push('\u{1b}');
                out.push('[');
                let mut m = i + 1;
                while m <= k
                    invariant
                        i + 1 <= m <= k + 1,
                        k < s.len(),
                        out@ =~= old_out + seq!['\u{1b}', '['] + s@.subrange(i + 1, m as int),
                    decreases k + 1 - m,
                {
                    out.push(s[m]);
                    m = m + 1;
                }
                assert(t.take(k - i) =~= s@.subrange(i + 1, k + 1));
                k + 1
            } else if f == 'K' {
                out.truncate(ls);
                k + 1
            } else {
                k + 1
            }
        } else {
            s.len()
        }
    } else {
        skip_non_csi_escape(s, i)
    }
}

/// Normalises process output for safe display (see the module docs).
pub fn sanitize_output(input: &str) -> (res: String)
    ensures
        res@ == sanitized(input@),
{
    let s = to_chars(input);
    let mut out: Vec<char> = Vec::new();
    let mut ls: usize = 0;
    let mut i: usize = 0;
    assert(s@.skip(0) =~= s@);
    while i < s.len()
        invariant
            i <= s.len(),
            ls <= out.len(),
            san(s@.skip(i as int), out@, ls as nat) == san(s@, Seq::empty(), 0),
        decreases s.len() - i,
    {
        let c = s[i];
        let ghost rest = s@.skip(i as int);
        assert(rest[0] == c);
        assert(rest.drop_first() =~= s@.skip(i + 1));
        if c == '\r' {
            out.truncate(ls);
            i = i + 1;
        } else if c == '\n' {
            out.push('\n');
            ls = out.len();
            i = i + 1;
        } else if c == '\t' {
            out.push('\t');
            i = i + 1;
        } else if c == '\u{1b}' {
            proof {
                lemma_escape_step_len(rest.drop_first(), out@, ls as nat);
            }
            let j = handle_escape(&s, i + 1, &mut out, ls);
            proof {
                assert(rest.drop_first().skip(j - i - 1) =~= s@.skip(j as int));
            }
            i = j;
        } else if is_control_char(c) {
            i = i + 1;
        } else {
            out.push(c);
            i = i + 1;
        }
    }
    from_chars(out.as_slice())
}


// ---------------------------------------------------------------- SGR spans

/// Text with one style.
#[derive(Clone, Debug)]
pub struct Span {
    pub content: String,
    pub style: Style,
}

pub open spec fn span_views(v: Seq<Span>) -> Seq<(Seq<char>, Style)> {
    v.map_values(|x: Span| (x.content@, x.style))
}

/// One SGR parameter: its decimal value if it is a `u8`, else 0.
pub open spec fn sgr_param(p: Seq<char>) -> u8 {
    match parse_unsigned(p, 255) {
        Some(v) => v as u8,
        None => 0,
    }
}

/// The parameters of an SGR sequence: `;`-separated, an empty list meaning `0`.
pub open spec fn sgr_params(raw: Seq<char>) -> Seq<u8> {
    if raw.len() == 0 {
        seq![0u8]
    } else {
        split_char(raw, ';').map_values(|p: Seq<char>| sgr_param(p))
    }
}

/// Colours 0–7 of the 16-colour palette.
pub open spec fn ansi_16(n: u8) -> Color {
    if n == 0 { Color::Black }
    else if n == 1 { Color::Red }
    else if n == 2 { Color::Green }
    else if n == 3 { Color::Yellow }
    else if n == 4 { Color::Blue }
    else if n == 5 { Color::Magenta }
    else if n == 6 { Color::Cyan }
    else { Color::White }
}

/// Bright colours 8–15 of the 16-colour palette.
pub open spec fn ansi_bright(n: u8) -> Color {
    if n == 0 { Color::DarkGray }
    else if n == 1 { Color::LightRed }
    else if n == 2 { Color::LightGreen }
    else if n == 3 { Color::LightYellow }
    else if n == 4 { Color::LightBlue }
    else if n == 5 { Color::LightMagenta }
    else if n == 6 { Color::LightCyan }
    else { Color::White }
}

/// The colour given after 38/48 at `start`: `5;n` (palette) or `2;r;g;b`,
/// with the number of parameters it takes.
pub open spec fn extended_color(p: Seq<u8>, start: int) -> Option<(Color, nat)> {
    if 0 <= start < p.len() {
        if p[start] == 5 {
            if start + 1 < p.len() {
                Some((Color::Indexed(p[start + 1]), 2))
            } else {
                None
            }
        } else if p[start] == 2 {
            if start + 3 < p.len() {
                Some((Color::Rgb(p[start + 1], p[start + 2], p[start + 3]), 4))
            } else {
                None
            }
        } else {
            None
        }
    } else {
        None
    }
}

pub open spec fn mods(bold: bool, dim: bool, italic: bool, underlined: bool, reversed: bool) -> Modifiers {
    Modifiers { bold, dim, italic, underlined, reversed }
}

pub open spec fn with_fg(s: Style, c: Color) -> Style {
    Style { fg: Some(c), ..s }
}

pub open spec fn with_bg(s: Style, c: Color) -> Style {
    Style { bg: Some(c), ..s }
}

/// Effect of the SGR parameter at `i`, with how many further parameters it takes.
pub open spec fn sgr_one(st: Style, p: Seq<u8>, i: int) -> (Style, nat) {
    let n = p[i];
    if n == 0 { (plain(), 0) }
    else if n == 1 { (added(st, mods(true, false, false, false, false)), 0) }
    else if n == 2 { (added(st, mods(false, true, false, false, false)), 0) }
    else if n == 3 { (added(st, mods(false, false, true, false, false)), 0) }
    else if n == 4 { (added(st, mods(false, false, false, true, false)), 0) }
    else if n == 7 { (added(st, mods(false, false, false, false, true)), 0) }
    else if n == 22 { (removed(st, mods(true, true, false, false, false)), 0) }
    else if n == 23 { (removed(st, mods(false, false, true, false, false)), 0) }
    else if n == 24 { (removed(st, mods(false, false, false, true, false)), 0) }
    else if n == 27 { (removed(st, mods(false, false, false, false, true)), 0) }
    else if n == 39 { (with_fg(st, Color::Reset), 0) }
    else if n == 49 { (with_bg(st, Color::Reset), 0) }
    else if 30 <= n <= 37 { (with_fg(st, ansi_16((n - 30) as u8)), 0) }
    else if 40 <= n <= 47 { (with_bg(st, ansi_16((n - 40) as u8)), 0) }
    else if 90 <= n <= 97 { (with_fg(st, ansi_bright((n - 90) as u8)), 0) }
    else if 100 <= n <= 107 { (with_bg(st, ansi_bright((n - 100) as u8)), 0) }
    else if n == 38 {
        match extended_color(p, i + 1) {
            Some((c, k)) => (with_fg(st, c), k),
            None => (st, 0),
        }
    } else if n == 48 {
        match extended_color(p, i + 1) {
            Some((c, k)) => (with_bg(st, c), k),
            None => (st, 0),
        }
    } else { (st, 0) }
}

/// `st` after the SGR parameters of `p` from index `i` on.
pub open spec fn sgr_from(st: Style, p: Seq<u8>, i: int) -> Style
    decreases p.len() - i,
{
    if i < 0 || i >= p.len() {
        st
    } else {
        let (s2, k) = sgr_one(st, p, i);
        if i + 1 + k <= p.len() {
            sgr_from(s2, p, i + 1 + k)
        } else {
            s2
        }
    }
}

/// `spans` with `text` added in style `st`, unless `text` is empty.
pub open spec fn flush(text: Seq<char>, st: Style, spans: Seq<(Seq<char>, Style)>) -> Seq<(Seq<char>, Style)> {
    if text.len() > 0 {
        spans.push((text, st))
    } else {
        spans
    }
}

/// The span builder as a machine over the line: current style, pending
/// text, finished spans.
pub open spec fn spans_run(
    s: Seq<char>,
    st: Style,
    text: Seq<char>,
    spans: Seq<(Seq<char>, Style)>,
) -> Seq<(Seq<char>, Style)>
    decreases s.len(),
{
    if s.len() == 0 {
        flush(text, st, spans)
    } else {
        let c = s[0];
        let r = s.drop_first();
        if c == esc() {
            if r.len() > 0 && r[0] == '[' {
                let t = r.drop_first();
                let k = index_where(t, |c: char| is_final_byte(c));
                let n = csi_body_len(t);
                if n <= t.len() {
                    if 0 <= k < t.len() && t[k] == 'm' {
                        spans_run(
                            t.skip(n as int),
                            sgr_from(st, sgr_params(t.take(k)), 0),
                            Seq::empty(),
                            flush(text, st, spans),
                        )
                    } else {
                        spans_run(t.skip(n as int), st, text, spans)
                    }
                } else {
                    flush(text, st, spans)
                }
            } else {
                let n = other_escape_len(r);
                if n <= r.len() {
                    spans_run(r.skip(n as int), st, text, spans)
                } else {
                    flush(text, st, spans)
                }
            }
        } else if c == '\n' || c == '\r' {
            spans_run(r, st, text, spans)
        } else {
            spans_run(r, st, text.push(c), spans)
        }
    }
}

/// What [`ansi_line_to_spans`] returns for the characters `s`.
pub open spec fn line_spans(s: Seq<char>) -> Seq<(Seq<char>, Style)> {
    spans_run(s, plain(), Seq::empty(), seq![(seq![' ', ' '], plain())])
}

/// The parameters of an SGR sequence.
fn parse_sgr_params(raw: &[char]) -> (r: Vec<u8>)
    ensures
        r@ == sgr_params(raw@),
{
    if raw.len() == 0 {
        let mut v = Vec::new();
        v.push(0u8);
        assert(v@ =~= seq![0u8]);
        return v;
    }
    let parts = split_on(raw, ';');
    let ghost ps = views(parts@);
    let mut v: Vec<u8> = Vec::new();
    let mut i: usize = 0;
    while i < parts.len()
        invariant
            i <= parts.len(),
            ps == views(parts@),
            ps == split_char(raw@, ';'),
            v@ =~= ps.take(i as int).map_values(|p: Seq<char>| sgr_param(p)),
        decreases parts.len() - i,
    {
        let x = match parse_uint(parts[i].as_slice(), 255) {
            Some(n) => n as u8,
            None => 0u8,
        };
        assert(parts@[i as int]@ == ps[i as int]);
        assert(ps.take(i + 1).drop_last() =~= ps.take(i as int));
        v.push(x);
        i = i + 1;
    }
    assert(ps.take(parts.len() as int) =~= ps);
    v
}

/// Reads a CSI body starting at `from` (after `ESC [`): its parameters,
/// its final byte if any, and the index after it.
fn read_csi(s: &Vec<char>, from: usize) -> (r: (Vec<u8>, Option<char>, usize))
    requires
        from <= s.len(),
    ensures
        ({
            let t = s@.skip(from as int);
            let k = index_where(t, |c: char| is_final_byte(c));
            &&& r.0@ == sgr_params(t.take(k))
            &&& r.1 == (if k < t.len() { Some(t[k]) } else { None::<char> })
            &&& r.2 == from + csi_body_len(t)
            &&& r.2 <= s.len()
        }),
{
    let ghost t = s@.skip(from as int);
    let k = find_final(s, from);
    let raw = slice_chars(s.as_slice(), from, k);
    assert(raw@ =~= t.take(k - from));
    let params = parse_sgr_params(raw.as_slice());
    if k < s.len() {
        assert(t[k - from] == s@[k as int]);
        (params, Some(s[k]), k + 1)
    } else {
        (params, None, s.len())
    }
}

fn ansi_16_fg(n: u8) -> (c: Color)
    ensures
        c == ansi_16(n),
{
    if n == 0 { Color::Black }
    else if n == 1 { Color::Red }
    else if n == 2 { Color::Green }
    else if n == 3 { Color::Yellow }
    else if n == 4 { Color::Blue }
    else if n == 5 { Color::Magenta }
    else if n == 6 { Color::Cyan }
    else { Color::White }
}

fn ansi_16_bright(n: u8) -> (c: Color)
    ensures
        c == ansi_bright(n),
{
    if n == 0 { Color::DarkGray }
    else if n == 1 { Color::LightRed }
    else if n == 2 { Color::LightGreen }
    else if n == 3 { Color::LightYellow }
    else if n == 4 { Color::LightBlue }
    else if n == 5 { Color::LightMagenta }
    else if n == 6 { Color::LightCyan }
    else { Color::White }
}

/// The colour after 38/48 at `start`, with the number of parameters it takes.
fn parse_extended_color(params: &[u8], start: usize) -> (r: Option<(Color, usize)>)
    ensures
        match r {
            Some((c, k)) => extended_color(params@, start as int) == Some((c, k as nat)),
            None => extended_color(params@, start as int) is None,
        },
{
    if start >= params.len() {
        return None;
    }
    let mode = params[start];
    if mode == 5 {
        if start + 1 < params.len() {
            Some((Color::Indexed(params[start + 1]), 2))
        } else {
            None
        }
    } else if mode == 2 {
        if params.len() - start > 3 {
            Some((Color::Rgb(params[start + 1], params[start + 2], params[start + 3]), 4))
        } else {
            None
        }
    } else {
        None
    }
}

fn modifier(bold: bool, dim: bool, italic: bool, underlined: bool, reversed: bool) -> (m: Modifiers)
    ensures
        m == mods(bold, dim, italic, underlined, reversed),
{
    Modifiers { bold, dim, italic, underlined, reversed }
}

/// Applies the SGR parameters to `style`.
fn apply_sgr(style: &mut Style, params: &[u8])
    ensures
        *final(style) == sgr_from(*old(style), params@, 0),
{
    let ghost p = params@;
    let mut i: usize = 0;
    while i < params.len()
        invariant
            p == params@,
            i <= params.len(),
            sgr_from(*style, p, i as int) == sgr_from(*old(style), p, 0),
        decreases params.len() - i,
    {
        let n = params[i];
        let mut skip: usize = 0;
        let cur = *style;
        if n == 0 {
            *style = Style::new();
        } else if n == 1 {
            *style = cur.add_modifier(modifier(true, false, false, false, false));
        } else if n == 2 {
            *style = cur.add_modifier(modifier(false, true, false, false, false));
        } else if n == 3 {
            *style = cur.add_modifier(modifier(false, false, true, false, false));
        } else if n == 4 {
            *style = cur.add_modifier(modifier(false, false, false, true, false));
        } else if n == 7 {
            *style = cur.add_modifier(modifier(false, false, false, false, true));
        } else if n == 22 {
            *style = cur.remove_modifier(modifier(true, true, false, false, false));
        } else if n == 23 {
            *style = cur.remove_modifier(modifier(false, false, true, false, false));
        } else if n == 24 {
            *style = cur.remove_modifier(modifier(false, false, false, true, false));
        } else if n == 27 {
            *style = cur.remove_modifier(modifier(false, false, false, false, true));
        } else if n == 39 {
            *style = cur.fg(Color::Reset);
        } else if n == 49 {
            *style = cur.bg(Color::Reset);
        } else if 30 <= n && n <= 37 {
            *style = cur.fg(ansi_16_fg(n - 30));
        } else if 40 <= n && n <= 47 {
            *style = cur.bg(ansi_16_fg(n - 40));
        } else if 90 <= n && n <= 97 {
            *style = cur.fg(ansi_16_bright(n - 90));
        } else if 100 <= n && n <= 107 {
            *style = cur.bg(ansi_16_bright(n - 100));
        } else if n == 38 {
            if let Some((c, k)) = parse_extended_color(params, i + 1) {
                *style = cur.fg(c);
                skip = k;
            }
        } else if n == 48 {
            if let Some((c, k)) = parse_extended_color(params, i + 1) {
                *style = cur.bg(c);
                skip = k;
            }
        }
        assert(sgr_one(cur, p, i as int) == (*style, skip as nat));
        assert(i + 1 + skip <= params.len());
        i = i + 1 + skip;
    }
}

/// Splits one line (without `'\n'`) carrying SGR sequences into styled
/// spans, after a leading `"  "` span.
pub fn ansi_line_to_spans(line: &str) -> (spans: Vec<Span>)
    ensures
        span_views(spans@) == line_spans(line@),
{
    let s = to_chars(line);
    let mut spans: Vec<Span> = Vec::new();
    spans.push(Span { content: from_chars(&['\u{20}', '\u{20}']), style: Style::new() });
    assert(span_views(spans@) =~= seq![(seq![' ', ' '], plain())]);
    let mut style = Style::new();
    let mut text: Vec<char> = Vec::new();
    let mut i: usize = 0;
    assert(s@.skip(0) =~= s@);
    while i < s.len()
        invariant
            i <= s.len(),
            spans_run(s@.skip(i as int), style, text@, span_views(spans@)) == line_spans(s@),
        decreases s.len() - i,
    {
        let c = s[i];
        let ghost rest = s@.skip(i as int);
        assert(rest[0] == c);
        assert(rest.drop_first() =~= s@.skip(i + 1));
        if c == '\u{1b}' {
            if i + 1 < s.len() && s[i + 1] == '[' {
                assert(rest.drop_first()[0] == s@[i + 1]);
                assert(rest.drop_first().drop_first() =~= s@.skip(i + 2));
                let (params, fin, next) = read_csi(&s, i + 2);
                let ghost t = s@.skip(i + 2);
                proof {
                    lemma_index_where(t, |c: char| is_final_byte(c));
                    assert(t.skip(next - i - 2) =~= s@.skip(next as int));
                }
                if fin == Some('m') {
                    let ghost old_views = span_views(spans@);
                    if text.len() > 0 {
                        spans.push(Span { content: from_chars(text.as_slice()), style });
                        assert(span_views(spans@) =~= old_views.push((text@, style)));
                    }
                    text = Vec::new();
                    apply_sgr(&mut style, params.as_slice());
                }
                i = next;
            } else {
                proof {
                    if i + 1 < s.len() {
                        assert(rest.drop_first()[0] == s@[i + 1]);
                    }
                }
                let next = skip_non_csi_escape(&s, i + 1);
                proof {
                    assert(rest.drop_first().skip(next - i - 1) =~= s@.skip(next as int));
                }
                i = next;
            }
        } else if c == '\n' || c == '\r' {
            i = i + 1;
        } else {
            text.push(c);
            i = i + 1;
        }
    }
    if text.len() > 0 {
        let ghost old_views = span_views(spans@);
        spans.push(Span { content: from_chars(text.as_slice()), style });
        assert(span_views(spans@) =~= old_views.push((text@, style)));
    }
    spans
}


// ---------------------------------------------------------------- laws

/// No character of `s` is ESC.
pub open spec fn escape_free(s: Seq<char>) -> bool {
    forall|i: int| 0 <= i < s.len() ==> s[i] != esc()
}

/// The escape whose text after ESC is `r` ends within `r`: a CSI has its
/// final byte, an OSC its BEL (or its ESC and the character after it), a
/// charset selection its second character, any other escape its one.
pub open spec fn escape_ends(r: Seq<char>) -> bool {
    if r.len() == 0 {
        false
    } else if r[0] == '[' {
        index_where(r.drop_first(), |c: char| is_final_byte(c)) < r.len() - 1
    } else if r[0] == ']' {
        let t = r.drop_first();
        let j = index_where(t, |c: char| ends_osc(c));
        j < t.len() && (t[j] == '\u{7}' || j + 3 <= r.len())
    } else if r[0] == '(' || r[0] == ')' || r[0] == '%' || r[0] == '#' {
        r.len() >= 2
    } else {
        true
    }
}

/// Every escape sequence of `p` ends within `p`: nothing that follows `p`
/// can be taken into one of them.
pub open spec fn escapes_complete(p: Seq<char>) -> bool
    decreases p.len(),
{
    if p.len() == 0 {
        true
    } else if p[0] == esc() {
        let r = p.drop_first();
        let n = escape_step(r, Seq::empty(), 0).0;
        escape_ends(r) && n <= r.len() && escapes_complete(r.skip(n as int))
    } else {
        escapes_complete(p.drop_first())
    }
}

proof fn lemma_index_where_at(t: Seq<char>, p: spec_fn(char) -> bool, k: int)
    requires
        0 <= k < t.len(),
        p(t[k]),
        forall|j: int| 0 <= j < k ==> !p(#[trigger] t[j]),
    ensures
        index_where(t, p) == k,
{
    lemma_index_where(t, p);
}

/// What follows a text does not move the first match found within it.
proof fn lemma_index_where_prefix(t: Seq<char>, q: Seq<char>, p: spec_fn(char) -> bool)
    requires
        index_where(t, p) < t.len(),
    ensures
        index_where(t + q, p) == index_where(t, p),
{
    lemma_index_where(t, p);
    let k = index_where(t, p);
    let u = t + q;
    assert(u[k] == t[k]);
    assert forall|j: int| 0 <= j < k implies !p(#[trigger] u[j]) by {
        assert(u[j] == t[j]);
    }
    lemma_index_where_at(u, p, k);
}

/// An escape that ends within `r` reads the same with anything after it.
proof fn lemma_escape_step_prefix(r: Seq<char>, q: Seq<char>, out: Seq<char>, ls: nat)
    requires
        escape_ends(r),
    ensures
        escape_step(r + q, out, ls) == escape_step(r, out, ls),
{
    let rq = r + q;
    assert(rq[0] == r[0]);
    let t = r.drop_first();
    assert(rq.drop_first() =~= t + q);
    if r[0] == '[' {
        lemma_index_where(t, |c: char| is_final_byte(c));
        lemma_index_where_prefix(t, q, |c: char| is_final_byte(c));
        let k = index_where(t, |c: char| is_final_byte(c));
        assert((t + q)[k] == t[k]);
        assert((t + q).take(k + 1) =~= t.take(k + 1));
    } else if r[0] == ']' {
        lemma_index_where(t, |c: char| ends_osc(c));
        lemma_index_where_prefix(t, q, |c: char| ends_osc(c));
        let j = index_where(t, |c: char| ends_osc(c));
        assert((t + q)[j] == t[j]);
    }
}

/// The length an escape takes does not depend on the output.
proof fn lemma_escape_len_any_out(r: Seq<char>, out: Seq<char>, ls: nat)
    ensures
        escape_step(r, out, ls).0 == escape_step(r, Seq::empty(), 0).0,
{
}

/// Output already written before the current line is a frame the sanitizer
/// never touches.
proof fn lemma_san_frame(q: Seq<char>, a: Seq<char>, b: Seq<char>, l: nat)
    requires
        l <= b.len(),
    ensures
        san(q, a + b, (a.len() + l) as nat).0 == a + san(q, b, l).0,
        san(q, a + b, (a.len() + l) as nat).1 == a.len() + san(q, b, l).1,
    decreases q.len(),
{
    if q.len() > 0 {
        let c = q[0];
        let r = q.drop_first();
        if c == '\r' {
            assert((a + b).take((a.len() + l) as int) =~= a + b.take(l as int));
            lemma_san_frame(r, a, b.take(l as int), l);
        } else if c == '\n' {
            assert((a + b).push('\n') =~= a + b.push('\n'));
            lemma_san_frame(r, a, b.push('\n'), (b.len() + 1) as nat);
        } else if c == '\t' {
            assert((a + b).push('\t') =~= a + b.push('\t'));
            lemma_san_frame(r, a, b.push('\t'), l);
        } else if c == esc() {
            lemma_escape_step_len(r, b, l);
            lemma_escape_step_len(r, a + b, (a.len() + l) as nat);
            let n = escape_step(r, b, l).0;
            let b2 = escape_step(r, b, l).1;
            if r.len() > 0 && r[0] == '[' {
                let t = r.drop_first();
                let k = index_where(t, |c: char| is_final_byte(c));
                if k < t.len() && t[k] == 'm' {
                    assert((a + b) + seq![esc(), '['] + t.take(k + 1) =~= a + (b + seq![esc(), '['] + t.take(k + 1)));
                } else if k < t.len() && t[k] == 'K' {
                    assert((a + b).take((a.len() + l) as int) =~= a + b.take(l as int));
                }
            }
            assert(escape_step(r, a + b, (a.len() + l) as nat).0 == n);
            assert(escape_step(r, a + b, (a.len() + l) as nat).1 == a + b2);
            lemma_san_frame(r.skip(n as int), a, b2, l);
        } else if is_control(c) {
            lemma_san_frame(r, a, b, l);
        } else {
            assert((a + b).push(c) =~= a + b.push(c));
            lemma_san_frame(r, a, b.push(c), l);
        }
    }
}

/// When every escape of `p` ends within it, the machine runs over a
/// concatenation piece by piece.
proof fn lemma_san_compose(p: Seq<char>, r: Seq<char>, out: Seq<char>, ls: nat)
    requires
        escapes_complete(p),
    ensures
        san(p + r, out, ls) == san(r, san(p, out, ls).0, san(p, out, ls).1),
    decreases p.len(),
{
    if p.len() == 0 {
        assert(p + r =~= r);
    } else {
        let c = p[0];
        let pr = p + r;
        assert(pr[0] == c);
        assert(pr.drop_first() =~= p.drop_first() + r);
        if c == '\r' {
            lemma_san_compose(p.drop_first(), r, out.take(ls as int), ls);
        } else if c == '\n' {
            lemma_san_compose(p.drop_first(), r, out.push('\n'), (out.len() + 1) as nat);
        } else if c == '\t' {
            lemma_san_compose(p.drop_first(), r, out.push('\t'), ls);
        } else if c == esc() {
            let e = p.drop_first();
            lemma_escape_len_any_out(e, out, ls);
            lemma_escape_step_prefix(e, r, out, ls);
            let n = escape_step(e, out, ls).0;
            let o = escape_step(e, out, ls).1;
            assert((e + r).skip(n as int) =~= e.skip(n as int) + r);
            lemma_san_compose(e.skip(n as int), r, o, ls);
        } else if is_control(c) {
            lemma_san_compose(p.drop_first(), r, out, ls);
        } else {
            lemma_san_compose(p.drop_first(), r, out.push(c), ls);
        }
    }
}

proof fn lemma_san_ls_bound(s: Seq<char>, out: Seq<char>, ls: nat)
    requires
        ls <= out.len(),
    ensures
        san(s, out, ls).1 <= san(s, out, ls).0.len(),
    decreases s.len(),
{
    if s.len() > 0 {
        let c = s[0];
        let r = s.drop_first();
        if c == '\r' {
            lemma_san_ls_bound(r, out.take(ls as int), ls);
        } else if c == '\n' {
            lemma_san_ls_bound(r, out.push('\n'), (out.len() + 1) as nat);
        } else if c == '\t' {
            lemma_san_ls_bound(r, out.push('\t'), ls);
        } else if c == esc() {
            lemma_escape_step_len(r, out, ls);
            let n = escape_step(r, out, ls).0;
            lemma_san_ls_bound(r.skip(n as int), escape_step(r, out, ls).1, ls);
        } else if is_control(c) {
            lemma_san_ls_bound(r, out, ls);
        } else {
            lemma_san_ls_bound(r, out.push(c), ls);
        }
    }
}

/// A newline closes a line for good: when every escape sequence before it
/// ends before it, whatever follows (carriage returns, erase-in-line)
/// cannot change the lines before it.
pub proof fn law_newline_closes_line(p: Seq<char>, q: Seq<char>)
    requires
        escapes_complete(p),
    ensures
        sanitized(p + seq!['\n'] + q) == sanitized(p) + seq!['\n'] + sanitized(q),
{
    let st = san(p, Seq::empty(), 0);
    lemma_san_compose(p, seq!['\n'] + q, Seq::empty(), 0);
    assert(p + seq!['\n'] + q =~= p + (seq!['\n'] + q));
    let nq = seq!['\n'] + q;
    assert(nq[0] == '\n');
    assert(nq.drop_first() =~= q);
    let a = st.0.push('\n');
    lemma_san_frame(q, a, Seq::empty(), 0);
    assert(a + Seq::<char>::empty() =~= a);
    assert(a + sanitized(q) =~= st.0 + seq!['\n'] + sanitized(q));
}

proof fn lemma_san_no_newline(p: Seq<char>, out: Seq<char>, ls: nat)
    requires
        !p.contains('\n'),
    ensures
        san(p, out, ls).1 == ls,
    decreases p.len(),
{
    if p.len() > 0 {
        let c = p[0];
        let r = p.drop_first();
        assert(c != '\n');
        assert forall|m: int| 0 <= m <= r.len() implies !(#[trigger] r.skip(m)).contains('\n') by {
            if r.skip(m).contains('\n') {
                let k = choose|k: int| 0 <= k < r.skip(m).len() && r.skip(m)[k] == '\n';
                assert(p[m + k + 1] == '\n');
            }
        }
        assert(r.skip(0) =~= r);
        if c == '\r' {
            lemma_san_no_newline(r, out.take(ls as int), ls);
        } else if c == '\t' {
            lemma_san_no_newline(r, out.push('\t'), ls);
        } else if c == esc() {
            lemma_escape_step_len(r, out, ls);
            let n = escape_step(r, out, ls).0;
            lemma_san_no_newline(r.skip(n as int), escape_step(r, out, ls).1, ls);
        } else if is_control(c) {
            lemma_san_no_newline(r, out, ls);
        } else {
            lemma_san_no_newline(r, out.push(c), ls);
        }
    }
}

/// A carriage return rewrites the current line: text on the first line
/// before it, whose escape sequences all end before it, leaves no trace.
pub proof fn law_carriage_return_rewrites_line(p: Seq<char>, q: Seq<char>)
    requires
        escapes_complete(p),
        !p.contains('\n'),
    ensures
        sanitized(p + seq!['\r'] + q) == sanitized(q),
{
    lemma_san_compose(p, seq!['\r'] + q, Seq::empty(), 0);
    assert(p + seq!['\r'] + q =~= p + (seq!['\r'] + q));
    lemma_san_no_newline(p, Seq::empty(), 0);
    let st = san(p, Seq::empty(), 0);
    let rq = seq!['\r'] + q;
    assert(rq[0] == '\r');
    assert(rq.drop_first() =~= q);
    assert(st.0.take(0) =~= Seq::<char>::empty());
}

/// Allowed in sanitized text outside escape sequences: no control
/// character but tab and newline.
pub open spec fn displayable(c: char) -> bool {
    !is_control(c) || c == '\n' || c == '\t'
}

proof fn lemma_san_displayable(s: Seq<char>, out: Seq<char>, ls: nat)
    requires
        escape_free(s),
        ls <= out.len(),
        forall|i: int| 0 <= i < out.len() ==> displayable(#[trigger] out[i]),
    ensures
        forall|i: int| 0 <= i < san(s, out, ls).0.len() ==> displayable(#[trigger] san(s, out, ls).0[i]),
    decreases s.len(),
{
    if s.len() > 0 {
        let c = s[0];
        let r = s.drop_first();
        assert(c != esc());
        assert(escape_free(r)) by {
            assert forall|i: int| 0 <= i < r.len() implies r[i] != esc() by {
                assert(r[i] == s[i + 1]);
            }
        }
        if c == '\r' {
            let o = out.take(ls as int);
            assert forall|i: int| 0 <= i < o.len() implies displayable(#[trigger] o[i]) by {
                assert(o[i] == out[i]);
            }
            lemma_san_displayable(r, o, ls);
            assert(san(s, out, ls) == san(r, o, ls));
        } else if c == '\n' || c == '\t' || !is_control(c) {
            let o = out.push(c);
            assert forall|i: int| 0 <= i < o.len() implies displayable(#[trigger] o[i]) by {
                if i < out.len() {
                    assert(o[i] == out[i]);
                }
            }
            if c == '\n' {
                lemma_san_displayable(r, o, (out.len() + 1) as nat);
                assert(san(s, out, ls) == san(r, o, (out.len() + 1) as nat));
            } else {
                lemma_san_displayable(r, o, ls);
                assert(san(s, out, ls) == san(r, o, ls));
            }
        } else {
            lemma_san_displayable(r, out, ls);
            assert(san(s, out, ls) == san(r, out, ls));
        }
    }
}

/// Text without escape sequences comes out with no control character
/// other than tab and newline.
pub proof fn law_only_tab_and_newline_survive(s: Seq<char>)
    requires
        escape_free(s),
    ensures
        forall|i: int| 0 <= i < sanitized(s).len() ==> displayable(#[trigger] sanitized(s)[i]),
{
    lemma_san_displayable(s, Seq::empty(), 0);
}

/// Text as the sanitizer leaves it: displayable characters and kept SGR
/// sequences (`ESC [`, parameters with no final byte, `m`), one after
/// another.
pub open spec fn clean(x: Seq<char>) -> bool
    decreases x.len(),
{
    if x.len() == 0 {
        true
    } else if x[0] == esc() {
        let t = x.skip(2);
        let k = index_where(t, |c: char| is_final_byte(c));
        &&& x.len() >= 2
        &&& x[1] == '['
        &&& 0 <= k < t.len()
        &&& t[k] == 'm'
        &&& clean(t.skip(k + 1))
    } else {
        displayable(x[0]) && clean(x.drop_first())
    }
}

proof fn lemma_final_at(t: Seq<char>, k: int)
    requires
        0 <= k < t.len(),
        is_final_byte(t[k]),
        forall|j: int| 0 <= j < k ==> !is_final_byte(#[trigger] t[j]),
    ensures
        index_where(t, |c: char| is_final_byte(c)) == k,
{
    lemma_index_where(t, |c: char| is_final_byte(c));
}

proof fn lemma_clean_append(x: Seq<char>, y: Seq<char>)
    requires
        clean(x),
        clean(y),
    ensures
        clean(x + y),
    decreases x.len(),
{
    let xy = x + y;
    if x.len() == 0 {
        assert(xy =~= y);
    } else if x[0] == esc() {
        let t = x.skip(2);
        let k = index_where(t, |c: char| is_final_byte(c));
        lemma_index_where(t, |c: char| is_final_byte(c));
        let u = xy.skip(2);
        assert(u =~= t + y);
        assert forall|j: int| 0 <= j < k implies !is_final_byte(#[trigger] u[j]) by {
            assert(u[j] == t[j]);
        }
        assert(u[k] == t[k]);
        lemma_final_at(u, k);
        assert(u.skip(k + 1) =~= t.skip(k + 1) + y);
        lemma_clean_append(t.skip(k + 1), y);
        assert(xy[0] == esc() && xy[1] == '[');
    } else {
        assert(xy.drop_first() =~= x.drop_first() + y);
        lemma_clean_append(x.drop_first(), y);
        assert(xy[0] == x[0]);
    }
}

/// The machine copies clean text through unchanged.
proof fn lemma_san_clean(x: Seq<char>, out: Seq<char>, ls: nat)
    requires
        clean(x),
    ensures
        san(x, out, ls).0 == out + x,
    decreases x.len(),
{
    if x.len() == 0 {
        assert(out + x =~= out);
    } else {
        let c = x[0];
        let r = x.drop_first();
        if c == esc() {
            let t = x.skip(2);
            let k = index_where(t, |c: char| is_final_byte(c));
            assert(r[0] == '[');
            assert(r.drop_first() =~= t);
            let o = out + seq![esc(), '['] + t.take(k + 1);
            assert(escape_step(r, out, ls) == ((k + 2) as nat, o));
            assert(r.skip(k + 2) =~= t.skip(k + 1));
            lemma_san_clean(t.skip(k + 1), o, ls);
            assert(o + t.skip(k + 1) =~= out + x);
        } else {
            if c == '\n' {
                lemma_san_clean(r, out.push(c), (out.len() + 1) as nat);
            } else {
                lemma_san_clean(r, out.push(c), ls);
            }
            assert(out.push(c) + r =~= out + x);
        }
    }
}

/// The machine only ever writes clean text, and the current line starts
/// where clean text ends.
proof fn lemma_san_yields_clean(s: Seq<char>, out: Seq<char>, ls: nat)
    requires
        clean(out),
        clean(out.take(ls as int)),
        ls <= out.len(),
    ensures
        clean(san(s, out, ls).0),
    decreases s.len(),
{
    if s.len() > 0 {
        let c = s[0];
        let r = s.drop_first();
        if c == '\r' {
            let o = out.take(ls as int);
            assert(o.take(ls as int) =~= o);
            lemma_san_yields_clean(r, o, ls);
        } else if c == esc() {
            lemma_escape_step_len(r, out, ls);
            let n = escape_step(r, out, ls).0;
            let o = escape_step(r, out, ls).1;
            if r.len() > 0 && r[0] == '[' {
                let t = r.drop_first();
                let k = index_where(t, |c: char| is_final_byte(c));
                lemma_index_where(t, |c: char| is_final_byte(c));
                if k < t.len() && t[k] == 'm' {
                    let g = seq![esc(), '['] + t.take(k + 1);
                    let gt = g.skip(2);
                    assert(gt =~= t.take(k + 1));
                    assert forall|j: int| 0 <= j < k implies !is_final_byte(#[trigger] gt[j]) by {
                        assert(gt[j] == t[j]);
                    }
                    lemma_final_at(gt, k);
                    assert(gt.skip(k + 1) =~= Seq::<char>::empty());
                    assert(clean(Seq::<char>::empty()));
                    assert(clean(g));
                    lemma_clean_append(out, g);
                    assert(o =~= out + g);
                    assert(o.take(ls as int) =~= out.take(ls as int));
                } else if k < t.len() && t[k] == 'K' {
                    assert(o.take(ls as int) =~= o);
                }
            }
            lemma_san_yields_clean(r.skip(n as int), o, ls);
        } else if c == '\n' || c == '\t' || !is_control(c) {
            let o = out.push(c);
            assert(seq![c].drop_first() =~= Seq::<char>::empty());
            assert(clean(Seq::<char>::empty()));
            assert(clean(seq![c]));
            lemma_clean_append(out, seq![c]);
            assert(out + seq![c] =~= o);
            if c == '\n' {
                assert(o.take(o.len() as int) =~= o);
                lemma_san_yields_clean(r, o, (out.len() + 1) as nat);
            } else {
                assert(o.take(ls as int) =~= out.take(ls as int));
                lemma_san_yields_clean(r, o, ls);
            }
        } else {
            lemma_san_yields_clean(r, out, ls);
        }
    }
}

/// Sanitizing is idempotent: sanitized output comes through a second pass
/// unchanged.
pub proof fn law_sanitize_idempotent(s: Seq<char>)
    ensures
        sanitized(sanitized(s)) == sanitized(s),
{
    assert(clean(Seq::<char>::empty()));
    assert(Seq::<char>::empty().take(0) =~= Seq::<char>::empty());
    lemma_san_yields_clean(s, Seq::empty(), 0);
    lemma_san_clean(sanitized(s), Seq::empty(), 0);
    assert(Seq::<char>::empty() + sanitized(s) =~= sanitized(s));
}

/// Text with no escape, newline or carriage return.
pub open spec fn plain_text(t: Seq<char>) -> bool {
    forall|i: int| 0 <= i < t.len() ==> t[i] != esc() && t[i] != '\n' && t[i] != '\r'
}

proof fn lemma_spans_plain(t: Seq<char>, st: Style, text: Seq<char>, spans: Seq<(Seq<char>, Style)>)
    requires
        plain_text(t),
    ensures
        spans_run(t, st, text, spans) == flush(text + t, st, spans),
    decreases t.len(),
{
    if t.len() == 0 {
        assert(text + t =~= text);
    } else {
        let c = t[0];
        let r = t.drop_first();
        assert(plain_text(r)) by {
            assert forall|i: int| 0 <= i < r.len() implies r[i] != esc() && r[i] != '\n' && r[i] != '\r' by {
                assert(r[i] == t[i + 1]);
            }
        }
        lemma_spans_plain(r, st, text.push(c), spans);
        assert(text.push(c) + r =~= text + t);
    }
}

/// The style a two-digit SGR sequence `ESC [ a d m` gives to the plain
/// text `t` after it, when `a` is `'3'` or `'4'` and `d` a digit up to 7:
/// the line is the leading span and `t` in that style.
proof fn lemma_two_digit_sgr(a: char, d: char, t: Seq<char>) -> (st: Style)
    requires
        a == '3' || a == '4',
        '0' <= d <= '7',
        t.len() > 0,
        plain_text(t),
    ensures
        line_spans(seq![esc(), '[', a, d, 'm'] + t) == seq![(seq![' ', ' '], plain()), (t, st)],
        st == sgr_from(plain(), seq![((a as u32 - 48) * 10 + (d as u32 - 48)) as u8], 0),
{
    let s = seq![esc(), '[', a, d, 'm'] + t;
    let r = s.drop_first();
    assert(s[0] == esc());
    assert(r[0] == '[');
    let tt = r.drop_first();
    assert(tt =~= seq![a, d, 'm'] + t);
    assert(!is_final_byte(tt[0]) && !is_final_byte(tt[1]) && is_final_byte(tt[2]));
    assert forall|j: int| 0 <= j < 2 implies !(|c: char| is_final_byte(c))(#[trigger] tt[j]) by {}
    lemma_index_where_at(tt, |c: char| is_final_byte(c), 2);
    assert(csi_body_len(tt) == 3);
    assert(tt.skip(3) =~= t);
    let raw = tt.take(2);
    assert(raw =~= seq![a, d]);
    reveal_with_fuel(split_char, 3);
    assert(split_char(seq![a], ';') =~= seq![seq![a]]) by {
        assert(seq![a].drop_last() =~= Seq::<char>::empty());
    }
    assert(split_char(raw, ';') =~= seq![seq![a, d]]) by {
        assert(raw.drop_last() =~= seq![a]);
        assert(raw.last() == d && d != ';');
        assert(seq![a].push(d) =~= seq![a, d]);
        let prev = split_char(raw.drop_last(), ';');
        assert(prev =~= seq![seq![a]]);
        assert(split_char(raw, ';') == prev.update(prev.len() - 1, prev.last().push(raw.last())));
    }
    reveal_with_fuel(digits_value, 3);
    assert(seq![a, d].drop_last() =~= seq![a]);
    assert(seq![a].drop_last() =~= Seq::<char>::empty());
    let n: u8 = ((a as u32 - 48) * 10 + (d as u32 - 48)) as u8;
    assert(digits_value(seq![a, d]) == n as nat);
    assert(unsigned_body(seq![a, d]) =~= seq![a, d]);
    assert(all_digits(seq![a, d]));
    assert(sgr_param(seq![a, d]) == n);
    assert(sgr_params(raw) =~= seq![n]);
    let st = sgr_from(plain(), seq![n], 0);
    let init = seq![(seq![' ', ' '], plain())];
    assert(flush(Seq::empty(), plain(), init) == init);
    lemma_spans_plain(t, st, Seq::empty(), init);
    assert(Seq::<char>::empty() + t =~= t);
    assert(init.push((t, st)) =~= seq![(seq![' ', ' '], plain()), (t, st)]);
    st
}

/// SGR 40–47 sets the background, and only it: `ESC [ 4 d m` gives the
/// text after it the colour `ESC [ 3 d m` gives as foreground, as its
/// background, and leaves its foreground unset (and the other way round).
pub proof fn law_background_and_foreground_sgr(d: char, t: Seq<char>)
    requires
        '0' <= d <= '7',
        t.len() > 0,
        plain_text(t),
    ensures
        ({
            let bg_line = line_spans(seq![esc(), '[', '4', d, 'm'] + t);
            let fg_line = line_spans(seq![esc(), '[', '3', d, 'm'] + t);
            &&& bg_line.len() == 2 && fg_line.len() == 2
            &&& bg_line[1].0 == t && fg_line[1].0 == t
            &&& bg_line[1].1.fg is None
            &&& bg_line[1].1.bg is Some
            &&& bg_line[1].1.bg == fg_line[1].1.fg
            &&& fg_line[1].1.bg is None
            &&& bg_line[1].1.add_modifier == plain().add_modifier
            &&& fg_line[1].1.add_modifier == plain().add_modifier
        }),
{
    let b = lemma_two_digit_sgr('4', d, t);
    let f = lemma_two_digit_sgr('3', d, t);
    let nb: u8 = ((('4' as u32) - 48) * 10 + (d as u32 - 48)) as u8;
    let nf: u8 = ((('3' as u32) - 48) * 10 + (d as u32 - 48)) as u8;
    assert(40 <= nb <= 47);
    assert(30 <= nf <= 37);
    assert(nb - 40 == nf - 30);
    assert(sgr_one(plain(), seq![nb], 0) == (with_bg(plain(), ansi_16((nb - 40) as u8)), 0nat));
    assert(sgr_one(plain(), seq![nf], 0) == (with_fg(plain(), ansi_16((nf - 30) as u8)), 0nat));
    let sb = with_bg(plain(), ansi_16((nb - 40) as u8));
    let sf = with_fg(plain(), ansi_16((nf - 30) as u8));
    assert(sgr_from(sb, seq![nb], 1) == sb);
    assert(sgr_from(sf, seq![nf], 1) == sf);
    assert(b == sb);
    assert(f == sf);
}

/// What one SGR parameter does to a style: 0 resets it; 30–37 and 90–97
/// set the foreground and 40–47 and 100–107 the background to the colour
/// the code ten lower gives as foreground, each leaving the rest alone; 39
/// and 49 reset one colour; 1 switches bold on and 22 bold and dim off;
/// an unknown code changes nothing.
pub proof fn law_sgr_parameter(st: Style, n: u8)
    ensures
        ({
            let r = sgr_from(st, seq![n], 0);
            let fg_of = |m: u8| sgr_from(st, seq![m], 0).fg;
            &&& n == 0 ==> r == plain()
            &&& (30 <= n <= 37 || 90 <= n <= 97) ==> r.fg is Some && r == (Style { fg: r.fg, ..st })
            &&& (40 <= n <= 47 || 100 <= n <= 107) ==> r.bg is Some && r == (Style { bg: r.bg, ..st })
                && r.bg == fg_of((n - 10) as u8)
            &&& n == 39 ==> r == (Style { fg: Some(Color::Reset), ..st })
            &&& n == 49 ==> r == (Style { bg: Some(Color::Reset), ..st })
            &&& n == 1 ==> r.add_modifier.bold && !r.sub_modifier.bold && r.fg == st.fg && r.bg == st.bg
            &&& n == 22 ==> !r.add_modifier.bold && !r.add_modifier.dim && r.sub_modifier.bold && r.sub_modifier.dim
            &&& !(n <= 4 || n == 7 || n == 22 || n == 23 || n == 24 || n == 27 || 30 <= n <= 49 || 90 <= n <= 97
                || 100 <= n <= 107) ==> r == st
        }),
{
    let p = seq![n];
    let (s2, k) = sgr_one(st, p, 0);
    assert(sgr_from(s2, p, 1) == s2);
    if 40 <= n <= 47 || 100 <= n <= 107 {
        let m = (n - 10) as u8;
        let (s3, k3) = sgr_one(st, seq![m], 0);
        assert(sgr_from(s3, seq![m], 1) == s3);
    }
}

/// The eight basic foreground codes give eight different colours.
pub proof fn law_sgr_basic_colours_differ(st: Style, n: u8, m: u8)
    requires
        30 <= n < m <= 37,
    ensures
        sgr_from(st, seq![n], 0).fg != sgr_from(st, seq![m], 0).fg,
{
    let (a, _ka) = sgr_one(st, seq![n], 0);
    let (b, _kb) = sgr_one(st, seq![m], 0);
    assert(sgr_from(a, seq![n], 1) == a);
    assert(sgr_from(b, seq![m], 1) == b);
}

/// Parameters apply from left to right: `a;b` does what `a` does, then
/// what `b` does (for codes other than the extended colours 38 and 48,
/// which take the parameters after them).
pub proof fn law_sgr_left_to_right(st: Style, a: u8, b: u8)
    requires
        a != 38 && a != 48,
        b != 38 && b != 48,
    ensures
        sgr_from(st, seq![a, b], 0) == sgr_from(sgr_from(st, seq![a], 0), seq![b], 0),
{
    let (s1, k1) = sgr_one(st, seq![a, b], 0);
    assert(k1 == 0);
    assert(sgr_one(st, seq![a], 0) == (s1, 0nat));
    assert(sgr_from(s1, seq![a], 1) == s1);
    assert(sgr_from(st, seq![a], 0) == s1);
    let (s2, k2) = sgr_one(s1, seq![a, b], 1);
    assert(k2 == 0);
    assert(sgr_one(s1, seq![b], 0) == (s2, 0nat));
    assert(sgr_from(s2, seq![a, b], 2) == s2);
    assert(sgr_from(s1, seq![a, b], 1) == s2);
    assert(sgr_from(st, seq![a, b], 0) == s2);
    assert(sgr_from(s2, seq![b], 1) == s2);
}

} // verus!
