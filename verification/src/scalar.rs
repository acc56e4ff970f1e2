//! How the form editor turns text into YAML scalars: booleans, integers,
//! floating-point literals (recognised, not computed) and strings.

use vstd::prelude::*;
use crate::schema::{ValueType, ValueTypeV};
use crate::text::{all_digits, is_digit, parse_i64, parse_i64_spec, to_chars};
use crate::yaml::{Node, NodeV};

verus! {

/// A scalar to be written.
#[derive(Debug, Clone, PartialEq, Eq)]
pub enum Scalar {
    Bool(bool),
    Int(i64),
    /// Text that reads as a floating-point number; the writer converts it.
    Float(String),
    Str(String),
}

pub enum ScalarV {
    Bool(bool),
    Int(i64),
    Float(Seq<char>),
    Str(Seq<char>),
}

impl View for Scalar {
    type V = ScalarV;

    open spec fn view(&self) -> ScalarV {
        match self {
            Scalar::Bool(b) => ScalarV::Bool(*b),
            Scalar::Int(i) => ScalarV::Int(*i),
            Scalar::Float(t) => ScalarV::Float(t@),
            Scalar::Str(t) => ScalarV::Str(t@),
        }
    }
}

// ---------------------------------------------------------------- booleans

/// `true`, `True`, `yes`, `1` read as true; `false`, `False`, `no`, `0` as
/// false; anything else is no boolean.
pub open spec fn bool_text(s: Seq<char>) -> Option<bool> {
    if s == "true"@ || s == "True"@ || s == "yes"@ || s == "1"@ {
        Some(true)
    } else if s == "false"@ || s == "False"@ || s == "no"@ || s == "0"@ {
        Some(false)
    } else {
        None
    }
}

fn is_text(s: &[char], word: &str) -> (r: bool)
    ensures
        r == (s@ == word@),
{
    let w = to_chars(word);
    crate::text::chars_eq(s, w.as_slice())
}

/// The boolean a text reads as, if any.
pub fn parse_bool_str(s: &str) -> (r: Option<bool>)
    ensures
        r == bool_text(s@),
{
    let c = to_chars(s);
    let t = c.as_slice();
    if is_text(t, "true") || is_text(t, "True") || is_text(t, "yes") || is_text(t, "1") {
        Some(true)
    } else if is_text(t, "false") || is_text(t, "False") || is_text(t, "no") || is_text(t, "0") {
        Some(false)
    } else {
        None
    }
}

// ---------------------------------------------------------------- floats

/// ASCII letters lowered.
pub open spec fn lower(c: char) -> char {
    if 'A' <= c <= 'Z' {
        ((c as u32) + 32) as char
    } else {
        c
    }
}

/// `s` equals the lower-case `word` ignoring ASCII case.
pub open spec fn eq_ci(s: Seq<char>, word: Seq<char>) -> bool {
    s.len() == word.len() && forall|i: int| 0 <= i < s.len() ==> lower(#[trigger] s[i]) == word[i]
}

/// `s` without one leading sign.
pub open spec fn unsigned(s: Seq<char>) -> Seq<char> {
    if s.len() > 0 && (s[0] == '+' || s[0] == '-') {
        s.drop_first()
    } else {
        s
    }
}

pub open spec fn is_e(c: char) -> bool {
    c == 'e' || c == 'E'
}

/// Position of the first exponent mark at or after `i`, else the length.
pub open spec fn e_pos(s: Seq<char>, i: int) -> int
    decreases s.len() - i,
{
    if i >= s.len() {
        s.len() as int
    } else if is_e(s[i]) {
        i
    } else {
        e_pos(s, i + 1)
    }
}

/// Number of dots in `s`.
pub open spec fn dots(s: Seq<char>) -> nat
    decreases s.len(),
{
    if s.len() == 0 {
        0
    } else {
        dots(s.drop_last()) + if s.last() == '.' { 1nat } else { 0nat }
    }
}

/// `Digit+ | Digit+ '.' Digit* | Digit* '.' Digit+`: digits with at most one
/// dot, and at least one digit.
pub open spec fn mantissa_ok(m: Seq<char>) -> bool {
    &&& dots(m) <= 1
    &&& forall|i: int| 0 <= i < m.len() ==> is_digit(#[trigger] m[i]) || m[i] == '.'
    &&& exists|i: int| 0 <= i < m.len() && is_digit(#[trigger] m[i])
}

/// `Sign? Digit+`.
pub open spec fn exponent_ok(x: Seq<char>) -> bool {
    let y = unsigned(x);
    y.len() > 0 && all_digits(y)
}

/// The text form accepted by `FromStr` for the floating-point types, as
/// the standard library documents it (ignoring ASCII case):
/// `Sign? ('inf' | 'infinity' | 'nan' | Number)` with
/// `Number ::= (Digit+ | Digit+ '.' Digit* | Digit* '.' Digit+) Exp?` and
/// `Exp ::= 'e' Sign? Digit+`.
pub open spec fn float_syntax(s: Seq<char>) -> bool {
    let b = unsigned(s);
    let p = e_pos(b, 0);
    ||| eq_ci(b, "inf"@)
    ||| eq_ci(b, "infinity"@)
    ||| eq_ci(b, "nan"@)
    ||| (mantissa_ok(b.take(p)) && (p == b.len() || exponent_ok(b.skip(p + 1))))
}

fn lower_char(c: char) -> (r: char)
    ensures
        r == lower(c),
{
    if 'A' <= c && c <= 'Z' {
        ((c as u8) + 32) as char
    } else {
        c
    }
}

fn eq_ignore_case(s: &[char], word: &str) -> (r: bool)
    ensures
        r == eq_ci(s@, word@),
{
    let w = to_chars(word);
    if s.len() != w.len() {
        return false;
    }
    let mut i: usize = 0;
    while i < s.len()
        invariant
            i <= s.len(),
            s@.len() == w@.len(),
            w@ == word@,
            forall|j: int| 0 <= j < i ==> lower(#[trigger] s@[j]) == w@[j],
        decreases s.len() - i,
    {
        if lower_char(s[i]) != w[i] {
            return false;
        }
        i = i + 1;
    }
    true
}

proof fn lemma_dots_push(s: Seq<char>, c: char)
    ensures
        dots(s.push(c)) == dots(s) + if c == '.' { 1nat } else { 0nat },
{
    assert(s.push(c).drop_last() =~= s);
}

/// Whether `m` is a mantissa.
fn mantissa_check(m: &[char]) -> (r: bool)
    ensures
        r == mantissa_ok(m@),
{
    let mut nd: usize = 0;
    let mut digit = false;
    let mut i: usize = 0;
    while i < m.len()
        invariant
            i <= m.len(),
            nd == dots(m@.take(i as int)),
            nd <= 1,
            forall|j: int| 0 <= j < i ==> is_digit(#[trigger] m@[j]) || m@[j] == '.',
            digit == exists|j: int| 0 <= j < i && is_digit(#[trigger] m@[j]),
        decreases m.len() - i,
    {
        let c = m[i];
        proof {
            assert(m@.take(i + 1) =~= m@.take(i as int).push(c));
            lemma_dots_push(m@.take(i as int), c);
        }
        if c == '.' {
            if nd == 1 {
                proof {
                    lemma_dots_prefix(m@, i + 1);
                }
                return false;
            }
            nd = nd + 1;
        } else if '0' <= c && c <= '9' {
            digit = true;
        } else {
            return false;
        }
        i = i + 1;
    }
    assert(m@.take(m.len() as int) =~= m@);
    digit
}

/// Dots of a prefix are at most the dots of the whole.
proof fn lemma_dots_prefix(s: Seq<char>, n: int)
    requires
        0 <= n <= s.len(),
    ensures
        dots(s.take(n)) <= dots(s),
    decreases s.len() - n,
{
    if n < s.len() {
        lemma_dots_prefix(s, n + 1);
        assert(s.take(n + 1) =~= s.take(n).push(s[n]));
        lemma_dots_push(s.take(n), s[n]);
    } else {
        assert(s.take(n) =~= s);
    }
}

fn unsigned_slice(s: &[char]) -> (r: Vec<char>)
    ensures
        r@ == unsigned(s@),
{
    if s.len() > 0 && (s[0] == '+' || s[0] == '-') {
        crate::text::slice_chars(s, 1, s.len())
    } else {
        crate::text::slice_chars(s, 0, s.len())
    }
}

fn exponent_check(x: &[char]) -> (r: bool)
    ensures
        r == exponent_ok(x@),
{
    let y = unsigned_slice(x);
    if y.len() == 0 {
        return false;
    }
    let mut i: usize = 0;
    while i < y.len()
        invariant
            i <= y.len(),
            y@ == unsigned(x@),
            forall|j: int| 0 <= j < i ==> is_digit(#[trigger] y@[j]),
        decreases y.len() - i,
    {
        if !('0' <= y[i] && y[i] <= '9') {
            assert(!is_digit(y@[i as int]));
            assert(!all_digits(y@));
            assert(!exponent_ok(x@));
            return false;
        }
        i = i + 1;
    }
    true
}

/// Whether `s` reads as a floating-point number.
pub fn is_float_text(s: &[char]) -> (r: bool)
    ensures
        r == float_syntax(s@),
{
    let b = unsigned_slice(s);
    let mut p: usize = 0;
    while p < b.len() && !(b[p] == 'e' || b[p] == 'E')
        invariant
            p <= b.len(),
            e_pos(b@, p as int) == e_pos(b@, 0),
        decreases b.len() - p,
    {
        p = p + 1;
    }
    assert(e_pos(b@, p as int) == p);
    if eq_ignore_case(b.as_slice(), "inf") || eq_ignore_case(b.as_slice(), "infinity") || eq_ignore_case(
        b.as_slice(),
        "nan",
    ) {
        return true;
    }
    let m = crate::text::slice_chars(b.as_slice(), 0, p);
    if !mantissa_check(m.as_slice()) {
        return false;
    }
    if p == b.len() {
        return true;
    }
    let x = crate::text::slice_chars(b.as_slice(), p + 1, b.len());
    exponent_check(x.as_slice())
}

// ---------------------------------------------------------------- scalars

/// The scalar a text becomes for a value type: a boolean for boolean
/// fields when it reads as one, an integer or a floating-point number for
/// number fields when it reads as one, else the text itself.
pub open spec fn scalar_of(s: Seq<char>, vt: ValueTypeV) -> ScalarV {
    match vt {
        ValueTypeV::Boolean => match bool_text(s) {
            Some(b) => ScalarV::Bool(b),
            None => ScalarV::Str(s),
        },
        ValueTypeV::Number => match parse_i64_spec(s) {
            Some(i) => ScalarV::Int(i as i64),
            None => if float_syntax(s) { ScalarV::Float(s) } else { ScalarV::Str(s) },
        },
        _ => ScalarV::Str(s),
    }
}

/// The scalar for `s` in a field of type `vt`.
pub fn scalar_string(s: &str, vt: &ValueType) -> (r: Scalar)
    ensures
        r@ == scalar_of(s@, vt@),
{
    match vt {
        ValueType::Boolean => match parse_bool_str(s) {
            Some(b) => Scalar::Bool(b),
            None => Scalar::Str(s.to_owned()),
        },
        ValueType::Number => {
            let c = to_chars(s);
            match parse_i64(c.as_slice()) {
                Some(i) => Scalar::Int(i),
                None => if is_float_text(c.as_slice()) {
                    Scalar::Float(s.to_owned())
                } else {
                    Scalar::Str(s.to_owned())
                },
            }
        },
        _ => Scalar::Str(s.to_owned()),
    }
}

// ---------------------------------------------------------------- reading values

/// The text of a scalar node: a string as it is, a boolean as `true` or
/// `false`, a number as its text; other nodes have none.
pub open spec fn node_text(n: NodeV) -> Option<Seq<char>> {
    match n {
        NodeV::Str(s) => Some(s),
        NodeV::Bool(b) => Some(if b { "true"@ } else { "false"@ }),
        NodeV::Number(t) => Some(t),
        _ => None,
    }
}

pub fn value_as_string(v: &Node) -> (r: Option<String>)
    ensures
        match r {
            Some(s) => node_text(v@) == Some(s@),
            None => node_text(v@) is None,
        },
{
    match v {
        Node::Str(s) => Some(s.clone()),
        Node::Bool(b) => Some(if *b { "true".to_owned() } else { "false".to_owned() }),
        Node::Number(t) => Some(t.clone()),
        _ => None,
    }
}

} // verus!
