//! Moving constant inline styles of JSX elements into a CSS module: what is
//! taken from a `style={{…}}` object, the CSS rules written for it, and how
//! the attribute in the source is rewritten.
//!
//! Source positions are byte offsets, as the parser reports them.

use vstd::prelude::*;
use vstd::utf8::{encode_scalar, encode_utf8};
use crate::paths::{extension_of, file_name_of, stem_of};
use crate::scalar::float_syntax;
use crate::text::{
    chars_eq, debug_string, debug_text, contains_seq, dec, fmt_u64, from_chars, has_infix, has_prefix, join, lines, lines_of, push_all,
    push_str, replace_chars, replaced, starts_with, str_concat, strings, to_chars, trim, trim_chars, views,
};

verus! {

// ---------------------------------------------------------------- byte offsets

/// Bytes of a character in UTF-8.
pub open spec fn clen(c: char) -> nat {
    encode_scalar(c as u32).len()
}

/// Bytes of a text in UTF-8.
pub open spec fn blen(s: Seq<char>) -> nat {
    encode_utf8(s).len()
}

proof fn lemma_encode_push(a: Seq<char>, c: char)
    ensures
        encode_utf8(a.push(c)) == encode_utf8(a) + encode_scalar(c as u32),
    decreases a.len(),
{
    if a.len() == 0 {
        assert(a.push(c).drop_first() =~= Seq::<char>::empty());
        assert(encode_utf8(Seq::<char>::empty()) =~= Seq::<u8>::empty());
        assert(encode_utf8(a.push(c)) =~= encode_scalar(c as u32) + encode_utf8(Seq::<char>::empty()));
    } else {
        lemma_encode_push(a.drop_first(), c);
        assert(a.push(c).drop_first() =~= a.drop_first().push(c));
        assert(a.push(c)[0] == a[0]);
    }
}

/// Byte length of a prefix grows by the next character's length.
proof fn lemma_blen_take(s: Seq<char>, c: int)
    requires
        0 <= c < s.len(),
    ensures
        blen(s.take(c + 1)) == blen(s.take(c)) + clen(s[c]),
{
    assert(s.take(c + 1) =~= s.take(c).push(s[c]));
    lemma_encode_push(s.take(c), s[c]);
}

fn char_len(c: char) -> (n: usize)
    ensures
        n == clen(c),
        1 <= n <= 4,
{
    let v = c as u32;
    if v <= 0x7F {
        1
    } else if v <= 0x7FF {
        2
    } else if v <= 0xFFFF {
        3
    } else {
        4
    }
}

/// The character index where byte offset `b` starts, if `b` is on a
/// character boundary.
pub open spec fn char_index(s: Seq<char>, b: int) -> Option<int> {
    if exists|c: int| 0 <= c <= s.len() && blen(#[trigger] s.take(c)) == b {
        Some(choose|c: int| 0 <= c <= s.len() && blen(#[trigger] s.take(c)) == b)
    } else {
        None
    }
}

proof fn lemma_blen_mono(s: Seq<char>, i: int, j: int)
    requires
        0 <= i <= j <= s.len(),
    ensures
        blen(s.take(i)) <= blen(s.take(j)),
        i < j ==> blen(s.take(i)) < blen(s.take(j)),
    decreases j - i,
{
    if i < j {
        lemma_blen_mono(s, i, j - 1);
        lemma_blen_take(s, j - 1);
    }
}

/// Finds the character index of byte offset `b`.
fn char_index_of(s: &[char], b: usize) -> (r: Option<usize>)
    ensures
        match r {
            Some(c) => char_index(s@, b as int) == Some(c as int) && c <= s@.len(),
            None => char_index(s@, b as int) is None,
        },
{
    let mut acc: u128 = 0;
    let mut c: usize = 0;
    assert(s@.take(0) =~= Seq::<char>::empty());
    while c < s.len() && acc < b as u128
        invariant
            c <= s.len(),
            acc == blen(s@.take(c as int)),
            acc <= b + 4,
            forall|k: int| 0 <= k < c ==> blen(#[trigger] s@.take(k)) < b,
        decreases s.len() - c,
    {
        proof {
            lemma_blen_take(s@, c as int);
        }
        acc = acc + char_len(s[c]) as u128;
        c = c + 1;
    }
    proof {
        assert forall|k: int| 0 <= k <= s@.len() && blen(#[trigger] s@.take(k)) == b implies k == c by {
            if k < c {
            } else if k > c {
                lemma_blen_mono(s@, c as int, k);
                if acc < b {
                    assert(c == s.len());
                }
            }
        }
    }
    if acc == b as u128 {
        assert(blen(s@.take(c as int)) == b);
        Some(c)
    } else {
        None
    }
}

// ---------------------------------------------------------------- style mappings

/// One `style={{…}}` attribute with constant properties: the element's tag
/// (lower case), the constant properties with their CSS values, the names
/// of the properties computed at run time, and the attribute's byte range.
#[derive(Debug, Clone)]
pub struct StyleMapping {
    pub tag_name: String,
    pub const_props: Vec<(String, String)>,
    pub dynamic_props: Vec<String>,
    pub start: usize,
    pub end: usize,
}

/// A property of a style object as the parser sees it: its key (none when
/// computed) and, when its value is a literal, the literal's text.
#[derive(Debug, Clone)]
pub struct ObjProp {
    pub key: Option<String>,
    pub literal: Option<String>,
}

pub open spec fn pairs(v: Seq<(String, String)>) -> Seq<(Seq<char>, Seq<char>)> {
    v.map_values(|p: (String, String)| (p.0@, p.1@))
}

/// Inserting into a map kept as pairs: an existing key gets the new value
/// in place, a new key goes last.
pub open spec fn map_insert(m: Seq<(Seq<char>, Seq<char>)>, k: Seq<char>, v: Seq<char>) -> Seq<(Seq<char>, Seq<char>)> {
    if exists|i: int| 0 <= i < m.len() && (#[trigger] m[i]).0 == k {
        let i = choose|i: int| 0 <= i < m.len() && (#[trigger] m[i]).0 == k;
        m.update(i, (k, v))
    } else {
        m.push((k, v))
    }
}

/// Inserting into a set kept as a sequence.
pub open spec fn set_insert(s: Seq<Seq<char>>, k: Seq<char>) -> Seq<Seq<char>> {
    if s.contains(k) {
        s
    } else {
        s.push(k)
    }
}

/// No key occurs twice.
pub open spec fn unique_keys(m: Seq<(Seq<char>, Seq<char>)>) -> bool {
    forall|i: int, j: int| 0 <= i < j < m.len() ==> (#[trigger] m[i]).0 != (#[trigger] m[j]).0
}

/// The CSS value of a literal: unitless properties (`opacity`, `zIndex`,
/// `flex`) keep it; a number without a dot gets `px`; anything else is
/// kept.
pub open spec fn css_value(key: Seq<char>, lit: Seq<char>) -> Seq<char> {
    if key == "opacity"@ || key == "zIndex"@ || key == "flex"@ {
        lit
    } else if float_syntax(lit) && !lit.contains('.') {
        lit + "px"@
    } else {
        lit
    }
}

pub open spec fn props_view(v: Seq<ObjProp>) -> Seq<(Option<Seq<char>>, Option<Seq<char>>)> {
    v.map_values(
        |p: ObjProp|
            (
                match p.key {
                    Some(k) => Some(k@),
                    None => None,
                },
                match p.literal {
                    Some(l) => Some(l@),
                    None => None,
                },
            ),
    )
}

/// The constant and the computed properties of a style object, its
/// properties taken in order.
pub open spec fn split_props(ps: Seq<(Option<Seq<char>>, Option<Seq<char>>)>) -> (Seq<(Seq<char>, Seq<char>)>, Seq<Seq<char>>)
    decreases ps.len(),
{
    if ps.len() == 0 {
        (Seq::empty(), Seq::empty())
    } else {
        let (c, d) = split_props(ps.drop_last());
        let p = ps.last();
        match p.0 {
            Some(k) => match p.1 {
                Some(lit) => (map_insert(c, k, css_value(k, lit)), d),
                None => (c, set_insert(d, k)),
            },
            None => (c, set_insert(d, "__computed_key__"@)),
        }
    }
}


proof fn lemma_map_insert_unique(m: Seq<(Seq<char>, Seq<char>)>, k: Seq<char>, v: Seq<char>)
    requires
        unique_keys(m),
    ensures
        unique_keys(map_insert(m, k, v)),
{
    let r = map_insert(m, k, v);
    if exists|i: int| 0 <= i < m.len() && (#[trigger] m[i]).0 == k {
        let i = choose|i: int| 0 <= i < m.len() && (#[trigger] m[i]).0 == k;
        assert forall|a: int, b: int| 0 <= a < b < r.len() implies (#[trigger] r[a]).0 != (#[trigger] r[b]).0 by {
            assert(r[a].0 == m[a].0);
            assert(r[b].0 == m[b].0);
        }
    } else {
        assert forall|a: int, b: int| 0 <= a < b < r.len() implies (#[trigger] r[a]).0 != (#[trigger] r[b]).0 by {
            if b < m.len() {
                assert(r[a] == m[a]);
                assert(r[b] == m[b]);
            } else {
                assert(r[a] == m[a]);
            }
        }
    }
}

/// Inserts `k` with `v` into the pairs `m`.
fn insert_pair(m: &mut Vec<(String, String)>, k: String, v: String)
    requires
        unique_keys(pairs(old(m)@)),
    ensures
        pairs(final(m)@) == map_insert(pairs(old(m)@), k@, v@),
        unique_keys(pairs(final(m)@)),
{
    proof {
        lemma_map_insert_unique(pairs(m@), k@, v@);
    }
    let ghost pm = pairs(m@);
    let kc = to_chars(k.as_str());
    let mut i: usize = 0;
    while i < m.len()
        invariant
            i <= m@.len(),
            pm == pairs(m@),
            unique_keys(pm),
            m@ == old(m)@,
            kc@ == k@,
            forall|j: int| 0 <= j < i ==> (#[trigger] pm[j]).0 != k@,
        decreases m.len() - i,
    {
        let a = to_chars(m[i].0.as_str());
        if chars_eq(a.as_slice(), kc.as_slice()) {
            assert(pm[i as int].0 == k@);
            let ghost w = choose|w: int| 0 <= w < pm.len() && (#[trigger] pm[w]).0 == k@;
            assert(pm[w].0 == k@);
            assert(w == i) by {
                if w < i {
                    assert(pm[w].0 != pm[i as int].0);
                } else if w > i {
                    assert(pm[i as int].0 != pm[w].0);
                }
            }
            m.set(i, (k, v));
            assert(pairs(m@) =~= pm.update(i as int, (k@, v@)));
            return;
        }
        i = i + 1;
    }
    m.push((k, v));
    assert(pairs(m@) =~= pm.push((k@, v@)));
}

/// Inserts `k` into the set `s`.
fn insert_name(s: &mut Vec<String>, k: String)
    ensures
        strings(final(s)@) == set_insert(strings(old(s)@), k@),
{
    let ghost ss = strings(s@);
    let kc = to_chars(k.as_str());
    let mut i: usize = 0;
    while i < s.len()
        invariant
            i <= s@.len(),
            ss == strings(s@),
            s@ == old(s)@,
            kc@ == k@,
            forall|j: int| 0 <= j < i ==> (#[trigger] ss[j]) != k@,
        decreases s.len() - i,
    {
        let a = to_chars(s[i].as_str());
        if chars_eq(a.as_slice(), kc.as_slice()) {
            assert(ss[i as int] == k@);
            assert(ss.contains(k@));
            return;
        }
        i = i + 1;
    }
    assert(!ss.contains(k@));
    s.push(k);
    assert(strings(s@) =~= ss.push(k@));
}

/// The CSS value for property `key` with literal text `lit`.
pub fn css_value_of(key: &str, lit: &str) -> (r: String)
    ensures
        r@ == css_value(key@, lit@),
{
    let k = to_chars(key);
    let l = to_chars(lit);
    if crate::text::is_word(k.as_slice(), "opacity") || crate::text::is_word(k.as_slice(), "zIndex")
        || crate::text::is_word(k.as_slice(), "flex") {
        lit.to_owned()
    } else if crate::scalar::is_float_text(l.as_slice()) && !crate::text::contains_char(l.as_slice(), '.') {
        str_concat(lit, "px")
    } else {
        lit.to_owned()
    }
}

/// The constant properties (with CSS values) and the computed ones of a
/// style object.
pub fn extract_object_properties(props: &Vec<ObjProp>) -> (r: (Vec<(String, String)>, Vec<String>))
    ensures
        (pairs(r.0@), strings(r.1@)) == split_props(props_view(props@)),
        unique_keys(pairs(r.0@)),
{
    let ghost pv = props_view(props@);
    let mut cs: Vec<(String, String)> = Vec::new();
    let mut ds: Vec<String> = Vec::new();
    let mut i: usize = 0;
    assert(pv.take(0) =~= Seq::<(Option<Seq<char>>, Option<Seq<char>>)>::empty());
    while i < props.len()
        invariant
            i <= props@.len(),
            pv == props_view(props@),
            (pairs(cs@), strings(ds@)) == split_props(pv.take(i as int)),
            unique_keys(pairs(cs@)),
        decreases props.len() - i,
    {
        assert(pv.take(i + 1).drop_last() =~= pv.take(i as int));
        assert(pv.take(i + 1).last() == pv[i as int]);
        match &props[i].key {
            Some(k) => match &props[i].literal {
                Some(lit) => {
                    let v = css_value_of(k.as_str(), lit.as_str());
                    insert_pair(&mut cs, k.clone(), v);
                },
                None => {
                    insert_name(&mut ds, k.clone());
                },
            },
            None => {
                insert_name(&mut ds, "__computed_key__".to_owned());
            },
        }
        i = i + 1;
    }
    assert(pv.take(props@.len() as int) =~= pv);
    (cs, ds)
}

// ---------------------------------------------------------------- attribute range

/// A character that ends the attribute going backwards.
pub open spec fn stops_back(c: char) -> bool {
    c == ' ' || c == '\t' || c == '\n' || c == '<' || c == '{'
}

/// A character that ends the attribute going forwards.
pub open spec fn stops_fwd(c: char) -> bool {
    c == ' ' || c == '\t' || c == '\n' || c == '>' || c == '/' || c == '}'
}

/// The `i`-th character (`chars().nth(i)`), a space past the end.
pub open spec fn nth_or_space(s: Seq<char>, i: int) -> char {
    if 0 <= i < s.len() {
        s[i]
    } else {
        ' '
    }
}

/// Moves `start` back while the character before it is not a stop.
pub open spec fn scan_back(s: Seq<char>, start: nat) -> nat
    decreases start,
{
    if start == 0 || stops_back(nth_or_space(s, start - 1)) {
        start
    } else {
        scan_back(s, (start - 1) as nat)
    }
}

/// Moves `end` forward, up to `limit`, while its character is not a stop.
pub open spec fn scan_fwd(s: Seq<char>, end: nat, limit: nat) -> nat
    decreases limit - end,
{
    if end >= limit || stops_fwd(nth_or_space(s, end as int)) {
        end
    } else {
        scan_fwd(s, end + 1, limit)
    }
}

/// `str::len`: the byte length of the UTF-8 text.
pub open spec fn byte_len(s: Seq<char>) -> usize {
    blen(s) as usize
}

/// The attribute's range widened to the surrounding separators. The
/// positions go by characters while the end is bounded by the byte length,
/// as in the parser.
pub fn find_full_attribute_range(source: &str, attr_start: usize, attr_end: usize) -> (r: (usize, usize))
    ensures
        r.0 == scan_back(source@, attr_start as nat),
        r.1 == scan_fwd(source@, attr_end as nat, byte_len(source@) as nat),
{
    let cs = to_chars(source);
    let limit = source.len();
    assert(limit == byte_len(source@));
    let mut start = attr_start;
    while start > 0
        invariant
            cs@ == source@,
            scan_back(source@, start as nat) == scan_back(source@, attr_start as nat),
        ensures
            start == scan_back(source@, attr_start as nat),
        decreases start,
    {
        let ch = if start - 1 < cs.len() { cs[start - 1] } else { ' ' };
        if ch == ' ' || ch == '\t' || ch == '\n' || ch == '<' || ch == '{' {
            break;
        }
        start = start - 1;
    }
    let mut end = attr_end;
    while end < limit
        invariant
            cs@ == source@,
            limit == byte_len(source@),
            scan_fwd(source@, end as nat, limit as nat) == scan_fwd(source@, attr_end as nat, limit as nat),
        ensures
            end == scan_fwd(source@, attr_end as nat, limit as nat),
        decreases limit - end,
    {
        let ch = if end < cs.len() { cs[end] } else { ' ' };
        if ch == ' ' || ch == '\t' || ch == '\n' || ch == '>' || ch == '/' || ch == '}' {
            break;
        }
        end = end + 1;
    }
    (start, end)
}


// ---------------------------------------------------------------- outside text functions

#[verifier::external_type_specification]
#[verifier::external_body]
pub struct ExRegexError(regex::Error);

/// What `Regex::new(pattern)` followed by `replace_all(text, rep)` gives:
/// the text with every match replaced (`$n` in `rep` standing for group
/// `n`), or nothing when the pattern does not compile.
pub uninterp spec fn regex_replace_all(pattern: Seq<char>, text: Seq<char>, rep: Seq<char>) -> Option<Seq<char>>;

/// The regex crate compiles `pattern` and replaces all its matches in
/// `text` by `rep`; the outcome is named [`regex_replace_all`], a function
/// of the three texts.
#[verifier::external_body]
fn regex_replace(pattern: &str, text: &str, rep: &str) -> (r: Result<String, regex::Error>)
    ensures
        match r {
            Ok(s) => regex_replace_all(pattern@, text@, rep@) == Some(s@),
            Err(_) => regex_replace_all(pattern@, text@, rep@) is None,
        },
{
    match regex::Regex::new(pattern) {
        Ok(re) => Ok(re.replace_all(text, rep).into_owned()),
        Err(e) => Err(e),
    }
}

/// `str::to_lowercase` (Unicode lower case).
pub uninterp spec fn lowercase(s: Seq<char>) -> Seq<char>;

/// `str::to_lowercase`; its result is named [`lowercase`].
#[verifier::external_body]
fn to_lower(s: &str) -> (r: String)
    ensures
        r@ == lowercase(s@),
{
    s.to_lowercase()
}

/// `Path::file_stem` of a path: the stem of its final component.
pub open spec fn path_stem(path: Seq<char>) -> Option<Seq<char>> {
    match file_name_of(path) {
        Some(n) => Some(stem_of(n)),
        None => None,
    }
}

/// `Path::new(path).file_stem()` as text (the stem of a `&str` path is
/// valid UTF-8): the text before the last dot of the final component,
/// or all of it when the only dot comes first or there is none; none
/// when there is no final component ([`path_stem`]).
#[verifier::external_body]
fn file_stem(path: &str) -> (r: Option<String>)
    ensures
        match r {
            Some(s) => path_stem(path@) == Some(s@),
            None => path_stem(path@) is None,
        },
{
    match std::path::Path::new(path).file_stem() {
        Some(s) => match s.to_str() {
            Some(t) => Some(t.to_owned()),
            None => None,
        },
        None => None,
    }
}

/// Why a conversion failed: a regular expression built from a property
/// name did not compile.
#[derive(Debug, Clone, PartialEq, Eq)]
pub enum JsxError {
    BadPattern(String),
}


// ---------------------------------------------------------------- files

/// `Path::extension` of a path: the extension of its final component.
pub open spec fn path_extension(path: Seq<char>) -> Option<Seq<char>> {
    match file_name_of(path) {
        Some(n) => extension_of(n),
        None => None,
    }
}

/// `Path::new(path).extension()` as text (a `&str` path's extension is
/// valid UTF-8): the text after the last dot of the final component,
/// none when the only dot comes first, there is none, or there is no
/// final component ([`path_extension`]).
#[verifier::external_body]
fn file_extension(path: &str) -> (r: Option<String>)
    ensures
        match r {
            Some(s) => path_extension(path@) == Some(s@),
            None => path_extension(path@) is None,
        },
{
    match std::path::Path::new(path).extension() {
        Some(e) => match e.to_str() {
            Some(t) => Some(t.to_owned()),
            None => None,
        },
        None => None,
    }
}

/// The extensions of the components the converter takes.
pub open spec fn supported_extension(e: Seq<char>) -> bool {
    e == "tsx"@ || e == "jsx"@ || e == "ts"@ || e == "js"@
}

/// A component file must have no extension or a supported one.
pub fn check_extension(path: &str) -> (r: Result<(), String>)
    ensures
        match path_extension(path@) {
            Some(e) => if supported_extension(e) {
                r is Ok
            } else {
                r matches Err(m) && m@ == "Unsupported file extension: "@ + debug_text(e)
            },
            None => r is Ok,
        },
{
    match file_extension(path) {
        Some(e) => {
            let c = to_chars(e.as_str());
            let t = c.as_slice();
            if crate::text::is_word(t, "tsx") || crate::text::is_word(t, "jsx") || crate::text::is_word(t, "ts")
                || crate::text::is_word(t, "js") {
                Ok(())
            } else {
                Err(str_concat("Unsupported file extension: ", debug_string(e.as_str()).as_str()))
            }
        },
        None => Ok(()),
    }
}

/// The CSS module written for a component: `<stem>.module.css`; none when
/// the path has no file stem.
pub fn css_file_name(path: &str) -> (r: Option<String>)
    ensures
        match path_stem(path@) {
            Some(s) => r matches Some(n) && n@ == s + ".module.css"@,
            None => r is None,
        },
{
    match file_stem(path) {
        Some(s) => Some(str_concat(s.as_str(), ".module.css")),
        None => None,
    }
}

/// The backup of a component: `<stem>.<extension>.bak`, the extension
/// `tsx` when there is none; none when the path has no file stem.
pub fn backup_file_name(path: &str) -> (r: Option<String>)
    ensures
        match path_stem(path@) {
            Some(s) => r matches Some(n) && n@ == s + seq!['.'] + match path_extension(path@) {
                Some(e) => e,
                None => "tsx"@,
            } + ".bak"@,
            None => r is None,
        },
{
    match file_stem(path) {
        Some(s) => {
            let e = match file_extension(path) {
                Some(e) => e,
                None => "tsx".to_owned(),
            };
            let mut v = to_chars(s.as_str());
            v.push('.');
            push_str(&mut v, e.as_str());
            push_str(&mut v, ".bak");
            Some(from_chars(v.as_slice()))
        },
        None => None,
    }
}

/// How many mappings have no computed property.
pub open spec fn constant_only(ms: Seq<StyleMapping>) -> nat
    decreases ms.len(),
{
    if ms.len() == 0 {
        0
    } else {
        constant_only(ms.drop_last()) + if ms.last().dynamic_props@.len() == 0 { 1nat } else { 0nat }
    }
}

/// The number of mappings with constant properties only, and of mixed
/// ones.
pub fn style_counts(mappings: &Vec<StyleMapping>) -> (r: (usize, usize))
    ensures
        r.0 == constant_only(mappings@),
        r.0 + r.1 == mappings@.len(),
{
    let mut c: usize = 0;
    let mut i: usize = 0;
    while i < mappings.len()
        invariant
            i <= mappings@.len(),
            c == constant_only(mappings@.take(i as int)),
            c <= i,
        decreases mappings.len() - i,
    {
        assert(mappings@.take(i + 1).drop_last() =~= mappings@.take(i as int));
        if mappings[i].dynamic_props.len() == 0 {
            c = c + 1;
        }
        i = i + 1;
    }
    assert(mappings@.take(mappings.len() as int) =~= mappings@);
    (c, mappings.len() - c)
}

// ---------------------------------------------------------------- extraction

/// The mapping recorded for a `style` object on an element: the tag
/// (lower case, `div` for a non-identifier name), the split properties and
/// the widened range; none when no property is constant.
pub open spec fn mapping_spec(tag: Option<Seq<char>>, ps: Seq<(Option<Seq<char>>, Option<Seq<char>>)>, source: Seq<char>, span_start: nat, span_end: nat) -> Option<(Seq<char>, Seq<(Seq<char>, Seq<char>)>, Seq<Seq<char>>, nat, nat)> {
    let (c, d) = split_props(ps);
    if c.len() == 0 {
        None
    } else {
        let t = match tag {
            Some(n) => lowercase(n),
            None => "div"@,
        };
        Some((t, c, d, scan_back(source, span_start), scan_fwd(source, span_end, byte_len(source) as nat)))
    }
}

pub open spec fn mapping_view(m: StyleMapping) -> (Seq<char>, Seq<(Seq<char>, Seq<char>)>, Seq<Seq<char>>, nat, nat) {
    (m.tag_name@, pairs(m.const_props@), strings(m.dynamic_props@), m.start as nat, m.end as nat)
}

/// The mapping for the `style={{…}}` attribute spanning `span_start ..
/// span_end` of an element named `tag` (none for a non-identifier name).
pub fn mapping_for(tag: Option<&str>, props: &Vec<ObjProp>, source: &str, span_start: usize, span_end: usize) -> (r: Option<StyleMapping>)
    ensures
        match r {
            Some(m) => mapping_spec(
                match tag {
                    Some(t) => Some(t@),
                    None => None,
                },
                props_view(props@),
                source@,
                span_start as nat,
                span_end as nat,
            ) == Some(mapping_view(m)) && unique_keys(pairs(m.const_props@)),
            None => mapping_spec(
                match tag {
                    Some(t) => Some(t@),
                    None => None,
                },
                props_view(props@),
                source@,
                span_start as nat,
                span_end as nat,
            ) is None,
        },
{
    let (cs, ds) = extract_object_properties(props);
    if cs.len() == 0 {
        return None;
    }
    let tag_name = match tag {
        Some(n) => to_lower(n),
        None => "div".to_owned(),
    };
    let (start, end) = find_full_attribute_range(source, span_start, span_end);
    Some(StyleMapping { tag_name, const_props: cs, dynamic_props: ds, start, end })
}

// ---------------------------------------------------------------- rule names

/// Count recorded for `tag`, 0 if none.
pub open spec fn count_of(counter: Seq<(Seq<char>, nat)>, tag: Seq<char>) -> nat
    decreases counter.len(),
{
    if counter.len() == 0 {
        0
    } else if counter.last().0 == tag {
        counter.last().1
    } else {
        count_of(counter.drop_last(), tag)
    }
}

pub open spec fn counter_view(v: Seq<(String, usize)>) -> Seq<(Seq<char>, nat)> {
    v.map_values(|p: (String, usize)| (p.0@, p.1 as nat))
}

/// The next rule name for `tag`: the tag followed by how many names it
/// has had so far, this one included.
pub fn generate_rule_name(tag: &str, counter: &mut Vec<(String, usize)>) -> (r: String)
    requires
        count_of(counter_view(old(counter)@), tag@) < usize::MAX,
    ensures
        count_of(counter_view(final(counter)@), tag@) == count_of(counter_view(old(counter)@), tag@) + 1,
        forall|t: Seq<char>| t != tag@ ==> count_of(counter_view(final(counter)@), t) == count_of(
            counter_view(old(counter)@),
            t,
        ),
        r@ == tag@ + dec(count_of(counter_view(old(counter)@), tag@) + 1),
{
    let ghost cv = counter_view(counter@);
    let tc = to_chars(tag);
    let mut i: usize = counter.len();
    let mut found: Option<usize> = None;
    assert(cv.take(counter@.len() as int) =~= cv);
    while i > 0
        invariant_except_break
            found is None,
        invariant
            i <= counter@.len(),
            cv == counter_view(counter@),
            counter@ == old(counter)@,
            tc@ == tag@,
            count_of(cv, tag@) == count_of(cv.take(i as int), tag@),
            forall|k: int| i <= k < cv.len() ==> (#[trigger] cv[k]).0 != tag@,
        ensures
            match found {
                Some(j) => j < cv.len() && cv[j as int].0 == tag@ && count_of(cv, tag@) == cv[j as int].1 && (
                forall|k: int| j < k < cv.len() ==> (#[trigger] cv[k]).0 != tag@),
                None => count_of(cv, tag@) == 0,
            },
        decreases i,
    {
        let k = i - 1;
        assert(cv.take(i as int).drop_last() =~= cv.take(k as int));
        assert(cv.take(i as int).last() == cv[k as int]);
        let a = to_chars(counter[k].0.as_str());
        if chars_eq(a.as_slice(), tc.as_slice()) {
            found = Some(k);
            break;
        }
        i = k;
    }
    let n = match found {
        Some(j) => {
            let c = counter[j].1 + 1;
            let key = counter[j].0.clone();
            counter.set(j, (key, c));
            assert(counter_view(counter@) =~= cv.update(j as int, (tag@, c as nat)));
            proof {
                lemma_count_update(cv, j as int, tag@, c as nat);
            }
            c
        },
        None => {
            counter.push((tag.to_owned(), 1));
            assert(counter_view(counter@) =~= cv.push((tag@, 1nat)));
            proof {
                lemma_count_push(cv, tag@, 1);
            }
            1
        },
    };
    let mut v = to_chars(tag);
    push_all(&mut v, fmt_u64(n as u64).as_slice());
    from_chars(v.as_slice())
}

proof fn lemma_count_push(cv: Seq<(Seq<char>, nat)>, tag: Seq<char>, n: nat)
    ensures
        count_of(cv.push((tag, n)), tag) == n,
        forall|t: Seq<char>| t != tag ==> count_of(cv.push((tag, n)), t) == count_of(cv, t),
{
    assert(cv.push((tag, n)).drop_last() =~= cv);
}

/// Updating the last entry for `tag` sets its count and keeps the others.
proof fn lemma_count_update(cv: Seq<(Seq<char>, nat)>, j: int, tag: Seq<char>, n: nat)
    requires
        0 <= j < cv.len(),
        cv[j].0 == tag,
        count_of(cv, tag) == cv[j].1,
        forall|k: int| j < k < cv.len() ==> cv[k].0 != tag,
    ensures
        count_of(cv.update(j, (tag, n)), tag) == n,
        forall|t: Seq<char>| t != tag ==> count_of(cv.update(j, (tag, n)), t) == count_of(cv, t),
    decreases cv.len(),
{
    let u = cv.update(j, (tag, n));
    if j == cv.len() - 1 {
        assert(u.drop_last() =~= cv.drop_last());
        assert forall|t: Seq<char>| t != tag implies count_of(u, t) == count_of(cv, t) by {
            assert(u.last().0 == tag);
            assert(cv.last().0 == tag);
        }
    } else {
        let init = cv.drop_last();
        assert(u.drop_last() =~= init.update(j, (tag, n)));
        assert(u.last() == cv.last());
        assert(cv.last().0 != tag);
        assert forall|k: int| j < k < init.len() implies init[k].0 != tag by {
            assert(init[k] == cv[k]);
        }
        lemma_count_update(init, j, tag, n);
        assert forall|t: Seq<char>| t != tag implies count_of(u, t) == count_of(cv, t) by {
            if cv.last().0 != t {
                assert(count_of(u, t) == count_of(u.drop_last(), t));
                assert(count_of(cv, t) == count_of(init, t));
            }
        }
    }
}


// ---------------------------------------------------------------- cleaning style text

/// Leftover separators tidied: `, }`, `{ ,`, `, ,`, `,,`, `{ ` and ` }`
/// collapsed; an empty style object becomes `{}`.
pub open spec fn clean_spec(s: Seq<char>) -> Seq<char> {
    let r = replaced(
        replaced(
            replaced(replaced(replaced(replaced(s, ", }"@, "}"@), "{ ,"@, "{"@), ", ,"@, ","@), ",,"@, ","@),
            "{ "@,
            "{"@,
        ),
        " }"@,
        "}"@,
    );
    if trim(r) == "style={}"@ || trim(r) == "{}"@ {
        "{}"@
    } else {
        r
    }
}

fn replace_str(s: &[char], from: &str, to: &str) -> (r: Vec<char>)
    requires
        from@.len() > 0,
    ensures
        r@ == replaced(s@, from@, to@),
{
    replace_chars(s, from, to)
}

/// Tidies a style attribute's text.
pub fn clean_style_object(style: &str) -> (r: String)
    ensures
        r@ == clean_spec(style@),
{
    proof {
        reveal_strlit(", }");
        reveal_strlit("{ ,");
        reveal_strlit(", ,");
        reveal_strlit(",,");
        reveal_strlit("{ ");
        reveal_strlit(" }");
    }
    let s0 = to_chars(style);
    let s1 = replace_str(s0.as_slice(), ", }", "}");
    let s2 = replace_str(s1.as_slice(), "{ ,", "{");
    let s3 = replace_str(s2.as_slice(), ", ,", ",");
    let s4 = replace_str(s3.as_slice(), ",,", ",");
    let s5 = replace_str(s4.as_slice(), "{ ", "{");
    let s6 = replace_str(s5.as_slice(), " }", "}");
    let t = trim_chars(s6.as_slice());
    if crate::text::is_word(t.as_slice(), "style={}") || crate::text::is_word(t.as_slice(), "{}") {
        "{}".to_owned()
    } else {
        from_chars(s6.as_slice())
    }
}

/// The pattern matching property `k` with any value.
pub open spec fn any_value_pattern(k: Seq<char>) -> Seq<char> {
    k + "\\s*:\\s*[^,}]+[,}]"@
}

/// The pattern matching property `k` with a quoted value.
pub open spec fn quoted_pattern(k: Seq<char>) -> Seq<char> {
    k + "\\s*:\\s*['\"][^'\"]+['\"][,}]"@
}

/// The style text with the properties `keys[i..]` removed by both patterns
/// in turn; the first pattern that does not compile is the error.
pub open spec fn strip_props(s: Seq<char>, keys: Seq<Seq<char>>, i: int) -> Result<Seq<char>, Seq<char>>
    decreases keys.len() - i,
{
    if i < 0 || i >= keys.len() {
        Ok(s)
    } else {
        let p1 = any_value_pattern(keys[i]);
        let p2 = quoted_pattern(keys[i]);
        match regex_replace_all(p1, s, Seq::empty()) {
            None => Err(p1),
            Some(s1) => match regex_replace_all(p2, s1, Seq::empty()) {
                None => Err(p2),
                Some(s2) => strip_props(s2, keys, i + 1),
            },
        }
    }
}

/// After stripping: separators tidied, `{}` dropped, trimmed; nothing left
/// (or an empty object) reads `{}`.
pub open spec fn after_strip(s: Seq<char>) -> Seq<char> {
    let r = trim(
        replaced(
            replaced(replaced(replaced(replaced(s, ", }"@, "}"@), "{ ,"@, "{"@), ", ,"@, ","@), ",,"@, ","@),
            "{}"@,
            Seq::empty(),
        ),
    );
    if r == "style={}"@ || r == "{}"@ || r.len() == 0 {
        "{}"@
    } else {
        r
    }
}

pub open spec fn keys_of(m: Seq<(Seq<char>, Seq<char>)>) -> Seq<Seq<char>> {
    m.map_values(|p: (Seq<char>, Seq<char>)| p.0)
}

/// The style text without the constant properties.
pub open spec fn remove_spec(s: Seq<char>, props: Seq<(Seq<char>, Seq<char>)>) -> Result<Seq<char>, Seq<char>> {
    match strip_props(s, keys_of(props), 0) {
        Ok(r) => Ok(after_strip(r)),
        Err(p) => Err(p),
    }
}

/// Removes the constant properties from a style attribute's text.
pub fn remove_const_props(style_content: &str, const_props: &Vec<(String, String)>) -> (r: Result<String, JsxError>)
    ensures
        match r {
            Ok(t) => remove_spec(style_content@, pairs(const_props@)) == Ok::<Seq<char>, Seq<char>>(t@),
            Err(JsxError::BadPattern(p)) => remove_spec(style_content@, pairs(const_props@)) == Err::<
                Seq<char>,
                Seq<char>,
            >(p@),
        },
{
    let ghost keys = keys_of(pairs(const_props@));
    let mut result = style_content.to_owned();
    let mut i: usize = 0;
    while i < const_props.len()
        invariant
            i <= const_props@.len(),
            keys == keys_of(pairs(const_props@)),
            strip_props(style_content@, keys, 0) == strip_props(result@, keys, i as int),
        decreases const_props.len() - i,
    {
        let p1 = str_concat(const_props[i].0.as_str(), "\\s*:\\s*[^,}]+[,}]");
        let p2 = str_concat(const_props[i].0.as_str(), "\\s*:\\s*['\"][^'\"]+['\"][,}]");
        assert(keys[i as int] == const_props@[i as int].0@);
        proof {
            reveal_strlit("");
            assert(""@ =~= Seq::<char>::empty());
            assert(p1@ == any_value_pattern(keys[i as int]));
            assert(p2@ == quoted_pattern(keys[i as int]));
        }
        match regex_replace(p1.as_str(), result.as_str(), "") {
            Ok(s1) => match regex_replace(p2.as_str(), s1.as_str(), "") {
                Ok(s2) => {
                    result = s2;
                },
                Err(_) => {
                    return Err(JsxError::BadPattern(p2));
                },
            },
            Err(_) => {
                return Err(JsxError::BadPattern(p1));
            },
        }
        i = i + 1;
    }
    proof {
        reveal_strlit(", }");
        reveal_strlit("{ ,");
        reveal_strlit(", ,");
        reveal_strlit(",,");
        reveal_strlit("{}");
        reveal_strlit("");
        assert(""@ =~= Seq::<char>::empty());
        assert(keys.len() == const_props@.len());
    }
    let c0 = to_chars(result.as_str());
    let c1 = replace_str(c0.as_slice(), ", }", "}");
    let c2 = replace_str(c1.as_slice(), "{ ,", "{");
    let c3 = replace_str(c2.as_slice(), ", ,", ",");
    let c4 = replace_str(c3.as_slice(), ",,", ",");
    let c5 = replace_str(c4.as_slice(), "{}", "");
    let t = trim_chars(c5.as_slice());
    if crate::text::is_word(t.as_slice(), "style={}") || crate::text::is_word(t.as_slice(), "{}") || t.len() == 0 {
        Ok("{}".to_owned())
    } else {
        Ok(from_chars(t.as_slice()))
    }
}


// ---------------------------------------------------------------- rewriting the source

/// How rewriting a source ends: with the new text, with a pattern that did
/// not compile, or (for byte ranges that cut a character, or run
/// backwards) with a panic.
pub enum Outcome {
    Done(Seq<char>),
    Failed(Seq<char>),
    Panics,
}

pub open spec fn mviews(ms: Seq<StyleMapping>) -> Seq<(Seq<char>, Seq<(Seq<char>, Seq<char>)>, Seq<Seq<char>>, nat, nat)> {
    ms.map_values(|m: StyleMapping| mapping_view(m))
}

/// How many of `tags[j..]` equal `t`.
pub open spec fn count_from(tags: Seq<Seq<char>>, t: Seq<char>, j: int) -> nat
    decreases tags.len() - j,
{
    if j < 0 || j >= tags.len() {
        0
    } else {
        (if tags[j] == t { 1nat } else { 0nat }) + count_from(tags, t, j + 1)
    }
}

pub open spec fn tags_of(ms: Seq<(Seq<char>, Seq<(Seq<char>, Seq<char>)>, Seq<Seq<char>>, nat, nat)>) -> Seq<Seq<char>> {
    ms.map_values(|m: (Seq<char>, Seq<(Seq<char>, Seq<char>)>, Seq<Seq<char>>, nat, nat)| m.0)
}

/// The `className` attribute for rule `name`.
pub open spec fn class_attr(name: Seq<char>) -> Seq<char> {
    "className={classes."@ + name + "}"@
}

/// Rewriting one attribute of `r`: a range outside the text, or one
/// without `style` in it, is left alone; a wholly constant style becomes a
/// class name; a mixed one keeps its computed properties beside the class.
pub open spec fn step_spec(r: Seq<char>, m: (Seq<char>, Seq<(Seq<char>, Seq<char>)>, Seq<Seq<char>>, nat, nat), name: Seq<char>) -> Outcome {
    let len = byte_len(r) as nat;
    if m.3 >= len || m.4 > len {
        Outcome::Done(r)
    } else {
        match (char_index(r, m.3 as int), char_index(r, m.4 as int)) {
            (Some(cs), Some(ce)) => if cs > ce {
                Outcome::Panics
            } else {
                let attr = r.subrange(cs, ce);
                if !has_infix(attr, "style"@) {
                    Outcome::Done(r)
                } else if m.2.len() > 0 {
                    match remove_spec(attr, m.1) {
                        Err(p) => Outcome::Failed(p),
                        Ok(ns) => {
                            let cl = clean_spec(ns);
                            let rep = if trim(cl) == "style={}"@ || trim(cl) == "{}"@ {
                                class_attr(name)
                            } else {
                                cl + " "@ + class_attr(name)
                            };
                            Outcome::Done(r.take(cs) + rep + r.skip(ce))
                        },
                    }
                } else {
                    Outcome::Done(r.take(cs) + class_attr(name) + r.skip(ce))
                }
            },
            _ => Outcome::Panics,
        }
    }
}

/// The rule name the rewrite gives attribute `i`: its tag, numbered by how
/// many attributes of that tag come from `i` on (the last one is 1).
pub open spec fn class_rule_name(ms: Seq<(Seq<char>, Seq<(Seq<char>, Seq<char>)>, Seq<Seq<char>>, nat, nat)>, i: int) -> Seq<char> {
    ms[i].0 + dec(1 + count_from(tags_of(ms), ms[i].0, i + 1))
}

/// The source after rewriting the attributes `ms[i..]`, last one first;
/// each gets a rule name numbered per tag in that order.
pub open spec fn rewrite_from(ms: Seq<(Seq<char>, Seq<(Seq<char>, Seq<char>)>, Seq<Seq<char>>, nat, nat)>, source: Seq<char>, i: int) -> Outcome
    decreases ms.len() - i,
{
    if i < 0 || i >= ms.len() {
        Outcome::Done(source)
    } else {
        match rewrite_from(ms, source, i + 1) {
            Outcome::Done(r) => step_spec(r, ms[i], class_rule_name(ms, i)),
            o => o,
        }
    }
}

proof fn lemma_count_from_bound(tags: Seq<Seq<char>>, t: Seq<char>, j: int)
    requires
        0 <= j <= tags.len(),
    ensures
        count_from(tags, t, j) <= tags.len() - j,
    decreases tags.len() - j,
{
    if j < tags.len() {
        lemma_count_from_bound(tags, t, j + 1);
    }
}

/// An ending other than `Done` carries on to the whole rewrite.
proof fn lemma_rewrite_stops(ms: Seq<(Seq<char>, Seq<(Seq<char>, Seq<char>)>, Seq<Seq<char>>, nat, nat)>, source: Seq<char>, j: int)
    requires
        0 <= j <= ms.len(),
        !(rewrite_from(ms, source, j) is Done),
    ensures
        rewrite_from(ms, source, 0) == rewrite_from(ms, source, j),
    decreases j,
{
    if j > 0 {
        assert(rewrite_from(ms, source, j - 1) == rewrite_from(ms, source, j));
        lemma_rewrite_stops(ms, source, j - 1);
    }
}

/// Rewrites the style attributes of `source` into class names, the last
/// attribute first; none where a byte range would cut a character or run
/// backwards.
pub fn try_transform_jsx(source: &str, mappings: &Vec<StyleMapping>) -> (r: Option<Result<String, JsxError>>)
    ensures
        match rewrite_from(mviews(mappings@), source@, 0) {
            Outcome::Done(t) => r matches Some(Ok(x)) && x@ == t,
            Outcome::Failed(p) => r matches Some(Err(JsxError::BadPattern(x))) && x@ == p,
            Outcome::Panics => r is None,
        },
{
    let ghost ms = mviews(mappings@);
    let ghost tags = tags_of(ms);
    let mut result = source.to_owned();
    let mut counter: Vec<(String, usize)> = Vec::new();
    let n = mappings.len();
    let mut k: usize = n;
    while k > 0
        invariant
            k <= n,
            n == mappings@.len(),
            ms == mviews(mappings@),
            tags == tags_of(ms),
            rewrite_from(ms, source@, k as int) == Outcome::Done(result@),
            forall|t: Seq<char>| count_of(counter_view(counter@), t) == count_from(tags, t, k as int),
        decreases k,
    {
        let i = k - 1;
        let m = &mappings[i];
        assert(ms[i as int] == mapping_view(*m));
        proof {
            lemma_count_from_bound(tags, tags[i as int], k as int);
            assert(tags[i as int] == m.tag_name@);
        }
        let ghost cv0 = counter_view(counter@);
        let name = generate_rule_name(m.tag_name.as_str(), &mut counter);
        proof {
            assert forall|t: Seq<char>| count_of(counter_view(counter@), t) == count_from(tags, t, i as int) by {
                assert(count_of(cv0, t) == count_from(tags, t, k as int));
                assert(count_from(tags, t, i as int) == (if tags[i as int] == t { 1nat } else { 0nat }) + count_from(
                    tags,
                    t,
                    k as int,
                ));
            }
        }
        let ghost before = result@;
        let len = result.as_str().len();
        if m.start >= len || m.end > len {
            k = i;
            continue;
        }
        let rc = to_chars(result.as_str());
        let cs = char_index_of(rc.as_slice(), m.start);
        let ce = char_index_of(rc.as_slice(), m.end);
        let (cs, ce) = match (cs, ce) {
            (Some(a), Some(b)) => {
                if a > b {
                    proof {
                        lemma_rewrite_stops(ms, source@, i as int);
                    }
                    return None;
                }
                (a, b)
            },
            _ => {
                proof {
                    lemma_rewrite_stops(ms, source@, i as int);
                }
                return None;
            },
        };
        let attr = crate::text::slice_chars(rc.as_slice(), cs, ce);
        let style_word = to_chars("style");
        if !contains_seq(attr.as_slice(), style_word.as_slice()) {
            k = i;
            continue;
        }
        let attr_text = from_chars(attr.as_slice());
        let mut rep_text = str_concat("className={classes.", name.as_str());
        rep_text = str_concat(rep_text.as_str(), "}");
        if m.dynamic_props.len() > 0 {
            match remove_const_props(attr_text.as_str(), &m.const_props) {
                Err(e) => {
                    proof {
                        lemma_rewrite_stops(ms, source@, i as int);
                    }
                    return Some(Err(e));
                },
                Ok(ns) => {
                    let cl = clean_style_object(ns.as_str());
                    let tc = trim_chars(to_chars(cl.as_str()).as_slice());
                    if !(crate::text::is_word(tc.as_slice(), "style={}") || crate::text::is_word(tc.as_slice(), "{}")) {
                        let with_space = str_concat(cl.as_str(), " ");
                        rep_text = str_concat(with_space.as_str(), rep_text.as_str());
                    }
                },
            }
        }
        let mut out = crate::text::slice_chars(rc.as_slice(), 0, cs);
        push_str(&mut out, rep_text.as_str());
        let tail = crate::text::slice_chars(rc.as_slice(), ce, rc.len());
        push_all(&mut out, tail.as_slice());
        assert(rc@.subrange(0, cs as int) =~= before.take(cs as int));
        assert(rc@.subrange(ce as int, rc@.len() as int) =~= before.skip(ce as int));
        result = from_chars(out.as_slice());
        k = i;
    }
    Some(Ok(result))
}

/// Rewrites the style attributes of `source` into class names, the last
/// attribute first, on mappings whose ranges fall on characters.
pub fn transform_jsx(source: &str, mappings: &Vec<StyleMapping>) -> (r: Result<String, JsxError>)
    requires
        !(rewrite_from(mviews(mappings@), source@, 0) is Panics),
    ensures
        match r {
            Ok(t) => rewrite_from(mviews(mappings@), source@, 0) == Outcome::Done(t@),
            Err(JsxError::BadPattern(p)) => rewrite_from(mviews(mappings@), source@, 0) == Outcome::Failed(p@),
        },
{
    match try_transform_jsx(source, mappings) {
        Some(r) => r,
        None => {
            assert(false);
            Ok(String::new())
        },
    }
}


// ---------------------------------------------------------------- CSS import

/// The import line for the module of `stem`.
pub open spec fn import_line(stem: Seq<char>) -> Seq<char> {
    "import classes from \"./"@ + stem + ".module.css\";"@
}

/// Where the import goes, scanning lines from `i` with the position found
/// so far: after an import of React, after any import that follows such a
/// position, and after any import among the first ten lines.
pub open spec fn import_index(ls: Seq<Seq<char>>, i: int, idx: int) -> int
    decreases ls.len() - i,
{
    if i < 0 || i >= ls.len() {
        idx
    } else {
        let line = ls[i];
        let imp = has_prefix(line, "import"@);
        let next = if imp && (has_infix(line, "React"@) || has_infix(line, "react"@)) {
            i + 1
        } else if imp && idx > 0 {
            i + 1
        } else if imp && i < 10 {
            i + 1
        } else {
            idx
        };
        import_index(ls, i + 1, next)
    }
}

/// The source with the module import added: unchanged if it already
/// mentions `module.css`; else the import goes right after the leading
/// imports found (after the last line when that line is one of them).
pub open spec fn add_import_spec(source: Seq<char>, path: Seq<char>) -> Seq<char> {
    if has_infix(source, "module.css"@) {
        source
    } else {
        let stem = match path_stem(path) {
            Some(s) => s,
            None => "styles"@,
        };
        let ls = lines_of(source);
        let idx = import_index(ls, 0, 0);
        let stmt = import_line(stem);
        join(ls.take(idx) + seq![stmt] + ls.skip(idx), seq!['\n'])
    }
}

proof fn lemma_import_index_bound(ls: Seq<Seq<char>>, i: int, idx: int)
    requires
        0 <= i <= ls.len(),
        0 <= idx <= i,
    ensures
        0 <= import_index(ls, i, idx) <= ls.len(),
    decreases ls.len() - i,
{
    if i < ls.len() {
        let line = ls[i];
        let imp = has_prefix(line, "import"@);
        let next = if imp && (has_infix(line, "React"@) || has_infix(line, "react"@)) {
            i + 1
        } else if imp && idx > 0 {
            i + 1
        } else if imp && i < 10 {
            i + 1
        } else {
            idx
        };
        lemma_import_index_bound(ls, i + 1, next);
    }
}

/// Adds the import of the CSS module named after `path` to `source`.
pub fn add_css_import(source: &str, path: &str) -> (r: Result<String, JsxError>)
    ensures
        r matches Ok(t) && t@ == add_import_spec(source@, path@),
{
    let stem = match file_stem(path) {
        Some(s) => s,
        None => "styles".to_owned(),
    };
    let stmt = str_concat(str_concat("import classes from \"./", stem.as_str()).as_str(), ".module.css\";");
    let src = to_chars(source);
    let mc = to_chars("module.css");
    if contains_seq(src.as_slice(), mc.as_slice()) {
        return Ok(source.to_owned());
    }
    let ls = lines(src.as_slice());
    let ghost lv = views(ls@);
    let imp = to_chars("import");
    let r1 = to_chars("React");
    let r2 = to_chars("react");
    let mut idx: usize = 0;
    let mut i: usize = 0;
    while i < ls.len()
        invariant
            i <= ls@.len(),
            lv == views(ls@),
            idx <= i,
            imp@ == "import"@,
            r1@ == "React"@,
            r2@ == "react"@,
            import_index(lv, 0, 0) == import_index(lv, i as int, idx as int),
        decreases ls.len() - i,
    {
        let line = ls[i].as_slice();
        let is_imp = starts_with(line, imp.as_slice());
        if is_imp && (contains_seq(line, r1.as_slice()) || contains_seq(line, r2.as_slice())) {
            idx = i + 1;
        } else if is_imp && idx > 0 {
            idx = i + 1;
        } else if is_imp && i < 10 {
            idx = i + 1;
        }
        i = i + 1;
    }
    proof {
        lemma_import_index_bound(lv, 0, 0);
    }
    let sc = to_chars(stmt.as_str());
    let mut out: Vec<Vec<char>> = Vec::new();
    let mut j: usize = 0;
    while j < idx
        invariant
            j <= idx,
            idx <= ls@.len(),
            lv == views(ls@),
            views(out@) =~= lv.take(j as int),
        decreases idx - j,
    {
        let c = crate::text::slice_chars(ls[j].as_slice(), 0, ls[j].len());
        assert(c@ =~= lv[j as int]);
        let ghost o = views(out@);
        out.push(c);
        assert(views(out@) =~= o.push(lv[j as int]));
        j = j + 1;
    }
    out.push(sc);
    let ghost mid = views(out@);
    let mut j: usize = idx;
    while j < ls.len()
        invariant
            idx <= j <= ls@.len(),
            lv == views(ls@),
            views(out@) =~= mid + lv.subrange(idx as int, j as int),
        decreases ls.len() - j,
    {
        let c = crate::text::slice_chars(ls[j].as_slice(), 0, ls[j].len());
        assert(c@ =~= lv[j as int]);
        let ghost o = views(out@);
        out.push(c);
        assert(views(out@) =~= o.push(lv[j as int]));
        j = j + 1;
    }
    assert(views(out@) =~= lv.take(idx as int) + seq![stmt@] + lv.skip(idx as int));
    let mut nl: Vec<char> = Vec::new();
    nl.push('\n');
    assert(nl@ =~= seq!['\n']);
    Ok(from_chars(crate::text::join_chars(&out, nl.as_slice()).as_slice()))
}


// ---------------------------------------------------------------- CSS

/// Strict lexicographic order of texts by character code (the order of
/// `String`).
pub open spec fn lex_lt(a: Seq<char>, b: Seq<char>) -> bool
    decreases a.len(),
{
    if a.len() == 0 {
        b.len() > 0
    } else if b.len() == 0 {
        false
    } else if a[0] != b[0] {
        (a[0] as u32) < (b[0] as u32)
    } else {
        lex_lt(a.drop_first(), b.drop_first())
    }
}

fn lex_less(a: &[char], b: &[char]) -> (r: bool)
    ensures
        r == lex_lt(a@, b@),
{
    let mut i: usize = 0;
    assert(a@.skip(0) =~= a@);
    assert(b@.skip(0) =~= b@);
    while i < a.len() && i < b.len() && a[i] == b[i]
        invariant
            i <= a.len(),
            i <= b.len(),
            lex_lt(a@, b@) == lex_lt(a@.skip(i as int), b@.skip(i as int)),
        decreases a.len() - i,
    {
        assert(a@.skip(i as int).drop_first() =~= a@.skip(i + 1));
        assert(b@.skip(i as int).drop_first() =~= b@.skip(i + 1));
        i = i + 1;
    }
    assert(a@.skip(i as int).len() == a.len() - i);
    if i < a.len() {
        assert(a@.skip(i as int)[0] == a@[i as int]);
    }
    if i < b.len() {
        assert(b@.skip(i as int)[0] == b@[i as int]);
    }
    if i == a.len() {
        i < b.len()
    } else if i == b.len() {
        false
    } else {
        (a[i] as u32) < (b[i] as u32)
    }
}

/// `x` put into the sorted `s` after every entry whose key is not greater.
pub open spec fn insert_sorted(s: Seq<(Seq<char>, Seq<char>)>, x: (Seq<char>, Seq<char>)) -> Seq<(Seq<char>, Seq<char>)>
    decreases s.len(),
{
    if s.len() == 0 {
        seq![x]
    } else if lex_lt(x.0, s[0].0) {
        seq![x] + s
    } else {
        seq![s[0]] + insert_sorted(s.drop_first(), x)
    }
}

/// The pairs sorted by key, equal keys in their order (a stable sort).
pub open spec fn sorted_by_key(ps: Seq<(Seq<char>, Seq<char>)>) -> Seq<(Seq<char>, Seq<char>)>
    decreases ps.len(),
{
    if ps.len() == 0 {
        Seq::empty()
    } else {
        insert_sorted(sorted_by_key(ps.drop_last()), ps.last())
    }
}

/// The first position from `j` whose key is greater than `k`.
pub open spec fn insert_pos(s: Seq<(Seq<char>, Seq<char>)>, k: Seq<char>, j: int) -> int
    decreases s.len() - j,
{
    if j < 0 || j >= s.len() {
        s.len() as int
    } else if lex_lt(k, s[j].0) {
        j
    } else {
        insert_pos(s, k, j + 1)
    }
}

proof fn lemma_insert_sorted(s: Seq<(Seq<char>, Seq<char>)>, x: (Seq<char>, Seq<char>))
    ensures
        0 <= insert_pos(s, x.0, 0) <= s.len(),
        insert_sorted(s, x) == s.take(insert_pos(s, x.0, 0)) + seq![x] + s.skip(insert_pos(s, x.0, 0)),
    decreases s.len(),
{
    if s.len() > 0 && !lex_lt(x.0, s[0].0) {
        let t = s.drop_first();
        lemma_insert_sorted(t, x);
        lemma_insert_pos_shift(s, x.0, 1);
        let p = insert_pos(t, x.0, 0);
        assert(insert_pos(s, x.0, 0) == p + 1);
        assert(seq![s[0]] + (t.take(p) + seq![x] + t.skip(p)) =~= s.take(p + 1) + seq![x] + s.skip(p + 1));
    } else if s.len() > 0 {
        assert(s.take(0) + seq![x] + s.skip(0) =~= seq![x] + s);
    } else {
        assert(s.take(0) + seq![x] + s.skip(0) =~= seq![x]);
    }
}

/// Positions in `s` from `j` are positions in its tail from `j - 1`.
proof fn lemma_insert_pos_shift(s: Seq<(Seq<char>, Seq<char>)>, k: Seq<char>, j: int)
    requires
        1 <= j <= s.len(),
    ensures
        insert_pos(s, k, j) == insert_pos(s.drop_first(), k, j - 1) + 1,
    decreases s.len() - j,
{
    if j < s.len() {
        assert(s.drop_first()[j - 1] == s[j]);
        if !lex_lt(k, s[j].0) {
            lemma_insert_pos_shift(s, k, j + 1);
        }
    }
}

/// The pairs sorted by key.
pub fn sort_by_key(ps: &Vec<(String, String)>) -> (r: Vec<(String, String)>)
    ensures
        pairs(r@) == sorted_by_key(pairs(ps@)),
{
    let ghost pv = pairs(ps@);
    let mut out: Vec<(String, String)> = Vec::new();
    let mut i: usize = 0;
    assert(pv.take(0) =~= Seq::<(Seq<char>, Seq<char>)>::empty());
    while i < ps.len()
        invariant
            i <= ps@.len(),
            pv == pairs(ps@),
            pairs(out@) == sorted_by_key(pv.take(i as int)),
        decreases ps.len() - i,
    {
        assert(pv.take(i + 1).drop_last() =~= pv.take(i as int));
        assert(pv.take(i + 1).last() == pv[i as int]);
        let key = to_chars(ps[i].0.as_str());
        let ghost ov = pairs(out@);
        let mut j: usize = 0;
        while j < out.len()
            invariant
                j <= out@.len(),
                ov == pairs(out@),
                key@ == pv[i as int].0,
                insert_pos(ov, key@, 0) == insert_pos(ov, key@, j as int),
            ensures
                j <= out@.len(),
                j == insert_pos(ov, key@, 0),
            decreases out.len() - j,
        {
            let k2 = to_chars(out[j].0.as_str());
            if lex_less(key.as_slice(), k2.as_slice()) {
                break;
            }
            j = j + 1;
        }
        proof {
            lemma_insert_sorted(ov, pv[i as int]);
        }
        let item = (ps[i].0.clone(), ps[i].1.clone());
        out.insert(j, item);
        assert(pairs(out@) =~= ov.take(j as int) + seq![pv[i as int]] + ov.skip(j as int));
        i = i + 1;
    }
    assert(pv.take(ps@.len() as int) =~= pv);
    out
}

/// `camelCase` → `kebab-case`: a dash before each capital that follows a
/// lower-case letter or digit, then everything lower-cased.
pub open spec fn kebab_pattern() -> Seq<char> {
    "([a-z0-9])([A-Z])"@
}

pub open spec fn kebab_spec(s: Seq<char>) -> Result<Seq<char>, Seq<char>> {
    match regex_replace_all(kebab_pattern(), s, "$1-$2"@) {
        Some(t) => Ok(lowercase(t)),
        None => Err(kebab_pattern()),
    }
}

/// Converts a camel-case property name into its CSS form.
pub fn camel_to_kebab(s: &str) -> (r: Result<String, JsxError>)
    ensures
        match r {
            Ok(t) => kebab_spec(s@) == Ok::<Seq<char>, Seq<char>>(t@),
            Err(JsxError::BadPattern(p)) => kebab_spec(s@) == Err::<Seq<char>, Seq<char>>(p@),
        },
{
    match regex_replace("([a-z0-9])([A-Z])", s, "$1-$2") {
        Ok(t) => Ok(to_lower(t.as_str())),
        Err(_) => Err(JsxError::BadPattern("([a-z0-9])([A-Z])".to_owned())),
    }
}

/// The declarations of a rule, one per property: two spaces, the property
/// in kebab case, a colon and the value.
pub open spec fn decl_lines(ps: Seq<(Seq<char>, Seq<char>)>) -> Result<Seq<Seq<char>>, Seq<char>>
    decreases ps.len(),
{
    if ps.len() == 0 {
        Ok(Seq::empty())
    } else {
        match decl_lines(ps.drop_last()) {
            Err(p) => Err(p),
            Ok(ls) => match kebab_spec(ps.last().0) {
                Err(p) => Err(p),
                Ok(k) => Ok(ls.push("  "@ + k + ": "@ + ps.last().1 + ";"@)),
            },
        }
    }
}

/// How many of the first `i` mappings with constant properties have tag `t`.
pub open spec fn count_before(ms: Seq<(Seq<char>, Seq<(Seq<char>, Seq<char>)>, Seq<Seq<char>>, nat, nat)>, t: Seq<char>, i: int) -> nat
    decreases i,
{
    if i <= 0 || i > ms.len() {
        0
    } else {
        count_before(ms, t, i - 1) + (if ms[i - 1].0 == t && ms[i - 1].1.len() > 0 { 1nat } else { 0nat })
    }
}

/// The rule name the CSS gives mapping `i`: its tag, numbered by how many
/// mappings of that tag with constant properties come before it, plus one.
pub open spec fn css_rule_name(ms: Seq<(Seq<char>, Seq<(Seq<char>, Seq<char>)>, Seq<Seq<char>>, nat, nat)>, i: int) -> Seq<char> {
    ms[i].0 + dec(count_before(ms, ms[i].0, i) + 1)
}

/// The CSS lines for the first `n` mappings: a header, then a rule per
/// mapping with constant properties, named after its tag and numbered per
/// tag, its declarations sorted by property, and a blank line.
pub open spec fn css_lines(ms: Seq<(Seq<char>, Seq<(Seq<char>, Seq<char>)>, Seq<Seq<char>>, nat, nat)>, n: int) -> Result<Seq<Seq<char>>, Seq<char>>
    decreases n,
{
    if n <= 0 || n > ms.len() {
        Ok(seq![
            "/* Автоматически сгенерировано из инлайн-стилей */"@,
            "/* Константные стили вынесены из JSX */"@,
            Seq::empty(),
        ])
    } else {
        match css_lines(ms, n - 1) {
            Err(p) => Err(p),
            Ok(ls) => {
                let m = ms[n - 1];
                if m.1.len() == 0 {
                    Ok(ls)
                } else {
                    let name = css_rule_name(ms, n - 1);
                    match decl_lines(sorted_by_key(m.1)) {
                        Err(p) => Err(p),
                        Ok(ds) => Ok(ls + seq!["."@ + name + " {"@] + ds + seq!["}"@, Seq::empty()]),
                    }
                }
            },
        }
    }
}

/// The CSS module: empty without mappings, else the lines joined.
pub open spec fn css_spec(ms: Seq<(Seq<char>, Seq<(Seq<char>, Seq<char>)>, Seq<Seq<char>>, nat, nat)>) -> Result<Seq<char>, Seq<char>> {
    if ms.len() == 0 {
        Ok(Seq::empty())
    } else {
        match css_lines(ms, ms.len() as int) {
            Ok(ls) => Ok(join(ls, seq!['\n'])),
            Err(p) => Err(p),
        }
    }
}

proof fn lemma_count_before_bound(ms: Seq<(Seq<char>, Seq<(Seq<char>, Seq<char>)>, Seq<Seq<char>>, nat, nat)>, t: Seq<char>, i: int)
    requires
        0 <= i <= ms.len(),
    ensures
        count_before(ms, t, i) <= i,
    decreases i,
{
    if i > 0 {
        lemma_count_before_bound(ms, t, i - 1);
    }
}

/// The declaration lines of a rule.
fn decls(ps: &Vec<(String, String)>) -> (r: Result<Vec<Vec<char>>, JsxError>)
    ensures
        match r {
            Ok(v) => decl_lines(pairs(ps@)) == Ok::<Seq<Seq<char>>, Seq<char>>(views(v@)),
            Err(JsxError::BadPattern(p)) => decl_lines(pairs(ps@)) == Err::<Seq<Seq<char>>, Seq<char>>(p@),
        },
{
    let ghost pv = pairs(ps@);
    let mut out: Vec<Vec<char>> = Vec::new();
    let mut i: usize = 0;
    assert(pv.take(0) =~= Seq::<(Seq<char>, Seq<char>)>::empty());
    assert(views(out@) =~= Seq::<Seq<char>>::empty());
    while i < ps.len()
        invariant
            i <= ps@.len(),
            pv == pairs(ps@),
            decl_lines(pv.take(i as int)) == Ok::<Seq<Seq<char>>, Seq<char>>(views(out@)),
        decreases ps.len() - i,
    {
        assert(pv.take(i + 1).drop_last() =~= pv.take(i as int));
        assert(pv.take(i + 1).last() == pv[i as int]);
        match camel_to_kebab(ps[i].0.as_str()) {
            Err(e) => {
                proof {
                    lemma_decl_lines_err(pv, i as int + 1);
                }
                return Err(e);
            },
            Ok(k) => {
                let mut line = to_chars("  ");
                push_str(&mut line, k.as_str());
                push_str(&mut line, ": ");
                push_str(&mut line, ps[i].1.as_str());
                push_str(&mut line, ";");
                let ghost o = views(out@);
                out.push(line);
                assert(views(out@) =~= o.push("  "@ + k@ + ": "@ + pv[i as int].1 + ";"@));
            },
        }
        i = i + 1;
    }
    assert(pv.take(ps@.len() as int) =~= pv);
    Ok(out)
}

/// An error in the first `i` declarations is the error of them all.
proof fn lemma_decl_lines_err(ps: Seq<(Seq<char>, Seq<char>)>, i: int)
    requires
        0 < i <= ps.len(),
        decl_lines(ps.take(i)) is Err,
    ensures
        decl_lines(ps) == decl_lines(ps.take(i)),
    decreases ps.len() - i,
{
    if i < ps.len() {
        assert(ps.take(i + 1).drop_last() =~= ps.take(i));
        lemma_decl_lines_err(ps, i + 1);
    } else {
        assert(ps.take(i) =~= ps);
    }
}

/// An error in the first `i` mappings is the error of them all.
proof fn lemma_css_lines_err(ms: Seq<(Seq<char>, Seq<(Seq<char>, Seq<char>)>, Seq<Seq<char>>, nat, nat)>, i: int)
    requires
        0 < i <= ms.len(),
        css_lines(ms, i) is Err,
    ensures
        css_lines(ms, ms.len() as int) == css_lines(ms, i),
    decreases ms.len() - i,
{
    if i < ms.len() {
        lemma_css_lines_err(ms, i + 1);
    }
}

/// Generates the CSS module for the mappings.
pub fn generate_css(mappings: &Vec<StyleMapping>) -> (r: Result<String, JsxError>)
    ensures
        match r {
            Ok(t) => css_spec(mviews(mappings@)) == Ok::<Seq<char>, Seq<char>>(t@),
            Err(JsxError::BadPattern(p)) => css_spec(mviews(mappings@)) == Err::<Seq<char>, Seq<char>>(p@),
        },
{
    if mappings.len() == 0 {
        return Ok(String::new());
    }
    let ghost ms = mviews(mappings@);
    let mut lines_out: Vec<Vec<char>> = Vec::new();
    lines_out.push(to_chars("/* Автоматически сгенерировано из инлайн-стилей */"));
    lines_out.push(to_chars("/* Константные стили вынесены из JSX */"));
    lines_out.push(Vec::new());
    let mut counter: Vec<(String, usize)> = Vec::new();
    let mut i: usize = 0;
    assert(views(lines_out@) =~= seq![
        "/* Автоматически сгенерировано из инлайн-стилей */"@,
        "/* Константные стили вынесены из JSX */"@,
        Seq::<char>::empty(),
    ]);
    while i < mappings.len()
        invariant
            i <= mappings@.len(),
            ms == mviews(mappings@),
            css_lines(ms, i as int) == Ok::<Seq<Seq<char>>, Seq<char>>(views(lines_out@)),
            forall|t: Seq<char>| count_of(counter_view(counter@), t) == count_before(ms, t, i as int),
        decreases mappings.len() - i,
    {
        let m = &mappings[i];
        assert(ms[i as int] == mapping_view(*m));
        if m.const_props.len() == 0 {
            proof {
                assert(ms[i as int].1.len() == 0);
                assert forall|t: Seq<char>| count_of(counter_view(counter@), t) == count_before(ms, t, i + 1) by {
                    assert(count_before(ms, t, i + 1) == count_before(ms, t, i as int));
                }
                assert(css_lines(ms, i + 1) == css_lines(ms, i as int));
            }
            i = i + 1;
            continue;
        }
        proof {
            lemma_count_before_bound(ms, m.tag_name@, i as int);
        }
        let ghost cv0 = counter_view(counter@);
        let name = generate_rule_name(m.tag_name.as_str(), &mut counter);
        proof {
            assert(ms[i as int].1.len() > 0);
            assert forall|t: Seq<char>| count_of(counter_view(counter@), t) == count_before(ms, t, i + 1) by {
                assert(count_of(cv0, t) == count_before(ms, t, i as int));
                assert(count_before(ms, t, i + 1) == count_before(ms, t, i as int) + (if ms[i as int].0 == t {
                    1nat
                } else {
                    0nat
                }));
            }
        }
        let sorted = sort_by_key(&m.const_props);
        match decls(&sorted) {
            Err(e) => {
                proof {
                    lemma_css_lines_err(ms, i as int + 1);
                }
                return Err(e);
            },
            Ok(ds) => {
                let ghost before = views(lines_out@);
                let mut head = to_chars(".");
                push_str(&mut head, name.as_str());
                push_str(&mut head, " {");
                lines_out.push(head);
                let mut j: usize = 0;
                let ghost mid = views(lines_out@);
                while j < ds.len()
                    invariant
                        j <= ds@.len(),
                        views(lines_out@) =~= mid + views(ds@).take(j as int),
                    decreases ds.len() - j,
                {
                    let c = crate::text::slice_chars(ds[j].as_slice(), 0, ds[j].len());
                    assert(c@ =~= ds@[j as int]@);
                    let ghost o = views(lines_out@);
                    lines_out.push(c);
                    assert(views(lines_out@) =~= o.push(ds@[j as int]@));
                    assert(views(ds@).take(j + 1) =~= views(ds@).take(j as int).push(ds@[j as int]@));
                    j = j + 1;
                }
                assert(views(ds@).take(ds@.len() as int) =~= views(ds@));
                let ghost l1 = views(lines_out@);
                lines_out.push(to_chars("}"));
                assert(views(lines_out@) =~= l1.push("}"@));
                let ghost l2 = views(lines_out@);
                lines_out.push(Vec::new());
                assert(views(lines_out@) =~= l2.push(Seq::<char>::empty()));
                assert(mid =~= before.push("."@ + name@ + " {"@));
                assert(views(lines_out@) =~= before + seq!["."@ + name@ + " {"@] + views(ds@) + seq![
                    "}"@,
                    Seq::<char>::empty(),
                ]);
            },
        }
        i = i + 1;
    }
    let mut nl: Vec<char> = Vec::new();
    nl.push('\n');
    assert(nl@ =~= seq!['\n']);
    Ok(from_chars(crate::text::join_chars(&lines_out, nl.as_slice()).as_slice()))
}


// ---------------------------------------------------------------- laws

proof fn lemma_join_piece(list: Seq<Seq<char>>, sep: Seq<char>, k: int)
    requires
        0 <= k < list.len(),
    ensures
        has_infix(join(list, sep), list[k]),
    decreases list.len(),
{
    let j = join(list, sep);
    if list.len() == 1 {
        assert(j == list[0]);
        assert(j.subrange(0, 0int + list[0].len()) =~= list[0]);
        assert(has_infix(j, list[k]));
    } else {
        let init = list.drop_last();
        let ji = join(init, sep);
        assert(j == ji + sep + list.last());
        if k == list.len() - 1 {
            let off: int = (ji.len() + sep.len()) as int;
            assert(j.subrange(off, off + list[k].len()) =~= list[k]);
            assert(has_infix(j, list[k]));
        } else {
            lemma_join_piece(init, sep, k);
            assert(init[k] == list[k]);
            let off = choose|i: int| 0 <= i && i + init[k].len() <= ji.len() && #[trigger] ji.subrange(i, i + init[k].len()) == init[k];
            assert(j.subrange(off, off + list[k].len()) =~= ji.subrange(off, off + list[k].len()));
            assert(has_infix(j, list[k]));
        }
    }
}

proof fn lemma_infix_trans(a: Seq<char>, b: Seq<char>, c: Seq<char>)
    requires
        has_infix(a, b),
        has_infix(b, c),
    ensures
        has_infix(a, c),
{
    let i = choose|i: int| 0 <= i && i + b.len() <= a.len() && #[trigger] a.subrange(i, i + b.len()) == b;
    let j = choose|j: int| 0 <= j && j + c.len() <= b.len() && #[trigger] b.subrange(j, j + c.len()) == c;
    assert(a.subrange(i + j, i + j + c.len()) =~= b.subrange(j, j + c.len()));
}

/// Adding the CSS module import always leaves `module.css` in the source,
/// leaves a source that already names it as it is, and so is idempotent: a
/// source that went through it once is left as it is the second time.
pub proof fn law_css_import_idempotent(source: Seq<char>, path: Seq<char>)
    ensures
        add_import_spec(add_import_spec(source, path), path) == add_import_spec(source, path),
        has_infix(add_import_spec(source, path), "module.css"@),
        has_infix(source, "module.css"@) ==> add_import_spec(source, path) == source,
{
    if !has_infix(source, "module.css"@) {
        let stem = match path_stem(path) {
            Some(s) => s,
            None => "styles"@,
        };
        let ls = lines_of(source);
        let idx = import_index(ls, 0, 0);
        let stmt = import_line(stem);
        let out = ls.take(idx) + seq![stmt] + ls.skip(idx);
        lemma_import_index_bound(ls, 0, 0);
        assert(out[idx] == stmt);
        lemma_join_piece(out, seq!['\n'], idx);
        reveal_strlit("module.css");
        reveal_strlit(".module.css\";");
        let pre = "import classes from \"./"@ + stem;
        assert(stmt == pre + ".module.css\";"@);
        let p0: int = (pre.len() + 1) as int;
        assert(stmt.subrange(p0, p0 + 10) =~= "module.css"@);
        lemma_infix_trans(join(out, seq!['\n']), stmt, "module.css"@);
    }
}


proof fn lemma_count_from_absent(tags: Seq<Seq<char>>, t: Seq<char>, j: int)
    requires
        0 <= j,
        forall|k: int| j <= k < tags.len() ==> tags[k] != t,
    ensures
        count_from(tags, t, j) == 0,
    decreases tags.len() - j,
{
    if j < tags.len() {
        lemma_count_from_absent(tags, t, j + 1);
    }
}

proof fn lemma_count_before_absent(ms: Seq<(Seq<char>, Seq<(Seq<char>, Seq<char>)>, Seq<Seq<char>>, nat, nat)>, t: Seq<char>, i: int)
    requires
        i <= ms.len(),
        forall|k: int| 0 <= k < i ==> ms[k].0 != t,
    ensures
        count_before(ms, t, i) == 0,
    decreases i,
{
    if i > 0 {
        lemma_count_before_absent(ms, t, i - 1);
    }
}

/// The class name the rewritten source gives a style attribute is the
/// name of the CSS rule made from it, when no two attributes share a tag.
/// (With two elements of one tag the numbers run in opposite directions:
/// the rewrite numbers from the last attribute, the CSS from the first.)
pub proof fn law_class_names_match_rules(ms: Seq<(Seq<char>, Seq<(Seq<char>, Seq<char>)>, Seq<Seq<char>>, nat, nat)>, i: int)
    requires
        0 <= i < ms.len(),
        forall|j: int, k: int| 0 <= j < k < ms.len() ==> ms[j].0 != ms[k].0,
    ensures
        class_rule_name(ms, i) == css_rule_name(ms, i),
{
    let t = ms[i].0;
    assert forall|k: int| i + 1 <= k < tags_of(ms).len() implies tags_of(ms)[k] != t by {
        assert(tags_of(ms)[k] == ms[k].0);
    }
    lemma_count_from_absent(tags_of(ms), t, i + 1);
    lemma_count_before_absent(ms, t, i);
}

} // verus!
