//! Multi-line text editor with soft wrapping.
//!
//! A logical line wider than the view is cut into visual rows of
//! `width - 1` characters, the last cell of each continued row holding a
//! wrap mark; Up/Down, Home and End move over visual rows.

use vstd::prelude::*;
use super::key::{Key, KeyEvent};
use super::text::{fitted, fit_chars, prefix, skip_chars, spaces, suffix, take_chars, types_char};
use crate::text::{from_chars, join, lines, lines_of, push_all, strings, to_chars, views};

verus! {

/// Mark at the end of a soft-wrapped row.
pub const WRAP_MARK: char = '↩';

/// One visual row: a piece of a logical line.
#[derive(Debug, Clone, Copy, PartialEq, Eq, Structural)]
pub struct VisualRow {
    pub log_row: usize,
    pub start: usize,
    pub len: usize,
    /// The line continues on the next row (a wrap mark is shown).
    pub wraps: bool,
}

/// A visual row as plain numbers.
pub struct VRow {
    pub log_row: nat,
    pub start: nat,
    pub len: nat,
    pub wraps: bool,
}

impl View for VisualRow {
    type V = VRow;

    open spec fn view(&self) -> VRow {
        VRow { log_row: self.log_row as nat, start: self.start as nat, len: self.len as nat, wraps: self.wraps }
    }
}

pub open spec fn rows_view(v: Seq<VisualRow>) -> Seq<VRow> {
    v.map_values(|r: VisualRow| r@)
}

/// Rows of a line of `n` characters from position `start` on.
pub open spec fn wrap_from(n: nat, width: nat, start: nat) -> Seq<VRow>
    decreases n - start,
{
    if width == 0 || start >= n {
        Seq::empty()
    } else if n - start <= width {
        seq![VRow { log_row: 0, start, len: (n - start) as nat, wraps: false }]
    } else {
        let take: nat = if width > 1 { (width - 1) as nat } else { width };
        seq![VRow { log_row: 0, start, len: take, wraps: true }] + wrap_from(n, width, start + take)
    }
}

/// The visual rows of a line of `n` characters: one empty row for an empty
/// line or a zero width, else rows of `width - 1` characters (plus wrap
/// mark) while the rest does not fit, then the rest.
pub open spec fn wrap_rows(n: nat, width: nat) -> Seq<VRow> {
    if width == 0 || n == 0 {
        seq![VRow { log_row: 0, start: 0, len: 0, wraps: false }]
    } else {
        wrap_from(n, width, 0)
    }
}

pub open spec fn relabel(rows: Seq<VRow>, r: nat) -> Seq<VRow> {
    rows.map_values(|x: VRow| VRow { log_row: r, ..x })
}

/// Visual rows of the lines of the given lengths, in order.
pub open spec fn flat_rows(lens: Seq<nat>, width: nat) -> Seq<VRow>
    decreases lens.len(),
{
    if lens.len() == 0 {
        Seq::empty()
    } else {
        flat_rows(lens.drop_last(), width) + relabel(wrap_rows(lens.last(), width), (lens.len() - 1) as nat)
    }
}

/// Visual rows of a text, never empty.
pub open spec fn visual_of(lens: Seq<nat>, width: nat) -> Seq<VRow> {
    let f = flat_rows(lens, width);
    if f.len() == 0 {
        seq![VRow { log_row: 0, start: 0, len: 0, wraps: false }]
    } else {
        f
    }
}

/// Character counts of the lines.
pub open spec fn lens_of(lines: Seq<Seq<char>>) -> Seq<nat> {
    lines.map_values(|l: Seq<char>| l.len())
}

/// The visual row of the cursor, scanning from row `i`; `last` is the last
/// row of the cursor's line seen so far. A cursor at the end of a wrapped
/// row belongs to the next row of the same line.
pub open spec fn vindex_from(v: Seq<VRow>, row: nat, col: nat, i: int, last: int) -> int
    decreases v.len() - i,
{
    if i < 0 || i >= v.len() {
        last
    } else {
        let vr = v[i];
        if vr.log_row != row {
            vindex_from(v, row, col, i + 1, last)
        } else {
            let end = vr.start + vr.len;
            if vr.start <= col && col < end {
                i
            } else if col == end {
                if i + 1 < v.len() && v[i + 1].log_row == row {
                    vindex_from(v, row, col, i + 1, i)
                } else {
                    i
                }
            } else {
                vindex_from(v, row, col, i + 1, i)
            }
        }
    }
}

/// Index of the visual row that holds the cursor.
pub open spec fn vindex(v: Seq<VRow>, row: nat, col: nat) -> int {
    vindex_from(v, row, col, 0, 0)
}

// ---------------------------------------------------------------- lemmas

proof fn lemma_wrap_from(n: nat, width: nat, start: nat)
    ensures
        forall|k: int| 0 <= k < wrap_from(n, width, start).len() ==> {
            let x = #[trigger] wrap_from(n, width, start)[k];
            &&& x.log_row == 0
            &&& x.start + x.len <= n
        },
        start < n && width > 0 ==> wrap_from(n, width, start).len() >= 1,
    decreases n - start,
{
    if width == 0 || start >= n {
    } else if n - start <= width {
    } else {
        let take: nat = if width > 1 { (width - 1) as nat } else { width };
        lemma_wrap_from(n, width, start + take);
        let head = seq![VRow { log_row: 0, start, len: take, wraps: true }];
        let tail = wrap_from(n, width, start + take);
        assert forall|k: int| 0 <= k < wrap_from(n, width, start).len() implies {
            let x = #[trigger] wrap_from(n, width, start)[k];
            &&& x.log_row == 0
            &&& x.start + x.len <= n
        } by {
            if k > 0 {
                assert(wrap_from(n, width, start)[k] == tail[k - 1]);
            }
        }
    }
}

proof fn lemma_wrap_rows(n: nat, width: nat)
    ensures
        wrap_rows(n, width).len() >= 1,
        forall|k: int| 0 <= k < wrap_rows(n, width).len() ==> {
            let x = #[trigger] wrap_rows(n, width)[k];
            &&& x.log_row == 0
            &&& x.start + x.len <= n
        },
{
    lemma_wrap_from(n, width, 0);
}

/// Every visual row lies inside its logical line.
pub open spec fn rows_fit(v: Seq<VRow>, lens: Seq<nat>) -> bool {
    forall|k: int| 0 <= k < v.len() ==> {
        let x = #[trigger] v[k];
        &&& x.log_row < lens.len()
        &&& x.start + x.len <= lens[x.log_row as int]
    }
}

proof fn lemma_flat_rows(lens: Seq<nat>, width: nat)
    ensures
        rows_fit(flat_rows(lens, width), lens),
        lens.len() > 0 ==> flat_rows(lens, width).len() > 0,
    decreases lens.len(),
{
    if lens.len() > 0 {
        let init = lens.drop_last();
        lemma_flat_rows(init, width);
        lemma_wrap_rows(lens.last(), width);
        let a = flat_rows(init, width);
        let b = relabel(wrap_rows(lens.last(), width), (lens.len() - 1) as nat);
        assert forall|k: int| 0 <= k < (a + b).len() implies {
            let x = #[trigger] (a + b)[k];
            &&& x.log_row < lens.len()
            &&& x.start + x.len <= lens[x.log_row as int]
        } by {
            if k < a.len() {
                assert((a + b)[k] == a[k]);
                assert(lens[a[k].log_row as int] == init[a[k].log_row as int]);
            } else {
                assert((a + b)[k] == b[k - a.len()]);
                assert(wrap_rows(lens.last(), width)[k - a.len()].start + wrap_rows(lens.last(), width)[k - a.len()].len <= lens.last());
            }
        }
    }
}

/// The visual rows of some lines are never empty and lie inside the lines.
pub proof fn lemma_visual_of(lens: Seq<nat>, width: nat)
    requires
        lens.len() > 0,
    ensures
        visual_of(lens, width).len() > 0,
        rows_fit(visual_of(lens, width), lens),
{
    lemma_flat_rows(lens, width);
}

proof fn lemma_vindex_from(v: Seq<VRow>, row: nat, col: nat, i: int, last: int)
    requires
        0 <= last < v.len(),
        0 <= i,
        i <= v.len(),
    ensures
        0 <= vindex_from(v, row, col, i, last) < v.len(),
    decreases v.len() - i,
{
    if i < v.len() {
        let vr = v[i];
        if vr.log_row != row {
            lemma_vindex_from(v, row, col, i + 1, last);
        } else {
            let end = vr.start + vr.len;
            if vr.start <= col && col < end {
            } else if col == end {
                if i + 1 < v.len() && v[i + 1].log_row == row {
                    lemma_vindex_from(v, row, col, i + 1, i);
                }
            } else {
                lemma_vindex_from(v, row, col, i + 1, i);
            }
        }
    }
}

// ---------------------------------------------------------------- exec

/// The visual rows of one logical line of `line` (log_row 0).
pub fn wrap_logical_line(n: usize, width: usize) -> (rows: Vec<VisualRow>)
    ensures
        rows_view(rows@) == wrap_rows(n as nat, width as nat),
{
    let mut rows: Vec<VisualRow> = Vec::new();
    if width == 0 || n == 0 {
        rows.push(VisualRow { log_row: 0, start: 0, len: 0, wraps: false });
        assert(rows_view(rows@) =~= wrap_rows(n as nat, width as nat));
        return rows;
    }
    let mut start: usize = 0;
    assert(rows_view(rows@) + wrap_from(n as nat, width as nat, 0) =~= wrap_from(n as nat, width as nat, 0));
    while start < n
        invariant
            width > 0,
            start <= n,
            rows_view(rows@) + wrap_from(n as nat, width as nat, start as nat) == wrap_from(n as nat, width as nat, 0),
        decreases n - start,
    {
        let ghost before = rows_view(rows@);
        let remaining = n - start;
        if remaining <= width {
            rows.push(VisualRow { log_row: 0, start, len: remaining, wraps: false });
            assert(rows_view(rows@) =~= before.push(VRow { log_row: 0, start: start as nat, len: remaining as nat, wraps: false }));
            assert(wrap_from(n as nat, width as nat, n as nat) =~= Seq::<VRow>::empty());
            assert(rows_view(rows@) + wrap_from(n as nat, width as nat, n as nat) =~= before + wrap_from(n as nat, width as nat, start as nat));
            start = n;
        } else {
            let take = if width > 1 { width - 1 } else { width };
            rows.push(VisualRow { log_row: 0, start, len: take, wraps: true });
            let ghost x = VRow { log_row: 0, start: start as nat, len: take as nat, wraps: true };
            assert(rows_view(rows@) =~= before.push(x));
            assert(wrap_from(n as nat, width as nat, start as nat) == seq![x] + wrap_from(n as nat, width as nat, (start + take) as nat));
            assert(before.push(x) + wrap_from(n as nat, width as nat, (start + take) as nat) =~= before + (seq![x] + wrap_from(n as nat, width as nat, (start + take) as nat)));
            start = start + take;
        }
    }
    assert(wrap_from(n as nat, width as nat, start as nat) =~= Seq::<VRow>::empty());
    assert(rows_view(rows@) =~= rows_view(rows@) + Seq::<VRow>::empty());
    rows
}

/// Character counts of the lines of `lines`.
fn line_lens(lines: &Vec<String>) -> (r: Vec<usize>)
    ensures
        r@.len() == lines@.len(),
        forall|i: int| 0 <= i < r@.len() ==> r@[i] as nat == lens_of(strings(lines@))[i],
{
    let mut r: Vec<usize> = Vec::new();
    let mut i: usize = 0;
    while i < lines.len()
        invariant
            i <= lines.len(),
            r@.len() == i,
            forall|j: int| 0 <= j < i ==> r@[j] as nat == lens_of(strings(lines@))[j],
        decreases lines.len() - i,
    {
        let n = to_chars(lines[i].as_str()).len();
        r.push(n);
        i = i + 1;
    }
    r
}

pub open spec fn nats(v: Seq<usize>) -> Seq<nat> {
    v.map_values(|x: usize| x as nat)
}

/// The visual rows of the lines.
pub fn build_visual(lines: &Vec<String>, width: usize) -> (rows: Vec<VisualRow>)
    ensures
        rows_view(rows@) == visual_of(lens_of(strings(lines@)), width as nat),
{
    let lens = line_lens(lines);
    let ghost ls = lens_of(strings(lines@));
    assert(nats(lens@) =~= ls);
    let mut out: Vec<VisualRow> = Vec::new();
    let mut i: usize = 0;
    assert(ls.take(0) =~= Seq::<nat>::empty());
    while i < lens.len()
        invariant
            i <= lens.len(),
            nats(lens@) == ls,
            rows_view(out@) == flat_rows(ls.take(i as int), width as nat),
        decreases lens.len() - i,
    {
        let segs = wrap_logical_line(lens[i], width);
        let ghost before = rows_view(out@);
        let mut k: usize = 0;
        while k < segs.len()
            invariant
                k <= segs.len(),
                i < lens.len(),
                rows_view(out@) =~= before + relabel(rows_view(segs@).take(k as int), i as nat),
            decreases segs.len() - k,
        {
            let s = segs[k];
            let ghost o = rows_view(out@);
            out.push(VisualRow { log_row: i, start: s.start, len: s.len, wraps: s.wraps });
            let ghost x = VRow { log_row: i as nat, ..s@ };
            assert(rows_view(out@) =~= o.push(x));
            assert(rows_view(segs@).take(k + 1) =~= rows_view(segs@).take(k as int).push(segs@[k as int]@));
            assert(relabel(rows_view(segs@).take(k + 1), i as nat) =~= relabel(rows_view(segs@).take(k as int), i as nat).push(x));
            k = k + 1;
        }
        assert(rows_view(segs@).take(segs.len() as int) =~= rows_view(segs@));
        assert(ls.take(i + 1).drop_last() =~= ls.take(i as int));
        assert(ls.take(i + 1).last() == lens@[i as int] as nat);
        i = i + 1;
    }
    assert(ls.take(lens.len() as int) =~= ls);
    if out.len() == 0 {
        out.push(VisualRow { log_row: 0, start: 0, len: 0, wraps: false });
        assert(rows_view(out@) =~= seq![VRow { log_row: 0, start: 0, len: 0, wraps: false }]);
    }
    out
}

/// Index of the visual row that holds the cursor.
pub fn visual_index_for_cursor(visual: &Vec<VisualRow>, row: usize, col: usize) -> (r: usize)
    ensures
        r == vindex(rows_view(visual@), row as nat, col as nat),
        visual@.len() > 0 ==> r < visual@.len(),
{
    let ghost v = rows_view(visual@);
    proof {
        if visual@.len() > 0 {
            lemma_vindex_from(v, row as nat, col as nat, 0, 0);
        }
    }
    let mut last: usize = 0;
    let mut i: usize = 0;
    while i < visual.len()
        invariant
            i <= visual.len(),
            v == rows_view(visual@),
            last == 0 || last < visual.len(),
            vindex(v, row as nat, col as nat) == vindex_from(v, row as nat, col as nat, i as int, last as int),
        decreases visual.len() - i,
    {
        let vr = visual[i];
        assert(v[i as int] == vr@);
        if vr.log_row == row {
            let end = vr.start as u128 + vr.len as u128;
            if (vr.start as u128) <= (col as u128) && (col as u128) < end {
                return i;
            }
            if col as u128 == end {
                if i + 1 < visual.len() && visual[i + 1].log_row == row {
                    assert(v[i + 1] == visual@[i + 1]@);
                    last = i;
                    i = i + 1;
                    continue;
                }
                return i;
            }
            last = i;
        }
        i = i + 1;
    }
    last
}

/// First visual row to show so that the cursor row is in a view of
/// `view_h` rows.
pub open spec fn first_shown(cursor_v: nat, view_h: nat, total: nat) -> nat {
    if view_h == 0 || total == 0 {
        0
    } else {
        let first: nat = if cursor_v >= view_h { (cursor_v + 1 - view_h) as nat } else { 0 };
        let limit: nat = if total > view_h { (total - view_h) as nat } else { 0 };
        if first < limit { first } else { limit }
    }
}

pub fn scroll_to_cursor(cursor_v: usize, view_h: usize, total: usize) -> (r: usize)
    ensures
        r == first_shown(cursor_v as nat, view_h as nat, total as nat),
{
    if view_h == 0 || total == 0 {
        return 0;
    }
    let first = if cursor_v >= view_h { cursor_v - view_h + 1 } else { 0 };
    let limit = if total > view_h { total - view_h } else { 0 };
    if first < limit { first } else { limit }
}


// ---------------------------------------------------------------- editor

/// Lines, row and column made valid: at least one line, the row on a line,
/// the column inside it.
pub open spec fn clamped(l: Seq<Seq<char>>, r: nat, c: nat) -> (Seq<Seq<char>>, nat, nat) {
    let l2 = if l.len() == 0 { seq![Seq::<char>::empty()] } else { l };
    let r2: nat = if r >= l2.len() { (l2.len() - 1) as nat } else { r };
    let c2: nat = if c > l2[r2 as int].len() { l2[r2 as int].len() } else { c };
    (l2, r2, c2)
}

/// The cursor after moving `delta` visual rows: same offset inside the
/// row, kept inside the target row and its line.
pub open spec fn moved(l: Seq<Seq<char>>, r: nat, c: nat, delta: int, w: nat) -> (nat, nat) {
    let vis = visual_of(lens_of(l), w);
    let cur = vindex(vis, r, c);
    let n0 = cur + delta;
    let next = if n0 < 0 { 0 } else if n0 > vis.len() - 1 { vis.len() - 1 } else { n0 };
    let prev = vis[cur];
    let vr = vis[next];
    let rel: nat = if c > prev.start { (c - prev.start) as nat } else { 0 };
    let line_len = l[vr.log_row as int].len();
    let hi = if vr.start + vr.len < line_len { vr.start + vr.len } else { line_len };
    let col = if vr.start + rel > hi { hi } else { vr.start + rel };
    (vr.log_row, col)
}

/// Effect of a key on valid lines, row and column with the last known inner
/// width `w`: the new lines, row and column, and whether the key was used.
pub open spec fn area_key(l: Seq<Seq<char>>, r: nat, c: nat, w: nat, key: KeyEvent) -> (Seq<Seq<char>>, nat, nat, bool) {
    let line = l[r as int];
    match key.code {
        Key::Up => if w > 0 {
            let (r2, c2) = moved(l, r, c, -1, w);
            (l, r2, c2, true)
        } else {
            (l, r, c, false)
        },
        Key::Down => if w > 0 {
            let (r2, c2) = moved(l, r, c, 1, w);
            (l, r2, c2, true)
        } else {
            (l, r, c, false)
        },
        Key::Left => if c > 0 {
            (l, r, (c - 1) as nat, true)
        } else if r > 0 {
            (l, (r - 1) as nat, l[r - 1].len(), true)
        } else {
            (l, r, c, true)
        },
        Key::Right => if c < line.len() {
            (l, r, c + 1, true)
        } else if r + 1 < l.len() {
            (l, r + 1, 0, true)
        } else {
            (l, r, c, true)
        },
        Key::Home => if w > 0 {
            let vis = visual_of(lens_of(l), w);
            (l, r, vis[vindex(vis, r, c)].start, true)
        } else {
            (l, r, 0, true)
        },
        Key::End => if w > 0 {
            let vis = visual_of(lens_of(l), w);
            let vr = vis[vindex(vis, r, c)];
            (l, r, if vr.start + vr.len < line.len() { vr.start + vr.len } else { line.len() }, true)
        } else {
            (l, r, line.len(), true)
        },
        Key::Enter => (
            l.update(r as int, line.take(c as int)).insert((r + 1) as int, line.skip(c as int)),
            r + 1,
            0,
            true,
        ),
        Key::Backspace => if c > 0 {
            (l.update(r as int, line.take(c - 1) + line.skip(c as int)), r, (c - 1) as nat, true)
        } else if r > 0 {
            (l.remove(r as int).update(r - 1, l[r - 1] + line), (r - 1) as nat, l[r - 1].len(), true)
        } else {
            (l, r, c, true)
        },
        Key::Delete => if c < line.len() {
            (l.update(r as int, line.take(c as int) + line.skip((c + 1) as int)), r, c, true)
        } else if r + 1 < l.len() {
            (l.remove((r + 1) as int).update(r as int, line + l[(r + 1) as int]), r, c, true)
        } else {
            (l, r, c, true)
        },
        Key::Char(ch) => if types_char(key.modifiers) {
            (l.update(r as int, line.take(c as int) + seq![ch] + line.skip(c as int)), r, c + 1, true)
        } else {
            (l, r, c, false)
        },
        _ => (l, r, c, false),
    }
}

/// The effect of a key on an editor in any state: first made valid
/// ([`clamped`]), then [`area_key`].
pub open spec fn editor_key(l: Seq<Seq<char>>, r: nat, c: nat, w: nat, key: KeyEvent) -> (Seq<Seq<char>>, nat, nat, bool) {
    let (l2, r2, c2) = clamped(l, r, c);
    area_key(l2, r2, c2, w, key)
}

/// Lines of the initial text: one empty line for empty text.
pub open spec fn initial_lines(text: Seq<char>) -> Seq<Seq<char>> {
    if text.len() == 0 {
        seq![Seq::<char>::empty()]
    } else {
        lines_of(text)
    }
}

/// Multi-line text editor with soft wrapping.
#[derive(Debug, Clone)]
pub struct TextArea {
    pub label: String,
    pub lines: Vec<String>,
    pub row: usize,
    pub col: usize,
    pub view_height: u16,
    /// Inner width at the last layout (for visual Up/Down, Home, End).
    pub last_width: usize,
}

impl TextArea {
    /// An editor with the lines of `text`, the cursor at the start, at
    /// least one visible row.
    pub fn new(label: &str, text: &str, view_height: u16) -> (t: TextArea)
        ensures
            t.label@ == label@,
            strings(t.lines@) == initial_lines(text@),
            t.row == 0,
            t.col == 0,
            t.view_height == (if view_height >= 1 { view_height } else { 1 }),
            t.last_width == 0,
    {
        let c = to_chars(text);
        let lines: Vec<String> = if c.len() == 0 {
            let mut v = Vec::new();
            v.push(String::new());
            assert(strings(v@) =~= seq![Seq::<char>::empty()]);
            v
        } else {
            let l = lines(c.as_slice());
            crate::text::to_strings(&l)
        };
        TextArea {
            label: label.to_owned(),
            lines,
            row: 0,
            col: 0,
            view_height: if view_height >= 1 { view_height } else { 1 },
            last_width: 0,
        }
    }

    /// A label row and the visible rows.
    pub fn height(&self) -> (h: u16)
        requires
            self.view_height < u16::MAX,
        ensures
            h == 1 + self.view_height,
    {
        1 + self.view_height
    }

    /// The text: the lines joined by newlines.
    pub fn text(&self) -> (t: String)
        ensures
            t@ == join(strings(self.lines@), seq!['\n']),
    {
        let mut v: Vec<Vec<char>> = Vec::new();
        let mut i: usize = 0;
        while i < self.lines.len()
            invariant
                i <= self.lines.len(),
                views(v@) =~= strings(self.lines@).take(i as int),
            decreases self.lines.len() - i,
        {
            let ghost b = views(v@);
            v.push(to_chars(self.lines[i].as_str()));
            assert(views(v@) =~= b.push(self.lines@[i as int]@));
            assert(strings(self.lines@).take(i + 1) =~= strings(self.lines@).take(i as int).push(self.lines@[i as int]@));
            i = i + 1;
        }
        assert(strings(self.lines@).take(self.lines.len() as int) =~= strings(self.lines@));
        let mut sep = Vec::new();
        sep.push('\n');
        assert(sep@ =~= seq!['\n']);
        from_chars(crate::text::join_chars(&v, sep.as_slice()).as_slice())
    }

    /// Records the inner width of the editor's area (the area's width less
    /// a margin on each side).
    pub fn set_area_width(&mut self, area_width: u16)
        ensures
            final(self).last_width == (if area_width >= 2 { area_width - 2 } else { 0 }),
            final(self).label == old(self).label,
            final(self).lines == old(self).lines,
            final(self).row == old(self).row,
            final(self).col == old(self).col,
            final(self).view_height == old(self).view_height,
    {
        self.last_width = if area_width >= 2 { (area_width - 2) as usize } else { 0 };
    }

    fn line_chars(&self, r: usize) -> (v: Vec<char>)
        requires
            r < self.lines@.len(),
        ensures
            v@ == self.lines@[r as int]@,
    {
        to_chars(self.lines[r].as_str())
    }

    /// Makes the cursor valid: at least one line, the row on a line, the
    /// column inside it.
    pub fn clamp_cursor(&mut self)
        ensures
            (strings(final(self).lines@), final(self).row as nat, final(self).col as nat) == clamped(
                strings(old(self).lines@),
                old(self).row as nat,
                old(self).col as nat,
            ),
            final(self).lines@.len() > 0,
            final(self).row < final(self).lines@.len(),
            final(self).col <= final(self).lines@[final(self).row as int]@.len(),
            final(self).label == old(self).label,
            final(self).view_height == old(self).view_height,
            final(self).last_width == old(self).last_width,
    {
        if self.lines.len() == 0 {
            self.lines.push(String::new());
            assert(strings(self.lines@) =~= seq![Seq::<char>::empty()]);
        }
        if self.row >= self.lines.len() {
            self.row = self.lines.len() - 1;
        }
        let len = self.line_chars(self.row).len();
        if self.col > len {
            self.col = len;
        }
    }

    /// Moves the cursor `delta` visual rows.
    fn move_visual(&mut self, down: bool, width: usize)
        requires
            old(self).lines@.len() > 0,
            old(self).row < old(self).lines@.len(),
            old(self).col <= old(self).lines@[old(self).row as int]@.len(),
            width > 0,
        ensures
            (final(self).row as nat, final(self).col as nat) == moved(
                strings(old(self).lines@),
                old(self).row as nat,
                old(self).col as nat,
                if down { 1 } else { -1 },
                width as nat,
            ),
            final(self).lines == old(self).lines,
            final(self).label == old(self).label,
            final(self).view_height == old(self).view_height,
            final(self).last_width == old(self).last_width,
    {
        let ghost l = strings(self.lines@);
        let visual = build_visual(&self.lines, width);
        proof {
            lemma_visual_of(lens_of(l), width as nat);
        }
        let cur = visual_index_for_cursor(&visual, self.row, self.col);
        let n = visual.len();
        let next = if down {
            if cur + 1 > n - 1 { n - 1 } else { cur + 1 }
        } else {
            if cur == 0 { 0 } else { cur - 1 }
        };
        let prev = visual[cur];
        let vr = visual[next];
        assert(rows_view(visual@)[next as int] == vr@);
        assert(rows_view(visual@)[cur as int] == prev@);
        let rel = if self.col > prev.start { self.col - prev.start } else { 0 };
        let line_len = self.line_chars(vr.log_row).len();
        assert(lens_of(l)[vr.log_row as int] == line_len);
        let hi = if vr.len < line_len - vr.start { vr.start + vr.len } else { line_len };
        let col = if rel > hi - vr.start { hi } else { vr.start + rel };
        self.row = vr.log_row;
        self.col = col;
    }

    /// The editor's state is valid: at least one line, the cursor on a
    /// line and inside it.
    pub open spec fn valid(&self) -> bool {
        &&& self.lines@.len() > 0
        &&& self.row < self.lines@.len()
        &&& self.col <= self.lines@[self.row as int]@.len()
    }

    /// Up, Down, Home and End on a valid editor.
    fn vertical_key(&mut self, key: KeyEvent) -> (used: bool)
        requires
            old(self).valid(),
            key.code is Up || key.code is Down || key.code is Home || key.code is End,
        ensures
            (strings(final(self).lines@), final(self).row as nat, final(self).col as nat, used) == area_key(
                strings(old(self).lines@),
                old(self).row as nat,
                old(self).col as nat,
                old(self).last_width as nat,
                key,
            ),
            final(self).label == old(self).label,
            final(self).view_height == old(self).view_height,
            final(self).last_width == old(self).last_width,
    {
        let ghost l = strings(self.lines@);
        let width = self.last_width;
        let r = self.row;
        let c = self.col;
        match key.code {
            Key::Up => {
                if width > 0 {
                    self.move_visual(false, width);
                    true
                } else {
                    false
                }
            },
            Key::Down => {
                if width > 0 {
                    self.move_visual(true, width);
                    true
                } else {
                    false
                }
            },
            Key::Home => {
                if width > 0 {
                    let visual = build_visual(&self.lines, width);
                    proof {
                        lemma_visual_of(lens_of(l), width as nat);
                    }
                    let vi = visual_index_for_cursor(&visual, r, c);
                    assert(rows_view(visual@)[vi as int] == visual@[vi as int]@);
                    self.col = visual[vi].start;
                } else {
                    self.col = 0;
                }
                true
            },
            _ => {
                let n = self.line_chars(r).len();
                if width > 0 {
                    let visual = build_visual(&self.lines, width);
                    proof {
                        lemma_visual_of(lens_of(l), width as nat);
                    }
                    let vi = visual_index_for_cursor(&visual, r, c);
                    let vr = visual[vi];
                    assert(rows_view(visual@)[vi as int] == vr@);
                    self.col = if vr.start <= n && vr.len < n - vr.start {
                        vr.start + vr.len
                    } else {
                        n
                    };
                } else {
                    self.col = n;
                }
                true
            },
        }
    }

    /// Left and Right on a valid editor.
    fn horizontal_key(&mut self, key: KeyEvent) -> (used: bool)
        requires
            old(self).valid(),
            key.code is Left || key.code is Right,
        ensures
            (strings(final(self).lines@), final(self).row as nat, final(self).col as nat, used) == area_key(
                strings(old(self).lines@),
                old(self).row as nat,
                old(self).col as nat,
                old(self).last_width as nat,
                key,
            ),
            final(self).label == old(self).label,
            final(self).view_height == old(self).view_height,
            final(self).last_width == old(self).last_width,
    {
        let r = self.row;
        let c = self.col;
        let n = self.lines.len();
        if matches!(key.code, Key::Left) {
            if c > 0 {
                self.col = c - 1;
            } else if r > 0 {
                self.row = r - 1;
                self.col = self.line_chars(r - 1).len();
            }
        } else {
            let len = self.line_chars(r).len();
            if c < len {
                self.col = c + 1;
            } else if r < n - 1 {
                self.row = r + 1;
                self.col = 0;
            }
        }
        true
    }

    /// Enter, Backspace, Delete, typed characters and other keys on a valid
    /// editor.
    fn edit_key(&mut self, key: KeyEvent) -> (used: bool)
        requires
            old(self).valid(),
            !(key.code is Up || key.code is Down || key.code is Home || key.code is End),
            !(key.code is Left || key.code is Right),
        ensures
            (strings(final(self).lines@), final(self).row as nat, final(self).col as nat, used) == area_key(
                strings(old(self).lines@),
                old(self).row as nat,
                old(self).col as nat,
                old(self).last_width as nat,
                key,
            ),
            final(self).label == old(self).label,
            final(self).view_height == old(self).view_height,
            final(self).last_width == old(self).last_width,
    {
        let ghost l = strings(self.lines@);
        let r = self.row;
        let c = self.col;
        let n = self.lines.len();
        let line = self.line_chars(r);
        match key.code {
            Key::Enter => {
                let before = take_chars(line.as_slice(), c);
                let after = skip_chars(line.as_slice(), c);
                self.lines.set(r, from_chars(before.as_slice()));
                assert(strings(self.lines@) =~= l.update(r as int, line@.take(c as int)));
                self.lines.insert(r + 1, from_chars(after.as_slice()));
                assert(strings(self.lines@) =~= l.update(r as int, line@.take(c as int)).insert(r + 1, line@.skip(c as int)));
                self.row = r + 1;
                self.col = 0;
                true
            },
            Key::Backspace => {
                if c > 0 {
                    let mut nv = take_chars(line.as_slice(), c - 1);
                    let after = skip_chars(line.as_slice(), c);
                    push_all(&mut nv, after.as_slice());
                    self.lines.set(r, from_chars(nv.as_slice()));
                    assert(strings(self.lines@) =~= l.update(r as int, line@.take(c - 1) + line@.skip(c as int)));
                    self.col = c - 1;
                } else if r > 0 {
                    let cur = self.lines.remove(r);
                    assert(strings(self.lines@) =~= l.remove(r as int));
                    let prev = self.line_chars(r - 1);
                    let mut joined = prev.clone();
                    crate::text::push_str(&mut joined, cur.as_str());
                    self.lines.set(r - 1, from_chars(joined.as_slice()));
                    assert(strings(self.lines@) =~= l.remove(r as int).update(r - 1, l[r - 1] + line@));
                    self.row = r - 1;
                    self.col = prev.len();
                }
                true
            },
            Key::Delete => {
                if c < line.len() {
                    let mut nv = take_chars(line.as_slice(), c);
                    let after = skip_chars(line.as_slice(), c + 1);
                    push_all(&mut nv, after.as_slice());
                    self.lines.set(r, from_chars(nv.as_slice()));
                    assert(strings(self.lines@) =~= l.update(r as int, line@.take(c as int) + line@.skip(c + 1)));
                } else if r < n - 1 {
                    let next = self.lines.remove(r + 1);
                    let mut joined = line.clone();
                    crate::text::push_str(&mut joined, next.as_str());
                    self.lines.set(r, from_chars(joined.as_slice()));
                    assert(strings(self.lines@) =~= l.remove(r + 1).update(r as int, line@ + l[r + 1]));
                }
                true
            },
            Key::Char(ch) => {
                let typed = match key.modifiers {
                    super::key::Mods::NoMods | super::key::Mods::Shift => true,
                    _ => false,
                };
                if typed {
                    let mut nv = take_chars(line.as_slice(), c);
                    assert(nv@ == line@.take(c as int));
                    nv.push(ch);
                    assert(nv@ =~= line@.take(c as int) + seq![ch]);
                    let after = skip_chars(line.as_slice(), c);
                    push_all(&mut nv, after.as_slice());
                    assert(nv@ =~= line@.take(c as int) + seq![ch] + line@.skip(c as int));
                    let total = nv.len();
                    assert(total == c + 1 + after@.len());
                    self.lines.set(r, from_chars(nv.as_slice()));
                    assert(strings(self.lines@) =~= l.update(r as int, line@.take(c as int) + seq![ch] + line@.skip(c as int)));
                    self.col = c + 1;
                    true
                } else {
                    false
                }
            },
            _ => false,
        }
    }

    /// Applies a key (see [`editor_key`]); returns whether it was used.
    pub fn handle_key(&mut self, key: KeyEvent) -> (used: bool)
        ensures
            (strings(final(self).lines@), final(self).row as nat, final(self).col as nat, used) == editor_key(
                strings(old(self).lines@),
                old(self).row as nat,
                old(self).col as nat,
                old(self).last_width as nat,
                key,
            ),
            final(self).label == old(self).label,
            final(self).view_height == old(self).view_height,
            final(self).last_width == old(self).last_width,
    {
        self.clamp_cursor();
        match key.code {
            Key::Up | Key::Down | Key::Home | Key::End => self.vertical_key(key),
            Key::Left | Key::Right => self.horizontal_key(key),
            _ => self.edit_key(key),
        }
    }
}



// ---------------------------------------------------------------- laws

/// Every line has a visual row of its own.
proof fn lemma_flat_rows_cover(lens: Seq<nat>, width: nat, r: int)
    requires
        0 <= r < lens.len(),
    ensures
        exists|k: int| 0 <= k < flat_rows(lens, width).len() && (#[trigger] flat_rows(lens, width)[k]).log_row == r,
    decreases lens.len(),
{
    let init = lens.drop_last();
    let a = flat_rows(init, width);
    let b = relabel(wrap_rows(lens.last(), width), (lens.len() - 1) as nat);
    lemma_wrap_rows(lens.last(), width);
    assert(flat_rows(lens, width) == a + b);
    if r < init.len() {
        lemma_flat_rows_cover(init, width, r);
        let k = choose|k: int| 0 <= k < a.len() && (#[trigger] a[k]).log_row == r;
        assert((a + b)[k] == a[k]);
    } else {
        assert((a + b)[a.len() as int] == b[0]);
    }
}

/// The row found for the cursor is on the cursor's line when some row
/// from `i` on, or the row kept so far, is.
proof fn lemma_vindex_from_line(v: Seq<VRow>, row: nat, col: nat, i: int, last: int)
    requires
        0 <= last < v.len(),
        0 <= i <= v.len(),
        v[last].log_row == row || exists|k: int| i <= k < v.len() && (#[trigger] v[k]).log_row == row,
    ensures
        v[vindex_from(v, row, col, i, last)].log_row == row,
    decreases v.len() - i,
{
    if i < v.len() {
        let vr = v[i];
        if vr.log_row != row {
            if v[last].log_row != row {
                let k = choose|k: int| i <= k < v.len() && (#[trigger] v[k]).log_row == row;
                assert(k != i);
            }
            lemma_vindex_from_line(v, row, col, i + 1, last);
        } else {
            let end = vr.start + vr.len;
            if vr.start <= col && col < end {
            } else if col == end {
                if i + 1 < v.len() && v[i + 1].log_row == row {
                    lemma_vindex_from_line(v, row, col, i + 1, i);
                }
            } else {
                lemma_vindex_from_line(v, row, col, i + 1, i);
            }
        }
    } else {
        if v[last].log_row != row {
            let k = choose|k: int| i <= k < v.len() && (#[trigger] v[k]).log_row == row;
            assert(false);
        }
    }
}

/// The editor stays valid whatever key is pressed: it keeps at least one
/// line, and the cursor stays on a line and inside it.
pub proof fn law_editor_stays_valid(l: Seq<Seq<char>>, r: nat, c: nat, w: nat, key: KeyEvent)
    ensures
        ({
            let (l2, r2, c2, _used) = editor_key(l, r, c, w, key);
            &&& l2.len() > 0
            &&& r2 < l2.len()
            &&& c2 <= l2[r2 as int].len()
        }),
{
    let (l1, r1, c1) = clamped(l, r, c);
    let line = l1[r1 as int];
    let lens = lens_of(l1);
    let vis = visual_of(lens, w);
    lemma_visual_of(lens, w);
    assert(lens.len() > 0);
    match key.code {
        Key::Up | Key::Down => {
            if w > 0 {
                let cur = vindex(vis, r1, c1);
                lemma_vindex_from(vis, r1, c1, 0, 0);
                let delta: int = if key.code == Key::Up { -1 } else { 1 };
                let n0 = cur + delta;
                let next = if n0 < 0 { 0 } else if n0 > vis.len() - 1 { vis.len() - 1 } else { n0 };
                let vr = vis[next];
                assert(vr.log_row < lens.len());
                assert(lens[vr.log_row as int] == l1[vr.log_row as int].len());
            }
        },
        Key::Home => {
            if w > 0 {
                lemma_flat_rows_cover(lens, w, r1 as int);
                let f = flat_rows(lens, w);
                let k = choose|k: int| 0 <= k < f.len() && (#[trigger] f[k]).log_row == r1;
                assert(vis == f);
                assert(vis[k].log_row == r1);
                lemma_vindex_from_line(vis, r1, c1, 0, 0);
                let vr = vis[vindex(vis, r1, c1)];
                lemma_vindex_from(vis, r1, c1, 0, 0);
                assert(vr.start + vr.len <= lens[r1 as int]);
            }
        },
        Key::Enter => {
            let l2 = l1.update(r1 as int, line.take(c1 as int)).insert((r1 + 1) as int, line.skip(c1 as int));
            assert(l2[(r1 + 1) as int] == line.skip(c1 as int));
        },
        Key::Backspace => {
            if c1 == 0 && r1 > 0 {
                let l2 = l1.remove(r1 as int).update(r1 - 1, l1[r1 - 1] + line);
                assert(l2[r1 - 1] == l1[r1 - 1] + line);
            }
        },
        Key::Delete => {
            if c1 >= line.len() && r1 + 1 < l1.len() {
                let l2 = l1.remove((r1 + 1) as int).update(r1 as int, line + l1[(r1 + 1) as int]);
                assert(l2[r1 as int] == line + l1[(r1 + 1) as int]);
            }
        },
        _ => {},
    }
}


/// The rows of a line from `start` on follow each other without gap or
/// overlap up to its end; each holds at least one character and at most
/// `width`, one fewer when it wraps (the mark takes a cell) unless the
/// width is 1; only the last does not wrap.
proof fn lemma_wrap_from_covers(n: nat, width: nat, start: nat)
    requires
        width > 0,
        start < n,
    ensures
        ({
            let v = wrap_from(n, width, start);
            &&& v.len() >= 1
            &&& v[0].start == start
            &&& v.last().start + v.last().len == n
            &&& forall|k: int| 0 <= k < v.len() - 1 ==> #[trigger] v[k + 1].start == v[k].start + v[k].len
            &&& forall|k: int|
                0 <= k < v.len() ==> {
                    &&& 0 < (#[trigger] v[k]).len <= width
                    &&& v[k].wraps == (k < v.len() - 1)
                    &&& (v[k].wraps && width > 1 ==> v[k].len < width)
                }
        }),
    decreases n - start,
{
    if n - start > width {
        let take: nat = if width > 1 { (width - 1) as nat } else { width };
        lemma_wrap_from_covers(n, width, start + take);
        let head = seq![VRow { log_row: 0, start, len: take, wraps: true }];
        let tail = wrap_from(n, width, start + take);
        let v = wrap_from(n, width, start);
        assert(v == head + tail);
        assert forall|k: int| 0 <= k < v.len() - 1 implies #[trigger] v[k + 1].start == v[k].start + v[k].len by {
            assert(v[k + 1] == tail[k]);
            if k > 0 {
                assert(v[k] == tail[k - 1]);
                assert(tail[(k - 1) + 1].start == tail[k - 1].start + tail[k - 1].len);
            } else {
                assert(v[0] == head[0]);
                assert(tail[0].start == start + take);
            }
        }
        assert forall|k: int| 0 <= k < v.len() implies {
            &&& 0 < (#[trigger] v[k]).len <= width
            &&& v[k].wraps == (k < v.len() - 1)
            &&& (v[k].wraps && width > 1 ==> v[k].len < width)
        } by {
            if k > 0 {
                assert(v[k] == tail[k - 1]);
            }
        }
        assert(v.last() == tail.last());
    }
}

/// Soft wrapping loses no character: the visual rows of a non-empty line
/// in a non-zero width start at its first character, follow each other
/// without gap or overlap, and end at its last; each row holds at least
/// one character and at most `width`, one fewer when it wraps (the wrap
/// mark takes a cell) unless the width is 1; only the last row does not
/// wrap.
pub proof fn law_wrap_covers_line(n: nat, width: nat)
    requires
        width > 0,
        n > 0,
    ensures
        ({
            let v = wrap_rows(n, width);
            &&& v.len() >= 1
            &&& v[0].start == 0
            &&& v.last().start + v.last().len == n
            &&& forall|k: int| 0 <= k < v.len() - 1 ==> #[trigger] v[k + 1].start == v[k].start + v[k].len
            &&& forall|k: int|
                0 <= k < v.len() ==> {
                    &&& 0 < (#[trigger] v[k]).len <= width
                    &&& v[k].wraps == (k < v.len() - 1)
                    &&& (v[k].wraps && width > 1 ==> v[k].len < width)
                }
        }),
{
    lemma_wrap_from_covers(n, width, 0);
}

/// Moving right, then left, comes back to the same place: from any cursor
/// position that has a character or a line after it, Left undoes Right (at
/// the start of a line, Left goes to the end of the line before).
pub proof fn law_left_undoes_right(l: Seq<Seq<char>>, r: nat, c: nat, w: nat, right: KeyEvent, left: KeyEvent)
    requires
        right.code == Key::Right,
        left.code == Key::Left,
        r < l.len(),
        c <= l[r as int].len(),
        c < l[r as int].len() || r + 1 < l.len(),
    ensures
        ({
            let (l2, r2, c2, used) = editor_key(l, r, c, w, right);
            &&& used
            &&& (l2, r2, c2) != (l, r, c)
            &&& editor_key(l2, r2, c2, w, left) == (l, r, c, true)
        }),
{
    assert(clamped(l, r, c) == (l, r, c));
    let (l2, r2, c2, _u) = area_key(l, r, c, w, right);
    assert(l2 == l);
    assert(r2 < l.len() && c2 <= l[r2 as int].len());
    assert(clamped(l2, r2, c2) == (l2, r2, c2));
}

/// Moving left, then right, comes back to the same place: from any cursor
/// position that has a character or a line before it, Right undoes Left.
pub proof fn law_right_undoes_left(l: Seq<Seq<char>>, r: nat, c: nat, w: nat, right: KeyEvent, left: KeyEvent)
    requires
        right.code == Key::Right,
        left.code == Key::Left,
        r < l.len(),
        c <= l[r as int].len(),
        c > 0 || r > 0,
    ensures
        ({
            let (l2, r2, c2, used) = editor_key(l, r, c, w, left);
            &&& used
            &&& (l2, r2, c2) != (l, r, c)
            &&& editor_key(l2, r2, c2, w, right) == (l, r, c, true)
        }),
{
    assert(clamped(l, r, c) == (l, r, c));
    let (l2, r2, c2, _u) = area_key(l, r, c, w, left);
    assert(l2 == l);
    assert(r2 < l.len() && c2 <= l[r2 as int].len());
    assert(clamped(l2, r2, c2) == (l2, r2, c2));
}

/// Backspace undoes Enter: splitting a line at the cursor and then
/// deleting back joins it again, with the cursor where it was.
pub proof fn law_backspace_undoes_enter(l: Seq<Seq<char>>, r: nat, c: nat, w: nat, enter: KeyEvent, back: KeyEvent)
    requires
        enter.code == Key::Enter,
        back.code == Key::Backspace,
        r < l.len(),
        c <= l[r as int].len(),
    ensures
        ({
            let (l2, r2, c2, used) = editor_key(l, r, c, w, enter);
            &&& used
            &&& l2.len() == l.len() + 1
            &&& (r2, c2) == (r + 1, 0nat)
            &&& editor_key(l2, r2, c2, w, back) == (l, r, c, true)
        }),
{
    assert(clamped(l, r, c) == (l, r, c));
    let line = l[r as int];
    let l2 = l.update(r as int, line.take(c as int)).insert((r + 1) as int, line.skip(c as int));
    assert(l2[(r + 1) as int] == line.skip(c as int));
    assert(l2[r as int] == line.take(c as int));
    assert(clamped(l2, r + 1, 0) == (l2, r + 1, 0nat));
    let back_l = l2.remove((r + 1) as int).update(r as int, l2[r as int] + l2[(r + 1) as int]);
    assert(line.take(c as int) + line.skip(c as int) =~= line);
    assert(back_l =~= l);
}

/// Backspace undoes typing: a character typed at the cursor and then
/// deleted leaves the text and the cursor as they were.
pub proof fn law_backspace_undoes_typing_area(l: Seq<Seq<char>>, r: nat, c: nat, w: nat, typed: KeyEvent, back: KeyEvent)
    requires
        typed.code is Char,
        types_char(typed.modifiers),
        back.code == Key::Backspace,
        r < l.len(),
        c <= l[r as int].len(),
    ensures
        ({
            let (l2, r2, c2, used) = editor_key(l, r, c, w, typed);
            &&& used
            &&& r2 == r && c2 == c + 1
            &&& l2[r as int].len() == l[r as int].len() + 1
            &&& editor_key(l2, r2, c2, w, back) == (l, r, c, true)
        }),
{
    assert(clamped(l, r, c) == (l, r, c));
    let ch = typed.code->Char_0;
    let line = l[r as int];
    let nl = line.take(c as int) + seq![ch] + line.skip(c as int);
    let l2 = l.update(r as int, nl);
    assert(clamped(l2, r, c + 1) == (l2, r, c + 1));
    assert(nl.take(c as int) + nl.skip((c + 1) as int) =~= line);
    assert(l2.update(r as int, nl.take(c as int) + nl.skip((c + 1) as int)) =~= l);
}

} // verus!
