//! What the menu screen shows: the styled lines of the left list, of the
//! right panel's run history and of the status bar, and the screen layout.
//! Drawing them on the terminal is the front end's work.

use chrono::TimeZone;
use ratatui::layout::{Constraint, Layout, Rect as TuiRect};
use std::time::{Duration, SystemTime};
use vstd::prelude::*;
use crate::menu::{
    eff_height, first_visible_spec, right_mode_spec, selected_runs, App, AppV, EntryState, Panel, Rect,
    RightMode,
};
use crate::run_record::RunRecord;
use crate::run_view::{age_label, format_duration, output_lines, whole_seconds, RunView, PREVIEW_LINES};
use crate::sanitize::{span_views, Span};
use crate::style::{added, bold, bold_fg, fg_style, no_modifiers, plain, style_bold_fg, style_fg, Color, Modifiers, Style};
use crate::text::{dec, dec_int, fmt_i64, fmt_u64, from_chars, lines, lines_of, push_str, to_chars};

verus! {

// ---------------------------------------------------------------- small texts

/// Frame `i` (0..10) of the spinner.
pub open spec fn spinner_text(i: nat) -> Seq<char> {
    if i == 0 {
        "⠋"@
    } else if i == 1 {
        "⠙"@
    } else if i == 2 {
        "⠹"@
    } else if i == 3 {
        "⠸"@
    } else if i == 4 {
        "⠼"@
    } else if i == 5 {
        "⠴"@
    } else if i == 6 {
        "⠦"@
    } else if i == 7 {
        "⠧"@
    } else if i == 8 {
        "⠇"@
    } else {
        "⠏"@
    }
}

/// The spinner frame for a tick: ten Braille frames in turn.
pub fn spinner_frame(tick: u64) -> (r: &'static str)
    ensures
        r@ == spinner_text((tick % 10) as nat),
{
    let i = tick % 10;
    if i == 0 {
        "⠋"
    } else if i == 1 {
        "⠙"
    } else if i == 2 {
        "⠹"
    } else if i == 3 {
        "⠸"
    } else if i == 4 {
        "⠼"
    } else if i == 5 {
        "⠴"
    } else if i == 6 {
        "⠦"
    } else if i == 7 {
        "⠧"
    } else if i == 8 {
        "⠇"
    } else {
        "⠏"
    }
}

/// The Russian plural form of "line" for `n`: «строка» for 1, 21, 31 …
/// (not 11), «строки» for 2–4, 22–24 … (not 12–14), «строк» otherwise.
pub open spec fn plural_text(n: nat) -> Seq<char> {
    let n10 = n % 10;
    let n100 = n % 100;
    if n10 == 1 && n100 != 11 {
        "строка"@
    } else if 2 <= n10 <= 4 && !(12 <= n100 <= 14) {
        "строки"@
    } else {
        "строк"@
    }
}

/// «1 строка», «2 строки», «5 строк».
pub fn plural_ru(n: usize) -> (r: &'static str)
    ensures
        r@ == plural_text(n as nat),
{
    let n10 = n % 10;
    let n100 = n % 100;
    if n10 == 1 && n100 != 11 {
        "строка"
    } else if 2 <= n10 && n10 <= 4 && !(12 <= n100 && n100 <= 14) {
        "строки"
    } else {
        "строк"
    }
}


/// Highlight of the selected row of a panel: bright when the panel has the
/// focus, dim otherwise.
pub open spec fn highlight_spec(panel: Panel, focus: Panel) -> Style {
    if panel == focus {
        added(Style { fg: Some(Color::White), bg: Some(Color::Rgb(0x5e, 0x81, 0xac)), ..plain() }, bold())
    } else {
        Style { fg: Some(Color::Gray), bg: Some(Color::Rgb(0x4c, 0x56, 0x6a)), ..plain() }
    }
}

pub fn highlight_style_for(panel: Panel, focus: Panel) -> (s: Style)
    ensures
        s == highlight_spec(panel, focus),
{
    if panel == focus {
        let m = Modifiers { bold: true, dim: false, italic: false, underlined: false, reversed: false };
        Style::new().bg(Color::Rgb(0x5e, 0x81, 0xac)).fg(Color::White).add_modifier(m)
    } else {
        Style::new().bg(Color::Rgb(0x4c, 0x56, 0x6a)).fg(Color::Gray)
    }
}

/// Style of the divider: bold yellow while dragged, else the colour of
/// the focused panel.
pub open spec fn divider_spec(dragging: bool, focus: Panel) -> Style {
    if dragging {
        bold_fg(Color::Yellow)
    } else if focus == Panel::Left {
        fg_style(Color::Rgb(0x5e, 0x81, 0xac))
    } else {
        fg_style(Color::Rgb(0xbf, 0x61, 0x6a))
    }
}

pub fn divider_style(dragging: bool, focus: Panel) -> (s: Style)
    ensures
        s == divider_spec(dragging, focus),
{
    if dragging {
        style_bold_fg(Color::Yellow)
    } else {
        match focus {
            Panel::Left => style_fg(Color::Rgb(0x5e, 0x81, 0xac)),
            Panel::Right => style_fg(Color::Rgb(0xbf, 0x61, 0x6a)),
        }
    }
}

/// The status bar: the focused panel, then the last message or the key
/// help.
pub open spec fn status_spec(focus: Panel, status: Seq<char>) -> Seq<char> {
    let marker = if focus == Panel::Left { "[LEFT]"@ } else { "[RIGHT]"@ };
    let base = if status.len() == 0 {
        "↑/↓ — навигация, Space — раскрыть, Tab — фокус, q — выход"@
    } else {
        status
    };
    marker + seq![' '] + base
}

pub fn status_line(app: &App) -> (r: String)
    ensures
        r@ == status_spec(app.focus, app.status@),
{
    let mut v: Vec<char> = Vec::new();
    match app.focus {
        Panel::Left => push_str(&mut v, "[LEFT]"),
        Panel::Right => push_str(&mut v, "[RIGHT]"),
    }
    v.push(' ');
    let s = to_chars(app.status.as_str());
    if s.len() == 0 {
        push_str(&mut v, "↑/↓ — навигация, Space — раскрыть, Tab — фокус, q — выход");
    } else {
        push_str(&mut v, app.status.as_str());
    }
    from_chars(v.as_slice())
}

// ---------------------------------------------------------------- failure badge

/// The badge of an unusual ending: `KILL` for signal 9, `SIGn` for another
/// signal, `exit N` for an exit code other than 0 and 1, `ERR` when there
/// is neither; none for a success or exit code 1.
pub open spec fn badge_text(ok: bool, signal: Option<i32>, code: Option<i32>) -> Option<Seq<char>> {
    if ok {
        None
    } else {
        match signal {
            Some(sig) => if sig == 9 { Some("KILL"@) } else { Some("SIG"@ + dec_int(sig as int)) },
            None => match code {
                Some(c) => if c == 1 { None } else { Some("exit "@ + dec_int(c as int)) },
                None => Some("ERR"@),
            },
        }
    }
}

fn number_text(prefix: &str, n: i32) -> (r: String)
    ensures
        r@ == prefix@ + dec_int(n as int),
{
    let mut v = to_chars(prefix);
    let d = fmt_i64(n as i64);
    crate::text::push_all(&mut v, d.as_slice());
    from_chars(v.as_slice())
}

/// The badge of a run, in bold red.
pub fn failure_badge(run: &RunRecord) -> (r: Option<Span>)
    ensures
        match r {
            Some(s) => badge_text(run.ok, run.signal, run.exit_code) == Some(s.content@) && s.style == bold_fg(
                Color::Red,
            ),
            None => badge_text(run.ok, run.signal, run.exit_code) is None,
        },
{
    if run.ok {
        return None;
    }
    let red = style_bold_fg(Color::Red);
    if let Some(sig) = run.signal {
        let text = if sig == 9 { from_chars(to_chars("KILL").as_slice()) } else { number_text("SIG", sig) };
        return Some(Span { content: text, style: red });
    }
    if let Some(code) = run.exit_code {
        if code == 1 {
            return None;
        }
        return Some(Span { content: number_text("exit ", code), style: red });
    }
    Some(Span { content: from_chars(to_chars("ERR").as_slice()), style: red })
}


// ---------------------------------------------------------------- right panel

/// The lines of styled spans, as values.
pub open spec fn lines_views(v: Seq<Vec<Span>>) -> Seq<Seq<(Seq<char>, Style)>> {
    v.map_values(|l: Vec<Span>| span_views(l@))
}

/// `HH:MM:SS`: two digits, a colon, two digits, a colon, two digits.
pub open spec fn clock_shaped(s: Seq<char>) -> bool {
    &&& s.len() == 8
    &&& s[2] == ':'
    &&& s[5] == ':'
    &&& forall|i: int| 0 <= i < 8 && i != 2 && i != 5 ==> '0' <= #[trigger] s[i] <= '9'
}

/// Where `t` lies from the Unix epoch, as `SystemTime::duration_since`
/// measures it: whether it is at or after the epoch, and the distance in
/// whole seconds and nanoseconds. A function of `t` alone.
pub uninterp spec fn epoch_parts(t: SystemTime) -> (bool, u64, u32);

/// `t.duration_since(UNIX_EPOCH)`, or the distance back to `t` when it
/// lies before the epoch ([`epoch_parts`]); the nanoseconds are below a
/// second.
#[verifier::external_body]
fn epoch_offset(t: SystemTime) -> (r: (bool, u64, u32))
    ensures
        r == epoch_parts(t),
        r.2 < 1_000_000_000,
{
    match t.duration_since(std::time::UNIX_EPOCH) {
        Ok(d) => (true, d.as_secs(), d.subsec_nanos()),
        Err(e) => (false, e.duration().as_secs(), e.duration().subsec_nanos()),
    }
}

/// Whether chrono's calendar holds the instant `secs` seconds and `nanos`
/// nanoseconds after the epoch (`Utc.timestamp_opt(secs, nanos)` gives a
/// single time). A function of the two numbers alone.
pub uninterp spec fn in_calendar(secs: int, nanos: u32) -> bool;

/// chrono's `Utc.timestamp_opt(secs, nanos)` taken to the local time zone
/// and formatted with `%H:%M:%S`; none exactly when the instant is outside
/// chrono's calendar ([`in_calendar`]). The text depends on the machine's
/// time zone, so only its shape is stated: chrono pads each of the three
/// fields to two digits.
#[verifier::external_body]
fn local_clock(secs: i64, nanos: u32) -> (r: Option<String>)
    ensures
        r is Some <==> in_calendar(secs as int, nanos),
        r matches Some(s) ==> clock_shaped(s@),
{
    match chrono::Utc.timestamp_opt(secs, nanos).single() {
        Some(utc) => Some(utc.with_timezone(&chrono::Local).format("%H:%M:%S").to_string()),
        None => None,
    }
}

/// The instant of `t` as chrono counts it (seconds from the epoch, possibly
/// negative, and nanoseconds in that second), when the seconds fit in an
/// `i64`.
pub open spec fn chrono_instant(t: SystemTime) -> Option<(int, u32)> {
    let (after, secs, nanos) = epoch_parts(t);
    if secs > i64::MAX {
        None
    } else if after {
        Some((secs as int, nanos))
    } else if nanos == 0 {
        Some((-(secs as int), 0u32))
    } else {
        Some((-(secs as int) - 1, (1_000_000_000 - nanos) as u32))
    }
}

/// `c` is how the clock of instant `t` shows: a local `HH:MM:SS` when the
/// calendar holds `t`, else `--:--:--`.
pub open spec fn clock_of(t: SystemTime, c: Seq<char>) -> bool {
    match chrono_instant(t) {
        Some((s, n)) => if in_calendar(s, n) {
            clock_shaped(c)
        } else {
            c == no_clock()
        },
        None => c == no_clock(),
    }
}

/// Shown for a start time that the calendar cannot place.
pub open spec fn no_clock() -> Seq<char> {
    "--:--:--"@
}

/// The local wall-clock time of `t`, `HH:MM:SS`, or `--:--:--` when it lies
/// outside the calendar's range. A time before the epoch counts back from
/// it, a partial second rounding the seconds down.
fn clock_time(t: SystemTime) -> (r: String)
    ensures
        clock_of(t, r@),
{
    let (after, secs, nanos) = epoch_offset(t);
    let parts: Option<(i64, u32)> = if secs > i64::MAX as u64 {
        None
    } else if after {
        Some((secs as i64, nanos))
    } else if nanos == 0 {
        Some((-(secs as i64), 0))
    } else {
        Some((-(secs as i64) - 1, 1_000_000_000 - nanos))
    };
    let shown = match parts {
        Some((s, n)) => local_clock(s, n),
        None => None,
    };
    match shown {
        Some(c) => c,
        None => {
            proof {
                reveal_strlit("--:--:--");
            }
            "--:--:--".to_owned()
        },
    }
}

/// «N строк» with the right plural.
pub open spec fn count_text(n: nat) -> Seq<char> {
    dec(n) + seq![' '] + plural_text(n)
}

/// The header of a run: status mark, start time, failure badge and line
/// count; greyed out when `subdued`.
pub open spec fn header_spans(r: RunRecord, clock: Seq<char>, subdued: bool) -> Seq<(Seq<char>, Style)> {
    let sym = if r.ok { "✓"@ } else { "✗"@ };
    let sym_color = if subdued { Color::DarkGray } else if r.ok { Color::Green } else { Color::Red };
    let meta = fg_style(if subdued { Color::DarkGray } else { Color::Gray });
    let head = seq![(sym, bold_fg(sym_color)), (" "@, plain()), (clock, meta), (" "@, plain())];
    let badge = match badge_text(r.ok, r.signal, r.exit_code) {
        Some(b) => seq![(b, bold_fg(Color::Red)), (" "@, plain())],
        None => Seq::empty(),
    };
    head + badge + seq![(count_text(output_lines(r.stdout@)), meta)]
}

/// The spans with their style replaced by `st`.
pub open spec fn restyled(spans: Seq<(Seq<char>, Style)>, st: Style) -> Seq<(Seq<char>, Style)> {
    spans.map_values(|x: (Seq<char>, Style)| (x.0, st))
}

/// The header line: a leading blank, then the header; all in the focus
/// style when highlighted.
pub open spec fn header_line(r: RunRecord, clock: Seq<char>, subdued: bool, highlighted: bool, focus: Style) -> Seq<(Seq<char>, Style)> {
    if highlighted {
        seq![(" "@, focus)] + restyled(header_spans(r, clock, subdued), focus)
    } else {
        seq![(" "@, plain())] + header_spans(r, clock, subdued)
    }
}

/// Output lines shown under the header.
pub open spec fn body_rows_of(view: RunView, total: nat) -> nat {
    match view {
        RunView::Collapsed => 0,
        RunView::Preview => if total < PREVIEW_LINES { total } else { PREVIEW_LINES as nat },
        RunView::Full => total,
    }
}

/// The line under a preview saying how many lines are hidden.
pub open spec fn more_text(rest: nat) -> Seq<char> {
    "--- ещё "@ + dec(rest) + seq![' '] + plural_text(rest) + " ---"@
}

/// The body of a run in `view` scrolled by `scroll`: the shown output
/// lines indented by two spaces, and in preview the "more" line.
pub open spec fn body_lines(r: RunRecord, view: RunView, scroll: nat) -> Seq<Seq<(Seq<char>, Style)>> {
    let all = lines_of(r.stdout@);
    let total = all.len();
    let rows = body_rows_of(view, total);
    if rows == 0 {
        Seq::empty()
    } else {
        let start: nat = if scroll < total { scroll } else { total };
        let end: nat = if start + rows < total { start + rows } else { total };
        let body = all.subrange(start as int, end as int).map_values(
            |l: Seq<char>| seq![("  "@ + l, plain())],
        );
        let rest: nat = if total > rows { (total - rows) as nat } else { 0 };
        if view == RunView::Preview && rest > 0 {
            body.push(seq![(more_text(rest), fg_style(Color::DarkGray))])
        } else {
            body
        }
    }
}

/// Block `k` of the selected runs `ids`: header and body.
pub open spec fn block_lines(a: AppV, ids: Seq<usize>, k: int, sel: int, in_body: bool, clock: Seq<char>) -> Seq<
    Seq<(Seq<char>, Style)>,
> {
    let id = ids[k] as int;
    let r = a.runs[id];
    let is_sel = k == sel;
    let view = if in_body && !is_sel { RunView::Collapsed } else { a.run_views[id].view };
    let subdued = in_body && !is_sel;
    let highlighted = is_sel && a.focus == Panel::Right;
    seq![header_line(r, clock, subdued, highlighted, highlight_spec(Panel::Right, a.focus))] + body_lines(
        r,
        view,
        a.run_views[id].scroll as nat,
    )
}

/// Blocks `first .. k` one after the other.
pub open spec fn blocks(a: AppV, ids: Seq<usize>, first: int, k: int, sel: int, in_body: bool, clocks: Seq<Seq<char>>) -> Seq<
    Seq<(Seq<char>, Style)>,
>
    decreases k - first,
{
    if k <= first {
        Seq::empty()
    } else {
        blocks(a, ids, first, k - 1, sel, in_body, clocks) + block_lines(a, ids, k - 1, sel, in_body, clocks[k - 1])
    }
}

/// At most the first `m` items.
pub open spec fn trunc<T>(s: Seq<T>, m: nat) -> Seq<T> {
    if s.len() <= m {
        s
    } else {
        s.take(m as int)
    }
}

/// What the right panel of height `height` shows, given the clock text of
/// each selected run: a placeholder when the entry has no run yet, else
/// the run blocks from the first visible one, cut to the panel's height.
/// The panel height is recorded and the first visible block recomputed.
pub open spec fn right_panel_spec(a: AppV, height: u16, clocks: Seq<Seq<char>>) -> (AppV, Seq<
    Seq<(Seq<char>, Style)>,
>) {
    let a1 = AppV { right_area_height: height, ..a };
    let ids = selected_runs(a1);
    if ids.len() == 0 {
        (a1, seq![seq![("(ещё не запускалось)"@, fg_style(Color::DarkGray))]])
    } else {
        let a2 = AppV { right_first_visible: first_visible_spec(a1), ..a1 };
        let s0: int = match a2.right_state.selected {
            Some(s) => s as int,
            None => 0,
        };
        let sel: int = if s0 > ids.len() - 1 { ids.len() - 1 } else { s0 };
        let in_body = right_mode_spec(a2) == RightMode::Body;
        let first: int = if a2.right_first_visible > ids.len() - 1 { ids.len() - 1 } else { a2.right_first_visible as int };
        (a2, trunc(blocks(a2, ids, first, ids.len() as int, sel, in_body, clocks), height as nat))
    }
}

proof fn lemma_trunc_append<T>(x: Seq<T>, y: Seq<T>, m: nat)
    ensures
        trunc(trunc(x, m) + y, m) == trunc(x + y, m),
{
    if x.len() <= m {
    } else {
        assert((x.take(m as int) + y).take(m as int) =~= (x + y).take(m as int));
    }
}

proof fn lemma_blocks_split(a: AppV, ids: Seq<usize>, first: int, k: int, j: int, sel: int, in_body: bool, clocks: Seq<Seq<char>>)
    requires
        first <= k <= j,
    ensures
        exists|rest: Seq<Seq<(Seq<char>, Style)>>|
            blocks(a, ids, first, j, sel, in_body, clocks) == blocks(a, ids, first, k, sel, in_body, clocks) + rest,
    decreases j - k,
{
    if k == j {
        assert(blocks(a, ids, first, j, sel, in_body, clocks) =~= blocks(a, ids, first, k, sel, in_body, clocks)
            + Seq::<Seq<(Seq<char>, Style)>>::empty());
    } else {
        lemma_blocks_split(a, ids, first, k, j - 1, sel, in_body, clocks);
        let rest = choose|rest: Seq<Seq<(Seq<char>, Style)>>|
            blocks(a, ids, first, j - 1, sel, in_body, clocks) == blocks(a, ids, first, k, sel, in_body, clocks)
                + rest;
        let b = block_lines(a, ids, j - 1, sel, in_body, clocks[j - 1]);
        assert(blocks(a, ids, first, j, sel, in_body, clocks) =~= blocks(a, ids, first, k, sel, in_body, clocks)
            + (rest + b));
    }
}

/// Once `m` lines are reached, further blocks change nothing.
proof fn lemma_trunc_full(a: AppV, ids: Seq<usize>, first: int, k: int, j: int, sel: int, in_body: bool, clocks: Seq<Seq<char>>, m: nat)
    requires
        first <= k <= j,
        trunc(blocks(a, ids, first, k, sel, in_body, clocks), m).len() >= m,
    ensures
        trunc(blocks(a, ids, first, j, sel, in_body, clocks), m) == trunc(blocks(a, ids, first, k, sel, in_body, clocks), m),
{
    lemma_blocks_split(a, ids, first, k, j, sel, in_body, clocks);
    let rest = choose|rest: Seq<Seq<(Seq<char>, Style)>>|
        blocks(a, ids, first, j, sel, in_body, clocks) == blocks(a, ids, first, k, sel, in_body, clocks) + rest;
    let x = blocks(a, ids, first, k, sel, in_body, clocks);
    lemma_trunc_append(x, rest, m);
    assert((trunc(x, m) + rest).take(m as int) =~= trunc(x, m));
}

/// `n` as decimal text followed by a space and the plural of «строка».
fn count_string(prefix: &str, n: usize, suffix: &str) -> (r: String)
    ensures
        r@ == prefix@ + dec(n as nat) + seq![' '] + plural_text(n as nat) + suffix@,
{
    let mut v = to_chars(prefix);
    let d = fmt_u64(n as u64);
    crate::text::push_all(&mut v, d.as_slice());
    v.push(' ');
    push_str(&mut v, plural_ru(n));
    push_str(&mut v, suffix);
    from_chars(v.as_slice())
}

fn str_span(text: &str, style: Style) -> (s: Span)
    ensures
        s.content@ == text@,
        s.style == style,
{
    Span { content: from_chars(to_chars(text).as_slice()), style }
}

/// The header line of a run.
fn header_line_exec(run: &RunRecord, clock: &str, subdued: bool, highlighted: bool, focus: Style) -> (r: Vec<Span>)
    ensures
        span_views(r@) == header_line(*run, clock@, subdued, highlighted, focus),
{
    let sym = if run.ok { "✓" } else { "✗" };
    let sym_color = if subdued { Color::DarkGray } else if run.ok { Color::Green } else { Color::Red };
    let meta = style_fg(if subdued { Color::DarkGray } else { Color::Gray });
    let mut parts: Vec<Span> = Vec::new();
    parts.push(str_span(sym, style_bold_fg(sym_color)));
    parts.push(str_span(" ", Style::new()));
    parts.push(str_span(clock, meta));
    parts.push(str_span(" ", Style::new()));
    let ghost head = span_views(parts@);
    assert(head =~= seq![
        (if run.ok { "✓"@ } else { "✗"@ }, bold_fg(sym_color)),
        (" "@, plain()),
        (clock@, meta),
        (" "@, plain()),
    ]);
    match failure_badge(run) {
        Some(b) => {
            parts.push(b);
            parts.push(str_span(" ", Style::new()));
        },
        None => {},
    }
    let ghost with_badge = span_views(parts@);
    let total = crate::run_view::count_lines(&run.stdout);
    parts.push(Span { content: count_string("", total, ""), style: meta });
    proof {
        reveal_strlit("");
    }
    assert(""@ + dec(total as nat) + seq![' '] + plural_text(total as nat) + ""@ =~= count_text(total as nat));
    assert(span_views(parts@) =~= with_badge.push((count_text(total as nat), meta)));
    assert(span_views(parts@) =~= header_spans(*run, clock@, subdued));
    let mut out: Vec<Span> = Vec::new();
    if highlighted {
        out.push(str_span(" ", focus));
        let mut i: usize = 0;
        while i < parts.len()
            invariant
                i <= parts.len(),
                span_views(out@) =~= seq![(" "@, focus)] + restyled(span_views(parts@).take(i as int), focus),
            decreases parts.len() - i,
        {
            let c = from_chars(to_chars(parts[i].content.as_str()).as_slice());
            let ghost o = span_views(out@);
            out.push(Span { content: c, style: focus });
            assert(span_views(out@) =~= o.push((parts@[i as int].content@, focus)));
            assert(restyled(span_views(parts@).take(i + 1), focus) =~= restyled(
                span_views(parts@).take(i as int),
                focus,
            ).push((parts@[i as int].content@, focus)));
            i = i + 1;
        }
        assert(span_views(parts@).take(parts.len() as int) =~= span_views(parts@));
    } else {
        out.push(str_span(" ", Style::new()));
        let mut i: usize = 0;
        while i < parts.len()
            invariant
                i <= parts.len(),
                span_views(out@) =~= seq![(" "@, plain())] + span_views(parts@).take(i as int),
            decreases parts.len() - i,
        {
            let c = from_chars(to_chars(parts[i].content.as_str()).as_slice());
            let ghost o = span_views(out@);
            out.push(Span { content: c, style: parts[i].style });
            assert(span_views(out@) =~= o.push((parts@[i as int].content@, parts@[i as int].style)));
            assert(span_views(parts@).take(i + 1) =~= span_views(parts@).take(i as int).push(
                (parts@[i as int].content@, parts@[i as int].style),
            ));
            i = i + 1;
        }
        assert(span_views(parts@).take(parts.len() as int) =~= span_views(parts@));
    }
    out
}

/// The body lines of a run in `view` scrolled by `scroll`.
fn body_lines_exec(run: &RunRecord, view: RunView, scroll: usize) -> (r: Vec<Vec<Span>>)
    ensures
        lines_views(r@) == body_lines(*run, view, scroll as nat),
{
    let out_chars = to_chars(run.stdout.as_str());
    let all = lines(out_chars.as_slice());
    let total = all.len();
    assert(total == lines_of(run.stdout@).len()) by {
        assert(crate::text::views(all@).len() == all@.len());
    }
    let rows = match view {
        RunView::Collapsed => 0,
        RunView::Preview => if total < PREVIEW_LINES { total } else { PREVIEW_LINES },
        RunView::Full => total,
    };
    let mut res: Vec<Vec<Span>> = Vec::new();
    if rows == 0 {
        assert(lines_views(res@) =~= Seq::<Seq<(Seq<char>, Style)>>::empty());
        return res;
    }
    let start = if scroll < total { scroll } else { total };
    let end = if rows < total - start { start + rows } else { total };
    let ghost ls = lines_of(run.stdout@);
    let mut i: usize = start;
    while i < end
        invariant
            start <= i <= end,
            end <= total,
            total == all@.len(),
            ls == crate::text::views(all@),
            lines_views(res@) =~= ls.subrange(start as int, i as int).map_values(
                |l: Seq<char>| seq![("  "@ + l, plain())],
            ),
        decreases end - i,
    {
        let mut v = to_chars("  ");
        crate::text::push_all(&mut v, all[i].as_slice());
        let mut line: Vec<Span> = Vec::new();
        line.push(Span { content: from_chars(v.as_slice()), style: Style::new() });
        assert(all@[i as int]@ == ls[i as int]);
        assert(span_views(line@) =~= seq![("  "@ + ls[i as int], plain())]);
        let ghost before = lines_views(res@);
        res.push(line);
        assert(lines_views(res@) =~= before.push(seq![("  "@ + ls[i as int], plain())]));
        assert(ls.subrange(start as int, i + 1).map_values(|l: Seq<char>| seq![("  "@ + l, plain())])
            =~= ls.subrange(start as int, i as int).map_values(|l: Seq<char>| seq![("  "@ + l, plain())]).push(
            seq![("  "@ + ls[i as int], plain())],
        ));
        i = i + 1;
    }
    let rest = if total > rows { total - rows } else { 0 };
    if view == RunView::Preview && rest > 0 {
        let mut line: Vec<Span> = Vec::new();
        line.push(Span { content: count_string("--- ещё ", rest, " ---"), style: style_fg(Color::DarkGray) });
        assert(span_views(line@) =~= seq![(more_text(rest as nat), fg_style(Color::DarkGray))]);
        let ghost before = lines_views(res@);
        res.push(line);
        assert(lines_views(res@) =~= before.push(seq![(more_text(rest as nat), fg_style(Color::DarkGray))]));
    }
    res
}


/// Block `k` of the selected runs: header and body.
fn block_lines_exec(app: &App, ids: &Vec<usize>, k: usize, sel: usize, in_body: bool, clock: &str) -> (r: Vec<Vec<Span>>)
    requires
        crate::menu::wf(app@),
        ids@ == selected_runs(app@),
        k < ids@.len(),
    ensures
        lines_views(r@) == block_lines(app@, ids@, k as int, sel as int, in_body, clock@),
{
    proof {
        crate::menu::lemma_selected_runs(app@);
        assert(ids@[k as int] < app@.runs.len());
    }
    let id = ids[k];
    let run = &app.runs[id];
    let is_sel = k == sel;
    let view = if in_body && !is_sel { RunView::Collapsed } else { app.run_views[id].view };
    let subdued = in_body && !is_sel;
    let highlighted = is_sel && app.focus == Panel::Right;
    let focus = highlight_style_for(Panel::Right, app.focus);
    let header = header_line_exec(run, clock, subdued, highlighted, focus);
    let body = body_lines_exec(run, view, app.run_views[id].scroll);
    let mut out: Vec<Vec<Span>> = Vec::new();
    out.push(header);
    let ghost h = lines_views(out@);
    append_limited(&mut out, body, usize::MAX);
    proof {
        assert(lines_views(out@) == trunc(h + lines_views(body@), usize::MAX as nat));
    }
    out
}

/// Appends the lines of `more` while `out` has fewer than `m` lines.
fn append_limited(out: &mut Vec<Vec<Span>>, more: Vec<Vec<Span>>, m: usize)
    requires
        old(out)@.len() <= m,
    ensures
        lines_views(final(out)@) == trunc(lines_views(old(out)@) + lines_views(more@), m as nat),
{
    let ghost x = lines_views(out@);
    let ghost b = lines_views(more@);
    let mut more = more;
    let ghost mut j: int = 0;
    while more.len() > 0 && out.len() < m
        invariant
            0 <= j <= b.len(),
            lines_views(more@) == b.skip(j),
            lines_views(out@) == x + b.take(j),
            out@.len() <= m,
            x.len() <= m,
        decreases more.len(),
    {
        assert(lines_views(more@).len() == more@.len());
        let ghost m0 = more@;
        let l = more.remove(0);
        assert(l == m0[0]);
        assert(lines_views(m0)[0] == b[j]);
        let ghost o = lines_views(out@);
        out.push(l);
        proof {
            assert(span_views(l@) == b[j]);
            assert(lines_views(out@) =~= o.push(b[j]));
            assert(b.take(j + 1) =~= b.take(j).push(b[j]));
            assert(more@ =~= m0.subrange(1, m0.len() as int));
            assert(lines_views(more@) =~= lines_views(m0).skip(1));
            assert(b.skip(j).skip(1) =~= b.skip(j + 1));
            j = j + 1;
        }
    }
    proof {
        if more.len() == 0 {
            assert(b.skip(j).len() == 0);
            assert(b.take(j) =~= b);
        } else {
            assert((x + b).take(m as int) =~= x + b.take(j));
        }
    }
}

/// The right panel's lines for a panel of height `height`, given the clock
/// text of each of the selected entry's runs (newest first).
pub fn right_panel_lines(app: &mut App, height: u16, clocks: &Vec<String>) -> (r: Vec<Vec<Span>>)
    requires
        crate::menu::wf(old(app)@),
        clocks@.len() == selected_runs(old(app)@).len(),
    ensures
        (final(app)@, lines_views(r@)) == right_panel_spec(old(app)@, height, crate::text::strings(clocks@)),
        crate::menu::wf(final(app)@),
{
    app.right_area_height = height;
    let ids = app.runs_for_selected();
    if ids.len() == 0 {
        let mut line: Vec<Span> = Vec::new();
        line.push(str_span("(ещё не запускалось)", style_fg(Color::DarkGray)));
        assert(span_views(line@) =~= seq![("(ещё не запускалось)"@, fg_style(Color::DarkGray))]);
        let mut out: Vec<Vec<Span>> = Vec::new();
        out.push(line);
        assert(lines_views(out@) =~= seq![seq![("(ещё не запускалось)"@, fg_style(Color::DarkGray))]]);
        return out;
    }
    app.recompute_right_first();
    let ghost a2 = app@;
    let n = ids.len();
    let s0 = match app.right_state.selected() {
        Some(s) => s,
        None => 0,
    };
    let sel = if s0 > n - 1 { n - 1 } else { s0 };
    let in_body = app.in_body_mode();
    let first = if app.right_first_visible > n - 1 { n - 1 } else { app.right_first_visible };
    let max_rows = height as usize;
    let ghost cs = crate::text::strings(clocks@);
    let mut out: Vec<Vec<Span>> = Vec::new();
    let mut k = first;
    while k < n && out.len() < max_rows
        invariant
            app@ == a2,
            crate::menu::wf(a2),
            ids@ == selected_runs(a2),
            n == ids@.len(),
            first <= k <= n,
            clocks@.len() == n,
            cs == crate::text::strings(clocks@),
            lines_views(out@) == trunc(blocks(a2, ids@, first as int, k as int, sel as int, in_body, cs), max_rows as nat),
        decreases n - k,
    {
        let block = block_lines_exec(app, &ids, k, sel, in_body, clocks[k].as_str());
        let ghost prev = blocks(a2, ids@, first as int, k as int, sel as int, in_body, cs);
        proof {
            lemma_trunc_append(prev, lines_views(block@), max_rows as nat);
        }
        append_limited(&mut out, block, max_rows);
        k = k + 1;
    }
    proof {
        if k < n {
            lemma_trunc_full(a2, ids@, first as int, k as int, n as int, sel as int, in_body, cs, max_rows as nat);
        }
    }
    out
}

/// The start instants of the selected entry's runs, newest first.
pub open spec fn selected_starts(a: AppV) -> Seq<SystemTime> {
    selected_runs(a).map_values(|id: usize| a.runs[id as int].started_at)
}

/// The right panel's lines, with each run's start shown in local time
/// (`--:--:--` for a time the calendar cannot place).
pub fn right_panel(app: &mut App, height: u16) -> (r: Vec<Vec<Span>>)
    requires
        crate::menu::wf(old(app)@),
    ensures
        exists|clocks: Seq<Seq<char>>|
            {
                &&& clocks.len() == selected_runs(old(app)@).len()
                &&& forall|k: int| 0 <= k < clocks.len() ==> clock_of(selected_starts(old(app)@)[k], #[trigger] clocks[k])
                &&& (final(app)@, lines_views(r@)) == right_panel_spec(old(app)@, height, clocks)
            },
        crate::menu::wf(final(app)@),
{
    let ids = app.runs_for_selected();
    let ghost a0 = app@;
    proof {
        crate::menu::lemma_selected_runs(app@);
    }
    let mut clocks: Vec<String> = Vec::new();
    let mut k: usize = 0;
    while k < ids.len()
        invariant
            k <= ids@.len(),
            clocks@.len() == k,
            ids@ == selected_runs(app@),
            crate::menu::wf(app@),
            forall|j: int| 0 <= j < ids@.len() ==> (#[trigger] ids@[j]) < app@.runs.len(),
            forall|j: int| 0 <= j < k ==> clock_of(selected_starts(app@)[j], #[trigger] clocks@[j]@),
        decreases ids.len() - k,
    {
        assert(ids@[k as int] < app@.runs.len());
        let c = clock_time(app.runs[ids[k]].started_at);
        clocks.push(c);
        k = k + 1;
    }
    let ghost cs = crate::text::strings(clocks@);
    let r = right_panel_lines(app, height, &clocks);
    assert forall|j: int| 0 <= j < cs.len() implies clock_of(selected_starts(a0)[j], #[trigger] cs[j]) by {
        assert(cs[j] == clocks@[j]@);
    }
    r
}


// ---------------------------------------------------------------- left panel

/// The mark after an entry's label: a spinner frame while running; after
/// a run that is still recorded, ✓ or ✗ and, when the run ended less than
/// five minutes ago (`age`), how long ago.
pub open spec fn left_item_spec(a: AppV, i: int, age: Duration) -> Seq<(Seq<char>, Style)> {
    let label = seq![(a.entries[i].label@, plain())];
    match a.states[i] {
        EntryState::Idle => label,
        EntryState::Running => label + seq![(" "@, plain()), (spinner_text((a.tick % 10) as nat), fg_style(Color::Yellow))],
        EntryState::Done { run_id } => if run_id < a.runs.len() {
            let run = a.runs[run_id as int];
            let mark = seq![
                (" "@, plain()),
                (if run.ok { "✓"@ } else { "✗"@ }, fg_style(if run.ok { Color::Green } else { Color::Red })),
            ];
            let ago = age_label(whole_seconds(age) as nat);
            if ago.len() == 0 {
                label + mark
            } else {
                label + mark + seq![(" "@, plain()), (ago, fg_style(Color::DarkGray))]
            }
        } else {
            label
        },
    }
}

/// The item of entry `i` when its last run ended `age` ago.
pub fn left_item(app: &App, i: usize, age: Duration) -> (r: Vec<Span>)
    requires
        i < app.entries@.len(),
        app.states@.len() == app.entries@.len(),
    ensures
        span_views(r@) == left_item_spec(app@, i as int, age),
{
    let mut spans: Vec<Span> = Vec::new();
    spans.push(str_span(app.entries[i].label.as_str(), Style::new()));
    match app.states[i] {
        EntryState::Idle => {},
        EntryState::Running => {
            spans.push(str_span(" ", Style::new()));
            spans.push(str_span(spinner_frame(app.tick), style_fg(Color::Yellow)));
        },
        EntryState::Done { run_id } => {
            if run_id < app.runs.len() {
                let ok = app.runs[run_id].ok;
                spans.push(str_span(" ", Style::new()));
                spans.push(str_span(if ok { "✓" } else { "✗" }, style_fg(if ok { Color::Green } else { Color::Red })));
                let ago = format_duration(age);
                let n = to_chars(ago.as_str()).len();
                if n > 0 {
                    spans.push(str_span(" ", Style::new()));
                    spans.push(Span { content: ago, style: style_fg(Color::DarkGray) });
                }
            }
        },
    }
    assert(span_views(spans@) =~= left_item_spec(app@, i as int, age));
    spans
}

/// When the last run of entry `i` ended, for an entry whose last run is
/// still recorded.
pub open spec fn last_finish(a: AppV, i: int) -> Option<SystemTime> {
    match a.states[i] {
        EntryState::Done { run_id } => if run_id < a.runs.len() {
            Some(a.runs[run_id as int].finished_at)
        } else {
            None
        },
        _ => None,
    }
}

/// `line` is the item of entry `i` as seen at instant `now`: the age shown
/// is the time from the end of its last run to `now`. (An entry with no
/// recorded run shows no age, so any age gives its item.)
pub open spec fn item_seen_at(a: AppV, i: int, now: SystemTime, line: Seq<Span>) -> bool {
    match last_finish(a, i) {
        Some(f) => span_views(line) == left_item_spec(a, i, time_between(now, f)),
        None => exists|age: Duration| span_views(line) == left_item_spec(a, i, age),
    }
}

/// `line` is the item of entry `i` as seen at some instant.
pub open spec fn item_seen(a: AppV, i: int, line: Seq<Span>) -> bool {
    exists|now: SystemTime| #[trigger] item_seen_at(a, i, now, line)
}

/// How long after `earlier` the instant `later` is, as
/// `later.duration_since(earlier)` gives it, zero when `later` comes first.
/// A function of the two instants alone.
pub uninterp spec fn time_between(later: SystemTime, earlier: SystemTime) -> Duration;

/// `later.duration_since(earlier)`, or `Duration::ZERO` when `later` is
/// the earlier one ([`time_between`]).
#[verifier::external_body]
fn duration_between(later: SystemTime, earlier: SystemTime) -> (d: Duration)
    ensures
        d == time_between(later, earlier),
{
    later.duration_since(earlier).unwrap_or(Duration::ZERO)
}

/// `SystemTime::now()`: the current instant, read from the clock, so
/// nothing is stated of it.
#[verifier::external_body]
fn now_time() -> (t: SystemTime) {
    SystemTime::now()
}

/// The items of the left list; the age of each finished run is the time
/// from its end to an instant read from the clock when the item is made.
pub fn left_items(app: &App) -> (r: Vec<Vec<Span>>)
    requires
        app.states@.len() == app.entries@.len(),
    ensures
        r@.len() == app.entries@.len(),
        forall|i: int| 0 <= i < r@.len() ==> #[trigger] item_seen(app@, i, r@[i]@),
{
    let mut out: Vec<Vec<Span>> = Vec::new();
    let ghost mut nows: Seq<SystemTime> = Seq::empty();
    let mut i: usize = 0;
    while i < app.entries.len()
        invariant
            i <= app.entries@.len(),
            out@.len() == i,
            nows.len() == i,
            app.states@.len() == app.entries@.len(),
            forall|j: int| 0 <= j < i ==> item_seen_at(app@, j, nows[j], #[trigger] out@[j]@),
        decreases app.entries.len() - i,
    {
        let now = now_time();
        let age = match app.states[i] {
            EntryState::Done { run_id } => if run_id < app.runs.len() {
                duration_between(now, app.runs[run_id].finished_at)
            } else {
                crate::run_view::zero_duration()
            },
            _ => crate::run_view::zero_duration(),
        };
        let item = left_item(app, i, age);
        proof {
            assert(item_seen_at(app@, i as int, now, item@));
            nows = nows.push(now);
        }
        out.push(item);
        i = i + 1;
    }
    assert forall|j: int| 0 <= j < out@.len() implies #[trigger] item_seen(app@, j, out@[j]@) by {
        assert(item_seen_at(app@, j, nows[j], out@[j]@));
    }
    out
}

// ---------------------------------------------------------------- layout

/// The screen split into the main area and the one-row status bar below
/// it (ratatui's `Layout` with `Min(1)` and `Length(1)`).
pub uninterp spec fn rows_split(area: Rect) -> (Rect, Rect);

/// The main area split into the left list, a one-column divider and the
/// right panel (ratatui's `Layout` with `Length(left)`, `Length(1)` and
/// `Min(1)`).
pub uninterp spec fn columns_split(area: Rect, left: u16) -> (Rect, Rect, Rect);

/// ratatui's vertical `Layout` of `Min(1)` over `Length(1)` applied to
/// `area`; its result is named [`rows_split`]. On an area of at least two
/// rows that ends within the `u16` range, the status row is the last one
/// and the main area all the rows above it (`Min` gives way to the exact
/// `Length`; what is left stretches the `Min`).
#[verifier::external_body]
fn split_rows(area: Rect) -> (r: (Rect, Rect))
    ensures
        r == rows_split(area),
        area.height >= 2 && area.y + area.height <= u16::MAX ==> {
            &&& r.0 == (Rect { x: area.x, y: area.y, width: area.width, height: (area.height - 1) as u16 })
            &&& r.1 == (Rect { x: area.x, y: (area.y + area.height - 1) as u16, width: area.width, height: 1 })
        },
{
    let c = Layout::vertical([Constraint::Min(1), Constraint::Length(1)]).split(
        TuiRect { x: area.x, y: area.y, width: area.width, height: area.height },
    );
    (
        Rect { x: c[0].x, y: c[0].y, width: c[0].width, height: c[0].height },
        Rect { x: c[1].x, y: c[1].y, width: c[1].width, height: c[1].height },
    )
}

/// ratatui's horizontal `Layout` of `Length(left)`, `Length(1)` and
/// `Min(1)` applied to `area`; its result is named [`columns_split`].
#[verifier::external_body]
fn split_columns(area: Rect, left: u16) -> (r: (Rect, Rect, Rect))
    ensures
        r == columns_split(area, left),
{
    let c = Layout::horizontal([Constraint::Length(left), Constraint::Length(1), Constraint::Min(1)]).split(
        TuiRect { x: area.x, y: area.y, width: area.width, height: area.height },
    );
    (
        Rect { x: c[0].x, y: c[0].y, width: c[0].width, height: c[0].height },
        Rect { x: c[1].x, y: c[1].y, width: c[1].width, height: c[1].height },
        Rect { x: c[2].x, y: c[2].y, width: c[2].width, height: c[2].height },
    )
}

/// Where the parts of the screen go.
#[derive(Debug, Clone, Copy, PartialEq, Eq, Structural)]
pub struct Screen {
    pub left: Rect,
    pub divider: Rect,
    pub right: Rect,
    pub status: Rect,
}

/// The left width kept at most one column less than the main area.
pub open spec fn clamped_left(left_width: u16, main: Rect) -> u16 {
    let max_left: u16 = if main.width >= 1 { (main.width - 1) as u16 } else { 0 };
    if left_width > max_left { max_left } else { left_width }
}

/// The layout of a screen of size `size`, given the two splits.
pub open spec fn screen_of(size: Rect, left_width: u16) -> Screen {
    let (main, status) = rows_split(size);
    let (l, d, r) = columns_split(main, clamped_left(left_width, main));
    Screen { left: l, divider: d, right: r, status }
}

/// Lays out a screen of size `size`: records its width, keeps the left
/// width below the main area's, and records both panels' rectangles. On a
/// screen of two rows or more the status bar is the last row.
pub fn layout(app: &mut App, size: Rect) -> (s: Screen)
    ensures
        s == screen_of(size, old(app).left_width),
        size.height >= 2 && size.y + size.height <= u16::MAX ==> s.status == (Rect {
            x: size.x,
            y: (size.y + size.height - 1) as u16,
            width: size.width,
            height: 1,
        }),
        final(app)@ == (AppV {
            area_width: size.width,
            left_width: clamped_left(old(app).left_width, rows_split(size).0),
            left_panel_rect: s.left,
            right_panel_rect: s.right,
            ..old(app)@
        }),
{
    app.area_width = size.width;
    let (main, status) = split_rows(size);
    let max_left = if main.width >= 1 { main.width - 1 } else { 0 };
    if app.left_width > max_left {
        app.left_width = max_left;
    }
    let (l, d, r) = split_columns(main, app.left_width);
    app.left_panel_rect = l;
    app.right_panel_rect = r;
    Screen { left: l, divider: d, right: r, status }
}

} // verus!
