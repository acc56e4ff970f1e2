//! How much of one run the history panel shows, and the short "how long
//! ago" labels of the menu.

use std::time::Duration;
use vstd::prelude::*;
use crate::run_record::RunRecord;
use crate::text::{dec, fmt_u64, from_chars, lines, lines_of};

verus! {

/// Lines shown in the preview of a run.
pub const PREVIEW_LINES: usize = 12;

/// How far one run is unfolded.
#[derive(Debug, Clone, Copy, PartialEq, Eq, Structural)]
pub enum RunView {
    Collapsed,
    Preview,
    Full,
}

impl Default for RunView {
    fn default() -> (v: RunView)
        ensures
            v == RunView::Collapsed,
    {
        RunView::Collapsed
    }
}

/// Display state of one run.
#[derive(Debug, Clone, Copy, PartialEq, Eq, Structural)]
pub struct RunViewState {
    pub view: RunView,
    pub scroll: usize,
}

impl Default for RunViewState {
    fn default() -> (v: RunViewState)
        ensures
            v == (RunViewState { view: RunView::Collapsed, scroll: 0 }),
    {
        RunViewState { view: RunView::Collapsed, scroll: 0 }
    }
}

/// Number of lines of standard output of a run.
pub open spec fn output_lines(stdout: Seq<char>) -> nat {
    lines_of(stdout).len()
}

/// Height in rows of a run's block: a header, and in preview at most
/// [`PREVIEW_LINES`] lines plus a "more" line when some are hidden, in
/// full view every line.
pub open spec fn block_rows(total: nat, view: RunView) -> nat {
    match view {
        RunView::Collapsed => 1,
        RunView::Preview => {
            let shown = if total < PREVIEW_LINES { total } else { PREVIEW_LINES as nat };
            let tail: nat = if total > PREVIEW_LINES { 1 } else { 0 };
            1 + shown + tail
        },
        RunView::Full => 1 + total,
    }
}

/// Number of output lines of `stdout`.
pub fn count_lines(stdout: &String) -> (n: usize)
    ensures
        n == output_lines(stdout@),
{
    let c = crate::text::to_chars(stdout.as_str());
    let l = lines(c.as_slice());
    assert(l@.len() == crate::text::views(l@).len());
    l.len()
}

/// Height of one run's block in the given view.
pub fn block_height(run: &RunRecord, view: RunView) -> (h: usize)
    requires
        output_lines(run.stdout@) < usize::MAX,
    ensures
        h == block_rows(output_lines(run.stdout@), view),
{
    let total = count_lines(&run.stdout);
    match view {
        RunView::Collapsed => 1,
        RunView::Preview => {
            let shown = if total < PREVIEW_LINES { total } else { PREVIEW_LINES };
            let tail = if total > PREVIEW_LINES { 1 } else { 0 };
            1 + shown + tail
        },
        RunView::Full => 1 + total,
    }
}

/// The whole seconds of a duration (`Duration::as_secs`).
pub uninterp spec fn whole_seconds(d: Duration) -> u64;

/// `Duration::as_secs`: the whole seconds of `d`.
#[verifier::external_body]
fn duration_secs(d: &Duration) -> (s: u64)
    ensures
        s == whole_seconds(*d),
{
    d.as_secs()
}

/// `Duration::ZERO`, the duration of no time: zero whole seconds.
#[verifier::external_body]
pub(crate) fn zero_duration() -> (d: Duration)
    ensures
        whole_seconds(d) == 0,
{
    Duration::ZERO
}

/// Age label with 5-second steps: `5s`, `10s`, …, `55s`, then `1m` … `4m`;
/// empty from five minutes on.
pub open spec fn age_label(secs: nat) -> Seq<char> {
    if secs >= 300 {
        Seq::empty()
    } else {
        let rounded = (secs / 5) * 5;
        if rounded < 60 {
            dec(rounded).push('s')
        } else {
            dec(rounded / 60).push('m')
        }
    }
}

/// The age label for a number of seconds.
pub fn format_seconds(secs: u64) -> (r: String)
    ensures
        r@ == age_label(secs as nat),
{
    if secs >= 300 {
        return from_chars(&[]);
    }
    let rounded = (secs / 5) * 5;
    if rounded < 60 {
        let mut d = fmt_u64(rounded);
        d.push('s');
        from_chars(d.as_slice())
    } else {
        let mut d = fmt_u64(rounded / 60);
        d.push('m');
        from_chars(d.as_slice())
    }
}

/// The age label for a duration.
pub fn format_duration(d: Duration) -> (r: String)
    ensures
        r@ == age_label(whole_seconds(d) as nat),
{
    let secs = duration_secs(&d);
    format_seconds(secs)
}

} // verus!
