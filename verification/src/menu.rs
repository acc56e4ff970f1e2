//! State of the command menu: the entries on the left, the history of
//! their runs on the right, and how keys, clicks and finished processes
//! change it.
//!
//! Starting a process is the front end's work: [`App::activate_selected`]
//! answers with an [`Action`], and the front end reports back with
//! [`App::spawned`] or [`App::spawn_failed`]; finished processes come in
//! through [`App::tick`].

use std::time::{Duration, SystemTime};
use vstd::prelude::*;
use crate::run_record::RunRecord;
use crate::run_view::{block_rows, count_lines, output_lines, whole_seconds, zero_duration, RunView, RunViewState, PREVIEW_LINES};
use crate::text::str_concat;
use crate::widgets::key::Key;

verus! {

/// One command of the menu.
#[derive(Debug, Clone)]
pub struct MenuEntry {
    /// Shell command line.
    pub cmd: String,
    /// Name shown in the menu.
    pub label: String,
}

/// A panel of the screen.
#[derive(Debug, Clone, Copy, PartialEq, Eq, Structural)]
pub enum Panel {
    Left,
    Right,
}

/// What j/k do in the right panel: move over runs, or (when the selected
/// run is unfolded) scroll its output.
#[derive(Debug, Clone, Copy, PartialEq, Eq, Structural)]
pub enum RightMode {
    List,
    Body,
}

/// Run state of one menu entry.
#[derive(Debug, Clone, Copy, PartialEq, Eq, Structural)]
pub enum EntryState {
    Idle,
    Running,
    /// The last run is `runs[run_id]`.
    Done { run_id: usize },
}

/// Selection and scroll offset of a list.
#[derive(Debug, Clone, Copy, PartialEq, Eq, Structural)]
pub struct ListState {
    pub offset: usize,
    pub selected: Option<usize>,
}

/// The list state after selecting `index`: no selection also resets the
/// offset.
pub open spec fn select_spec(s: ListState, index: Option<usize>) -> ListState {
    ListState { offset: if index is None { 0 } else { s.offset }, selected: index }
}

impl Default for ListState {
    fn default() -> (s: ListState)
        ensures
            s == (ListState { offset: 0, selected: None }),
    {
        ListState { offset: 0, selected: None }
    }
}

impl ListState {
    pub fn select(&mut self, index: Option<usize>)
        ensures
            *final(self) == select_spec(*old(self), index),
    {
        self.selected = index;
        if index.is_none() {
            self.offset = 0;
        }
    }

    pub fn selected(&self) -> (r: Option<usize>)
        ensures
            r == self.selected,
    {
        self.selected
    }

    pub fn offset(&self) -> (r: usize)
        ensures
            r == self.offset,
    {
        self.offset
    }
}

/// A screen rectangle.
#[derive(Debug, Clone, Copy, PartialEq, Eq, Structural)]
pub struct Rect {
    pub x: u16,
    pub y: u16,
    pub width: u16,
    pub height: u16,
}

impl Default for Rect {
    fn default() -> (r: Rect)
        ensures
            r == (Rect { x: 0, y: 0, width: 0, height: 0 }),
    {
        Rect { x: 0, y: 0, width: 0, height: 0 }
    }
}

/// A process that has ended, as the process pool reports it.
#[derive(Debug)]
pub struct FinishedRun {
    pub entry_idx: usize,
    pub started_at: SystemTime,
    pub finished_at: SystemTime,
    pub duration: Duration,
    pub exit_code: Option<i32>,
    pub signal: Option<i32>,
    pub ok: bool,
    pub stdout: String,
    pub stderr: String,
}

impl FinishedRun {
    /// The report of a process that has exited, normally or by a signal:
    /// it succeeded exactly when its exit code is 0.
    pub fn exited(
        entry_idx: usize,
        started_at: SystemTime,
        finished_at: SystemTime,
        duration: Duration,
        exit_code: Option<i32>,
        signal: Option<i32>,
        stdout: String,
        stderr: String,
    ) -> (r: FinishedRun)
        ensures
            r.entry_idx == entry_idx,
            r.started_at == started_at,
            r.finished_at == finished_at,
            r.duration == duration,
            r.exit_code == exit_code,
            r.signal == signal,
            r.ok == (exit_code == Some(0i32)),
            r.stdout@ == stdout@,
            r.stderr@ == stderr@,
    {
        let ok = match exit_code {
            Some(c) => c == 0,
            None => false,
        };
        FinishedRun { entry_idx, started_at, finished_at, duration, exit_code, signal, ok, stdout, stderr }
    }

    /// The report of a process whose status could not be read: a failure
    /// with no exit code or signal, whose error output is the reason.
    pub fn wait_failed(
        entry_idx: usize,
        started_at: SystemTime,
        finished_at: SystemTime,
        duration: Duration,
        stdout: String,
        error: &str,
    ) -> (r: FinishedRun)
        ensures
            r.entry_idx == entry_idx,
            r.started_at == started_at,
            r.finished_at == finished_at,
            r.duration == duration,
            r.exit_code is None,
            r.signal is None,
            !r.ok,
            r.stdout@ == stdout@,
            r.stderr@ == "wait error: "@ + error@,
    {
        FinishedRun {
            entry_idx,
            started_at,
            finished_at,
            duration,
            exit_code: None,
            signal: None,
            ok: false,
            stdout,
            stderr: str_concat("wait error: ", error),
        }
    }
}

/// What the front end is asked to do.
#[derive(Debug, Clone, PartialEq, Eq)]
pub enum Action {
    Nothing,
    /// Start `sh -c cmd` for the entry, then report with
    /// [`App::spawned`] or [`App::spawn_failed`].
    Spawn { entry_idx: usize, cmd: String },
}

/// The menu application.
pub struct App {
    pub entries: Vec<MenuEntry>,
    pub states: Vec<EntryState>,
    pub list_state: ListState,
    pub right_state: ListState,
    /// First run block shown in the right panel (an index into the
    /// selected entry's runs).
    pub right_first_visible: usize,
    pub focus: Panel,
    pub left_width: u16,
    pub dragging: bool,
    pub area_width: u16,
    /// Height of the right panel at the last layout.
    pub right_area_height: u16,
    /// Left panel at the last layout.
    pub left_panel_rect: Rect,
    /// Right panel at the last layout.
    pub right_panel_rect: Rect,
    pub status: String,
    pub should_quit: bool,
    pub tick: u64,
    /// Every run, oldest first.
    pub runs: Vec<RunRecord>,
    /// Display state of each run, parallel to `runs`.
    pub run_views: Vec<RunViewState>,
}

/// The application as values.
pub struct AppV {
    pub entries: Seq<MenuEntry>,
    pub states: Seq<EntryState>,
    pub list_state: ListState,
    pub right_state: ListState,
    pub right_first_visible: usize,
    pub focus: Panel,
    pub left_width: u16,
    pub dragging: bool,
    pub area_width: u16,
    pub right_area_height: u16,
    pub left_panel_rect: Rect,
    pub right_panel_rect: Rect,
    pub status: Seq<char>,
    pub should_quit: bool,
    pub tick: u64,
    pub runs: Seq<RunRecord>,
    pub run_views: Seq<RunViewState>,
}

impl View for App {
    type V = AppV;

    open spec fn view(&self) -> AppV {
        AppV {
            entries: self.entries@,
            states: self.states@,
            list_state: self.list_state,
            right_state: self.right_state,
            right_first_visible: self.right_first_visible,
            focus: self.focus,
            left_width: self.left_width,
            dragging: self.dragging,
            area_width: self.area_width,
            right_area_height: self.right_area_height,
            left_panel_rect: self.left_panel_rect,
            right_panel_rect: self.right_panel_rect,
            status: self.status@,
            should_quit: self.should_quit,
            tick: self.tick,
            runs: self.runs@,
            run_views: self.run_views@,
        }
    }
}

// ---------------------------------------------------------------- model

/// At most one run is unfolded.
pub open spec fn at_most_one_open(v: Seq<RunViewState>) -> bool {
    forall|i: int, j: int|
        0 <= i < j < v.len() ==> (#[trigger] v[i]).view == RunView::Collapsed || (#[trigger] v[j]).view
            == RunView::Collapsed
}

/// The application's invariant.
pub open spec fn wf(a: AppV) -> bool {
    &&& wf_base(a)
    &&& (a.right_state.selected matches Some(s) ==> s < selected_runs(a).len())
}

/// The invariant but for the right panel's selection.
pub open spec fn wf_base(a: AppV) -> bool {
    &&& a.states.len() == a.entries.len()
    &&& a.run_views.len() == a.runs.len()
    &&& a.runs.len() <= usize::MAX
    &&& a.entries.len() <= usize::MAX
    &&& forall|k: int| 0 <= k < a.runs.len() ==> (#[trigger] a.runs[k]).entry_idx < a.entries.len()
    &&& forall|k: int| 0 <= k < a.runs.len() ==> output_lines((#[trigger] a.runs[k]).stdout@) < usize::MAX
    &&& forall|i: int|
        0 <= i < a.states.len() ==> ((#[trigger] a.states[i]) matches EntryState::Done { run_id } ==> run_id
            < a.runs.len())
    &&& (a.list_state.selected matches Some(i) ==> i < a.entries.len())
    &&& at_most_one_open(a.run_views)
}

/// Indices of the runs among the first `n` that belong to entry `idx`,
/// newest first.
pub open spec fn runs_of(runs: Seq<RunRecord>, idx: usize, n: nat) -> Seq<usize>
    decreases n,
{
    if n == 0 {
        Seq::empty()
    } else {
        let rest = runs_of(runs, idx, (n - 1) as nat);
        if runs[n - 1].entry_idx == idx {
            seq![(n - 1) as usize] + rest
        } else {
            rest
        }
    }
}

/// The runs of the selected entry, newest first.
pub open spec fn selected_runs(a: AppV) -> Seq<usize> {
    match a.list_state.selected {
        Some(i) => runs_of(a.runs, i, a.runs.len()),
        None => Seq::empty(),
    }
}

/// Every view folded except `keep`; a folded view's scroll is reset.
pub open spec fn collapsed_except(v: Seq<RunViewState>, keep: Option<usize>) -> Seq<RunViewState> {
    Seq::new(
        v.len(),
        |i: int|
            if keep != Some(i as usize) && v[i].view != RunView::Collapsed {
                RunViewState { view: RunView::Collapsed, scroll: 0 }
            } else {
                v[i]
            },
    )
}

/// After the left selection changed: the right panel starts over at the
/// newest run of the new entry, with everything folded.
pub open spec fn selection_changed(a: AppV) -> AppV {
    let right = if selected_runs(a).len() > 0 {
        ListState { offset: 0, selected: Some(0) }
    } else {
        ListState { offset: 0, selected: None }
    };
    AppV { right_state: right, right_first_visible: 0, run_views: collapsed_except(a.run_views, None), ..a }
}

/// `select` on the left list followed by [`selection_changed`].
pub open spec fn select_left(a: AppV, i: usize) -> AppV {
    selection_changed(AppV { list_state: select_spec(a.list_state, Some(i)), ..a })
}

/// The entry after the selected one, wrapping around; the first when
/// nothing is selected.
pub open spec fn next_index(sel: Option<usize>, len: nat) -> usize {
    match sel {
        Some(i) => ((i + 1) % (len as int)) as usize,
        None => 0,
    }
}

/// The entry before the selected one, wrapping around; the first when
/// nothing is selected.
pub open spec fn previous_index(sel: Option<usize>, len: nat) -> usize {
    match sel {
        Some(i) => if i == 0 { (len - 1) as usize } else { (i - 1) as usize },
        None => 0,
    }
}

pub open spec fn next_spec(a: AppV) -> AppV {
    if a.entries.len() == 0 {
        a
    } else {
        select_left(a, next_index(a.list_state.selected, a.entries.len()))
    }
}

pub open spec fn previous_spec(a: AppV) -> AppV {
    if a.entries.len() == 0 {
        a
    } else {
        select_left(a, previous_index(a.list_state.selected, a.entries.len()))
    }
}


/// The entry under terminal row `row` of the left panel, if any.
pub open spec fn left_index_spec(a: AppV, row: u16) -> Option<usize> {
    if row < a.left_panel_rect.y {
        None
    } else {
        let rel = row - a.left_panel_rect.y;
        if rel >= a.left_panel_rect.height {
            None
        } else if a.list_state.offset + rel < a.entries.len() {
            Some((a.list_state.offset + rel) as usize)
        } else {
            None
        }
    }
}

/// A left click: the entry under the pointer is selected, the focus goes
/// left.
pub open spec fn left_click_spec(a: AppV, row: u16) -> AppV {
    let b = match left_index_spec(a, row) {
        Some(idx) => select_left(a, idx),
        None => a,
    };
    AppV { focus: Panel::Left, ..b }
}

/// Activating entry `idx`: refused with a status message while its
/// command runs, else the front end is asked to start it.
pub open spec fn activate_spec(a: AppV, idx: usize) -> (AppV, Option<(usize, Seq<char>)>) {
    if a.states[idx as int] == EntryState::Running {
        (AppV { status: "Уже выполняется для "@ + a.entries[idx as int].label@, ..a }, None)
    } else {
        (a, Some((idx, a.entries[idx as int].cmd@)))
    }
}

/// Activating the selected entry, if any.
pub open spec fn activate_selected_spec(a: AppV) -> (AppV, Option<(usize, Seq<char>)>) {
    match a.list_state.selected {
        Some(idx) => activate_spec(a, idx),
        None => (a, None),
    }
}

/// A right click on the left panel: select the entry under the pointer
/// and activate it; elsewhere only the focus moves left.
pub open spec fn left_right_click_spec(a: AppV, row: u16) -> (AppV, Option<(usize, Seq<char>)>) {
    match left_index_spec(a, row) {
        Some(idx) => activate_selected_spec(AppV { focus: Panel::Left, ..select_left(a, idx) }),
        None => (AppV { focus: Panel::Left, ..a }, None),
    }
}

/// The action as the spawn request it carries.
pub open spec fn action_spec(r: Action) -> Option<(usize, Seq<char>)> {
    match r {
        Action::Nothing => None,
        Action::Spawn { entry_idx, cmd } => Some((entry_idx, cmd@)),
    }
}

/// After a successful start of entry `idx`.
pub open spec fn spawned_spec(a: AppV, idx: usize) -> AppV {
    AppV {
        states: a.states.update(idx as int, EntryState::Running),
        status: "Запущено: "@ + a.entries[idx as int].label@,
        ..a
    }
}

/// Records the run `rec` of entry `rec.entry_idx` with the status
/// message `status`; the right panel starts over if the entry is selected.
pub open spec fn record_run(a: AppV, rec: RunRecord, status: Seq<char>) -> AppV {
    let idx = rec.entry_idx;
    let b = AppV {
        runs: a.runs.push(rec),
        run_views: a.run_views.push(RunViewState { view: RunView::Collapsed, scroll: 0 }),
        states: a.states.update(idx as int, EntryState::Done { run_id: a.runs.len() as usize }),
        status,
        ..a
    };
    if a.list_state.selected == Some(idx) {
        selection_changed(b)
    } else {
        b
    }
}

/// The record of a start that failed with `error` at `now`.
pub open spec fn failure_record(r: RunRecord, idx: usize, error: Seq<char>, now: SystemTime) -> bool {
    &&& r.entry_idx == idx
    &&& r.started_at == now
    &&& r.finished_at == now
    &&& whole_seconds(r.duration) == 0
    &&& r.exit_code is None
    &&& r.signal is None
    &&& !r.ok
    &&& r.stdout@ == Seq::<char>::empty()
    &&& r.stderr@ == error
}

/// The record of a finished process.
pub open spec fn record_of(f: FinishedRun) -> RunRecord {
    RunRecord {
        entry_idx: f.entry_idx,
        started_at: f.started_at,
        finished_at: f.finished_at,
        duration: f.duration,
        exit_code: f.exit_code,
        signal: f.signal,
        ok: f.ok,
        stdout: f.stdout,
        stderr: f.stderr,
    }
}

/// Status message for a finished run of the entry labelled `label`.
pub open spec fn finished_status(label: Seq<char>, ok: bool) -> Seq<char> {
    label + if ok { " ok"@ } else { " ошибка"@ }
}

/// The finished processes recorded one after the other.
pub open spec fn finish_all(a: AppV, fs: Seq<FinishedRun>) -> AppV
    decreases fs.len(),
{
    if fs.len() == 0 {
        a
    } else {
        let b = finish_all(a, fs.drop_last());
        let f = fs.last();
        record_run(b, record_of(f), finished_status(b.entries[f.entry_idx as int].label@, f.ok))
    }
}

/// A tick: the counter advances (wrapping) and the finished processes are
/// recorded.
pub open spec fn tick_spec(a: AppV, fs: Seq<FinishedRun>) -> AppV {
    finish_all(AppV { tick: if a.tick == u64::MAX { 0 } else { (a.tick + 1) as u64 }, ..a }, fs)
}


/// The selected run of the right panel and its view, if any.
pub open spec fn right_selected_spec(a: AppV) -> Option<(usize, RunView)> {
    match a.right_state.selected {
        Some(sel) => if sel < selected_runs(a).len() {
            let id = selected_runs(a)[sel as int];
            Some((id, a.run_views[id as int].view))
        } else {
            None
        },
        None => None,
    }
}

/// The run selected in the right panel (0 when none).
pub open spec fn selected_run_id(a: AppV) -> usize {
    match right_selected_spec(a) {
        Some((id, _)) => id,
        None => 0,
    }
}

/// Body mode when the selected run is unfolded, else list mode.
pub open spec fn right_mode_spec(a: AppV) -> RightMode {
    match right_selected_spec(a) {
        Some((_, v)) => if v == RunView::Collapsed { RightMode::List } else { RightMode::Body },
        None => RightMode::List,
    }
}

/// A left click on the right panel: focus right and, in list mode, select
/// the run under the pointer.
pub open spec fn right_click_spec(a: AppV, row: u16) -> AppV {
    let b = AppV { focus: Panel::Right, ..a };
    let n = selected_runs(a).len();
    if right_mode_spec(a) != RightMode::List || n == 0 || row < a.right_panel_rect.y {
        b
    } else {
        let rel = row - a.right_panel_rect.y;
        if rel >= a.right_panel_rect.height || a.right_first_visible + rel >= n {
            b
        } else {
            AppV { right_state: select_spec(a.right_state, Some((a.right_first_visible + rel) as usize)), ..b }
        }
    }
}

/// Tab: to the right panel when the selected entry has runs (selecting the
/// newest if nothing is selected there); back left folding everything.
pub open spec fn toggle_focus_spec(a: AppV) -> AppV {
    match a.focus {
        Panel::Left => if selected_runs(a).len() == 0 {
            a
        } else {
            let r = if a.right_state.selected is None {
                select_spec(a.right_state, Some(0))
            } else {
                a.right_state
            };
            AppV { right_state: r, focus: Panel::Right, ..a }
        },
        Panel::Right => AppV { run_views: collapsed_except(a.run_views, None), focus: Panel::Left, ..a },
    }
}

pub open spec fn right_next_spec(a: AppV) -> AppV {
    let n = selected_runs(a).len();
    if n == 0 {
        a
    } else {
        AppV { right_state: select_spec(a.right_state, Some(next_index(a.right_state.selected, n))), ..a }
    }
}

pub open spec fn right_previous_spec(a: AppV) -> AppV {
    let n = selected_runs(a).len();
    if n == 0 {
        a
    } else {
        AppV { right_state: select_spec(a.right_state, Some(previous_index(a.right_state.selected, n))), ..a }
    }
}

/// The view after Space: collapsed, preview, full (only when the output
/// has more lines than the preview), collapsed again.
pub open spec fn next_view(v: RunView, total: nat) -> RunView {
    match v {
        RunView::Collapsed => RunView::Preview,
        RunView::Preview => if total > PREVIEW_LINES { RunView::Full } else { RunView::Collapsed },
        RunView::Full => RunView::Collapsed,
    }
}

/// Space in the right panel: the selected run steps to its next view;
/// every other run is folded.
pub open spec fn toggle_view_spec(a: AppV) -> AppV {
    match right_selected_spec(a) {
        Some((id, v)) => {
            let next = next_view(v, output_lines(a.runs[id as int].stdout@));
            let folded = if next == RunView::Collapsed {
                collapsed_except(a.run_views, None)
            } else {
                collapsed_except(a.run_views, Some(id)).update(
                    id as int,
                    RunViewState { scroll: 0, ..a.run_views[id as int] },
                )
            };
            AppV { run_views: folded.update(id as int, RunViewState { view: next, ..folded[id as int] }), ..a }
        },
        None => a,
    }
}

/// Scrolls the selected run by `delta` lines, only in full view, kept
/// between 0 and the lines that do not fit in the panel (one row is the
/// header).
pub open spec fn scroll_spec(a: AppV, delta: i64) -> AppV {
    match right_selected_spec(a) {
        Some((id, RunView::Full)) => {
            let total = output_lines(a.runs[id as int].stdout@);
            let viewport: int = if a.right_area_height >= 1 { a.right_area_height - 1 } else { 0 };
            let max_scroll: int = if total >= viewport { total - viewport } else { 0 };
            let target = a.run_views[id as int].scroll + delta;
            let new = if target < 0 { 0 } else if target > max_scroll { max_scroll } else { target };
            AppV {
                run_views: a.run_views.update(id as int, RunViewState { scroll: new as usize, ..a.run_views[id as int] }),
                ..a
            }
        },
        _ => a,
    }
}

/// Height of block `i` of the selected runs `ids`; in body mode every
/// block but the selected one is folded.
pub open spec fn eff_height(runs: Seq<RunRecord>, views: Seq<RunViewState>, ids: Seq<usize>, i: int, sel: int, in_body: bool) -> nat {
    let id = ids[i];
    let view = if in_body && i != sel { RunView::Collapsed } else { views[id as int].view };
    block_rows(output_lines(runs[id as int].stdout@), view)
}

/// Total height of blocks `lo .. hi` (half open).
pub open spec fn heights(runs: Seq<RunRecord>, views: Seq<RunViewState>, ids: Seq<usize>, lo: int, hi: int, sel: int, in_body: bool) -> nat
    decreases hi - lo,
{
    if hi <= lo {
        0
    } else {
        heights(runs, views, ids, lo, hi - 1, sel, in_body) + eff_height(runs, views, ids, hi - 1, sel, in_body)
    }
}

/// Moves the first block down until the blocks up to the selected one fit
/// in `h` rows (or the selected one is first).
spec fn advance_first(a: AppV, ids: Seq<usize>, f: int, sel: int, in_body: bool, h: nat) -> int
    decreases sel - f,
{
    if f >= sel || heights(a.runs, a.run_views, ids, f, sel + 1, sel, in_body) <= h {
        f
    } else {
        advance_first(a, ids, f + 1, sel, in_body, h)
    }
}

/// Moves the first block up while the blocks up to the selected one still
/// fit in `h` rows.
spec fn retreat_first(a: AppV, ids: Seq<usize>, f: int, sel: int, in_body: bool, h: nat) -> int
    decreases f,
{
    if f <= 0 {
        f
    } else if heights(a.runs, a.run_views, ids, f - 1, sel + 1, sel, in_body) <= h {
        retreat_first(a, ids, f - 1, sel, in_body, h)
    } else {
        f
    }
}

/// The blocks from `f` through `sel` fit in `h` rows.
pub open spec fn fits_from(a: AppV, ids: Seq<usize>, f: int, sel: int, in_body: bool, h: nat) -> bool {
    heights(a.runs, a.run_views, ids, f, sel + 1, sel, in_body) <= h
}

/// `f` is the earliest block from which the blocks through `sel` fit in
/// `h` rows, or `sel` itself when none does.
pub open spec fn earliest_fit(a: AppV, ids: Seq<usize>, f: int, sel: int, in_body: bool, h: nat) -> bool {
    &&& 0 <= f <= sel
    &&& (f == sel || fits_from(a, ids, f, sel, in_body, h))
    &&& forall|g: int| 0 <= g < f ==> !#[trigger] fits_from(a, ids, g, sel, in_body, h)
}

/// The first visible block: the earliest one from which all the blocks
/// through the selected one fit in the panel, or the selected one when
/// not even it fits. (Where the panel was scrolled before does not matter.)
pub open spec fn first_visible_spec(a: AppV) -> usize {
    let ids = selected_runs(a);
    if ids.len() == 0 {
        0
    } else {
        let s0: int = match a.right_state.selected {
            Some(s) => s as int,
            None => 0,
        };
        let sel: int = if s0 > ids.len() - 1 { ids.len() - 1 } else { s0 };
        let in_body = right_mode_spec(a) == RightMode::Body;
        let h = a.right_area_height as nat;
        (choose|f: int| earliest_fit(a, ids, f, sel, in_body, h)) as usize
    }
}


/// A mouse event as the menu sees it.
#[derive(Debug, Clone, Copy, PartialEq, Eq, Structural)]
pub enum MouseKind {
    LeftDown,
    LeftDrag,
    LeftUp,
    Other,
}

/// A key press: q/Esc quit, Tab switches panels, Down/j and Up/k move in
/// the focused panel, Enter/Space/l start the selected entry (left panel).
pub open spec fn key_spec(a: AppV, code: Key) -> (AppV, Option<(usize, Seq<char>)>) {
    match code {
        Key::Char('q') | Key::Esc => (AppV { should_quit: true, ..a }, None),
        Key::Tab | Key::BackTab => (toggle_focus_spec(a), None),
        Key::Down | Key::Char('j') => (if a.focus == Panel::Left { next_spec(a) } else { right_next_spec(a) }, None),
        Key::Up | Key::Char('k') => (
            if a.focus == Panel::Left { previous_spec(a) } else { right_previous_spec(a) },
            None,
        ),
        Key::Enter | Key::Char(' ') | Key::Char('l') => if a.focus == Panel::Left {
            activate_selected_spec(a)
        } else {
            (a, None)
        },
        _ => (a, None),
    }
}

/// The mouse on the divider: a press within one column of it starts a
/// drag, dragging sets the left width (kept between 4 and the area width
/// less one column), a release ends the drag.
pub open spec fn mouse_spec(a: AppV, kind: MouseKind, column: u16) -> AppV {
    match kind {
        MouseKind::LeftDown => {
            let d = column - a.left_width;
            if -1 <= d <= 1 {
                AppV { dragging: true, ..a }
            } else {
                a
            }
        },
        MouseKind::LeftDrag => if a.dragging {
            let limit: int = if a.area_width >= 1 { a.area_width - 1 } else { 0 };
            let w: int = if column < limit { column as int } else { limit };
            AppV { left_width: (if w > 4 { w } else { 4 }) as u16, ..a }
        } else {
            a
        },
        MouseKind::LeftUp => AppV { dragging: false, ..a },
        MouseKind::Other => a,
    }
}

// ---------------------------------------------------------------- lemmas

proof fn lemma_runs_of(runs: Seq<RunRecord>, idx: usize, n: nat)
    requires
        n <= runs.len(),
        n <= usize::MAX,
    ensures
        forall|k: int| 0 <= k < runs_of(runs, idx, n).len() ==> {
            let r = #[trigger] runs_of(runs, idx, n)[k];
            &&& r < n
            &&& runs[r as int].entry_idx == idx
        },
        runs_of(runs, idx, n).len() <= n,
    decreases n,
{
    if n > 0 {
        lemma_runs_of(runs, idx, (n - 1) as nat);
        let rest = runs_of(runs, idx, (n - 1) as nat);
        if runs[n - 1].entry_idx == idx {
            assert forall|k: int| 0 <= k < runs_of(runs, idx, n).len() implies {
                let r = #[trigger] runs_of(runs, idx, n)[k];
                &&& r < n
                &&& runs[r as int].entry_idx == idx
            } by {
                if k > 0 {
                    assert(runs_of(runs, idx, n)[k] == rest[k - 1]);
                }
            }
        }
    }
}

/// The selected runs are runs of the selected entry.
pub proof fn lemma_selected_runs(a: AppV)
    requires
        a.runs.len() <= usize::MAX,
    ensures
        forall|k: int| 0 <= k < selected_runs(a).len() ==> (#[trigger] selected_runs(a)[k]) < a.runs.len(),
        selected_runs(a).len() <= a.runs.len(),
{
    if a.list_state.selected is Some {
        lemma_runs_of(a.runs, a.list_state.selected->0, a.runs.len());
    }
}

/// Runs added after the first `n` do not change which of them belong to
/// an entry.
proof fn lemma_runs_of_push(runs: Seq<RunRecord>, rec: RunRecord, idx: usize, n: nat)
    requires
        n <= runs.len(),
    ensures
        runs_of(runs.push(rec), idx, n) == runs_of(runs, idx, n),
    decreases n,
{
    if n > 0 {
        lemma_runs_of_push(runs, rec, idx, (n - 1) as nat);
        assert(runs.push(rec)[n - 1] == runs[n - 1]);
    }
}

proof fn lemma_collapsed_except(v: Seq<RunViewState>, keep: Option<usize>)
    requires
        at_most_one_open(v),
    ensures
        at_most_one_open(collapsed_except(v, keep)),
        collapsed_except(v, keep).len() == v.len(),
        forall|i: int| 0 <= i < v.len() && keep != Some(i as usize) ==> (#[trigger] collapsed_except(v, keep)[i]).view
            == RunView::Collapsed,
{
}

proof fn lemma_selection_changed(a: AppV)
    requires
        wf_base(a),
    ensures
        wf(selection_changed(a)),
{
    lemma_collapsed_except(a.run_views, None);
}


proof fn lemma_record_run(a: AppV, rec: RunRecord, status: Seq<char>)
    requires
        wf(a),
        rec.entry_idx < a.entries.len(),
        output_lines(rec.stdout@) < usize::MAX,
        a.runs.len() < usize::MAX,
    ensures
        wf(record_run(a, rec, status)),
        record_run(a, rec, status).entries == a.entries,
        record_run(a, rec, status).runs.len() == a.runs.len() + 1,
{
    let idx = rec.entry_idx;
    let b = AppV {
        runs: a.runs.push(rec),
        run_views: a.run_views.push(RunViewState { view: RunView::Collapsed, scroll: 0 }),
        states: a.states.update(idx as int, EntryState::Done { run_id: a.runs.len() as usize }),
        status,
        ..a
    };
    assert forall|k: int| 0 <= k < b.runs.len() implies (#[trigger] b.runs[k]).entry_idx < b.entries.len() by {
        if k < a.runs.len() {
            assert(b.runs[k] == a.runs[k]);
        }
    }
    assert forall|k: int| 0 <= k < b.runs.len() implies output_lines((#[trigger] b.runs[k]).stdout@) < usize::MAX by {
        if k < a.runs.len() {
            assert(b.runs[k] == a.runs[k]);
        }
    }
    assert forall|i: int|
        0 <= i < b.states.len() implies ((#[trigger] b.states[i]) matches EntryState::Done { run_id } ==> run_id
        < b.runs.len()) by {
        if i != idx {
            assert(b.states[i] == a.states[i]);
        }
    }
    assert forall|i: int, j: int| 0 <= i < j < b.run_views.len() implies (#[trigger] b.run_views[i]).view
        == RunView::Collapsed || (#[trigger] b.run_views[j]).view == RunView::Collapsed by {
        if j < a.run_views.len() {
            assert(b.run_views[i] == a.run_views[i]);
            assert(b.run_views[j] == a.run_views[j]);
        }
    }
    assert(wf_base(b));
    if a.list_state.selected is Some && a.list_state.selected != Some(idx) {
        let i = a.list_state.selected->0;
        lemma_runs_of_push(a.runs, rec, i, a.runs.len());
        assert(selected_runs(b) == selected_runs(a));
    }
    lemma_selection_changed(b);
}

proof fn lemma_finish_all(a: AppV, fs: Seq<FinishedRun>)
    requires
        wf(a),
        forall|k: int| 0 <= k < fs.len() ==> (#[trigger] fs[k]).entry_idx < a.entries.len(),
        forall|k: int| 0 <= k < fs.len() ==> output_lines((#[trigger] fs[k]).stdout@) < usize::MAX,
        a.runs.len() + fs.len() <= usize::MAX,
    ensures
        wf(finish_all(a, fs)),
        finish_all(a, fs).entries == a.entries,
        finish_all(a, fs).runs.len() == a.runs.len() + fs.len(),
    decreases fs.len(),
{
    if fs.len() > 0 {
        let init = fs.drop_last();
        assert forall|k: int| 0 <= k < init.len() implies (#[trigger] init[k]).entry_idx < a.entries.len() by {
            assert(init[k] == fs[k]);
        }
        assert forall|k: int| 0 <= k < init.len() implies output_lines((#[trigger] init[k]).stdout@) < usize::MAX by {
            assert(init[k] == fs[k]);
        }
        lemma_finish_all(a, init);
        let b = finish_all(a, init);
        let f = fs.last();
        assert(fs[fs.len() - 1] == f);
        lemma_record_run(b, record_of(f), finished_status(b.entries[f.entry_idx as int].label@, f.ok));
    }
}


proof fn lemma_heights_mono(a: AppV, ids: Seq<usize>, lo: int, i: int, j: int, sel: int, in_body: bool)
    requires
        lo <= i <= j,
    ensures
        heights(a.runs, a.run_views, ids, lo, i, sel, in_body) <= heights(a.runs, a.run_views, ids, lo, j, sel, in_body),
    decreases j - i,
{
    if i < j {
        lemma_heights_mono(a, ids, lo, i, j - 1, sel, in_body);
    }
}

/// Dropping the first block lowers the total by its height.
proof fn lemma_heights_front(a: AppV, ids: Seq<usize>, lo: int, hi: int, sel: int, in_body: bool)
    requires
        lo < hi,
    ensures
        heights(a.runs, a.run_views, ids, lo, hi, sel, in_body) == eff_height(a.runs, a.run_views, ids, lo, sel, in_body) + heights(
            a.runs,
            a.run_views,
            ids,
            lo + 1,
            hi,
            sel,
            in_body,
        ),
    decreases hi - lo,
{
    if hi - 1 > lo {
        lemma_heights_front(a, ids, lo, hi - 1, sel, in_body);
        assert(heights(a.runs, a.run_views, ids, lo + 1, hi, sel, in_body) == heights(a.runs, a.run_views, ids, lo + 1, hi - 1, sel, in_body)
            + eff_height(a.runs, a.run_views, ids, hi - 1, sel, in_body));
    } else {
        assert(heights(a.runs, a.run_views, ids, lo, lo, sel, in_body) == 0);
        assert(heights(a.runs, a.run_views, ids, lo + 1, hi, sel, in_body) == 0);
    }
}

proof fn lemma_advance_first(a: AppV, ids: Seq<usize>, f: int, sel: int, in_body: bool, h: nat)
    requires
        0 <= f <= sel,
    ensures
        f <= advance_first(a, ids, f, sel, in_body, h) <= sel,
    decreases sel - f,
{
    if !(f >= sel || heights(a.runs, a.run_views, ids, f, sel + 1, sel, in_body) <= h) {
        lemma_advance_first(a, ids, f + 1, sel, in_body, h);
    }
}

proof fn lemma_retreat_first(a: AppV, ids: Seq<usize>, f: int, sel: int, in_body: bool, h: nat)
    requires
        0 <= f,
    ensures
        0 <= retreat_first(a, ids, f, sel, in_body, h) <= f,
    decreases f,
{
    if f > 0 && heights(a.runs, a.run_views, ids, f - 1, sel + 1, sel, in_body) <= h {
        lemma_retreat_first(a, ids, f - 1, sel, in_body, h);
    }
}

proof fn lemma_heights_lo_mono(a: AppV, ids: Seq<usize>, g: int, k: int, hi: int, sel: int, in_body: bool)
    requires
        g <= k <= hi,
    ensures
        heights(a.runs, a.run_views, ids, g, hi, sel, in_body) >= heights(a.runs, a.run_views, ids, k, hi, sel, in_body),
    decreases k - g,
{
    if g < k {
        lemma_heights_front(a, ids, g, hi, sel, in_body);
        lemma_heights_lo_mono(a, ids, g + 1, k, hi, sel, in_body);
    }
}

/// Moving up stops at the top or below a block from which things no
/// longer fit.
proof fn lemma_retreat_stops(a: AppV, ids: Seq<usize>, f: int, sel: int, in_body: bool, h: nat)
    requires
        0 <= f,
    ensures
        retreat_first(a, ids, f, sel, in_body, h) == 0 || heights(
            a.runs,
            a.run_views,
            ids,
            retreat_first(a, ids, f, sel, in_body, h) - 1,
            sel + 1,
            sel,
            in_body,
        ) > h,
    decreases f,
{
    if f > 0 && heights(a.runs, a.run_views, ids, f - 1, sel + 1, sel, in_body) <= h {
        lemma_retreat_stops(a, ids, f - 1, sel, in_body, h);
    }
}

/// Scrolling down to the first fit and back up while things still fit,
/// from any start up to the selected block, ends at the earliest fit.
proof fn lemma_scroll_is_earliest_fit(a: AppV, ids: Seq<usize>, f0: int, sel: int, in_body: bool, h: nat)
    requires
        0 <= f0 <= sel,
    ensures
        earliest_fit(a, ids, retreat_first(a, ids, advance_first(a, ids, f0, sel, in_body, h), sel, in_body, h), sel, in_body, h),
        first_fit_unique(a, ids, sel, in_body, h),
{
    lemma_advance_first(a, ids, f0, sel, in_body, h);
    let f1 = advance_first(a, ids, f0, sel, in_body, h);
    lemma_advance_fits(a, ids, f0, sel, in_body, h);
    lemma_retreat_keeps_fit(a, ids, f1, sel, in_body, h);
    lemma_retreat_first(a, ids, f1, sel, in_body, h);
    lemma_retreat_stops(a, ids, f1, sel, in_body, h);
    let r = retreat_first(a, ids, f1, sel, in_body, h);
    assert forall|g: int| 0 <= g < r implies !#[trigger] fits_from(a, ids, g, sel, in_body, h) by {
        lemma_heights_lo_mono(a, ids, g, r - 1, sel + 1, sel, in_body);
    }
    assert forall|x: int, y: int|
        earliest_fit(a, ids, x, sel, in_body, h) && earliest_fit(a, ids, y, sel, in_body, h) implies x == y by {
        if x < y {
            assert(!fits_from(a, ids, x, sel, in_body, h));
        } else if y < x {
            assert(!fits_from(a, ids, y, sel, in_body, h));
        }
    }
}

/// At most one block is the earliest fit.
spec fn first_fit_unique(a: AppV, ids: Seq<usize>, sel: int, in_body: bool, h: nat) -> bool {
    forall|x: int, y: int|
        earliest_fit(a, ids, x, sel, in_body, h) && earliest_fit(a, ids, y, sel, in_body, h) ==> x == y
}

/// The first visible block is where scrolling down from the previous first
/// block (at most the selected one) to the first fit, then back up while
/// things fit, ends.
proof fn lemma_first_visible_scroll(a: AppV)
    requires
        selected_runs(a).len() > 0,
    ensures
        ({
            let ids = selected_runs(a);
            let s0: int = match a.right_state.selected {
                Some(s) => s as int,
                None => 0,
            };
            let sel: int = if s0 > ids.len() - 1 { ids.len() - 1 } else { s0 };
            let f0: int = if sel < a.right_first_visible { sel } else { a.right_first_visible as int };
            let in_body = right_mode_spec(a) == RightMode::Body;
            let h = a.right_area_height as nat;
            first_visible_spec(a) as int == retreat_first(a, ids, advance_first(a, ids, f0, sel, in_body, h), sel, in_body, h)
        }),
{
    let ids = selected_runs(a);
    let s0: int = match a.right_state.selected {
        Some(s) => s as int,
        None => 0,
    };
    let sel: int = if s0 > ids.len() - 1 { ids.len() - 1 } else { s0 };
    let f0: int = if sel < a.right_first_visible { sel } else { a.right_first_visible as int };
    let in_body = right_mode_spec(a) == RightMode::Body;
    let h = a.right_area_height as nat;
    lemma_scroll_is_earliest_fit(a, ids, f0, sel, in_body, h);
    let r = retreat_first(a, ids, advance_first(a, ids, f0, sel, in_body, h), sel, in_body, h);
    let c = choose|f: int| earliest_fit(a, ids, f, sel, in_body, h);
    assert(earliest_fit(a, ids, c, sel, in_body, h));
    assert(c == r);
}

proof fn lemma_selected_view(a: AppV)
    requires
        wf(a),
    ensures
        right_selected_spec(a) matches Some((id, _)) ==> id < a.runs.len() && id < a.run_views.len(),
{
    lemma_selected_runs(a);
    if right_selected_spec(a) is Some {
        let sel = a.right_state.selected->0;
        assert(selected_runs(a)[sel as int] < a.runs.len());
    }
}

// ---------------------------------------------------------------- exec

impl App {
    /// A menu over `entries`, the first one selected, nothing run yet.
    pub fn new(entries: Vec<MenuEntry>) -> (app: App)
        ensures
            app@ == (AppV {
                entries: entries@,
                states: Seq::new(entries@.len(), |i: int| EntryState::Idle),
                list_state: ListState {
                    offset: 0,
                    selected: if entries@.len() > 0 { Some(0) } else { None },
                },
                right_state: ListState { offset: 0, selected: None },
                right_first_visible: 0,
                focus: Panel::Left,
                left_width: 12,
                dragging: false,
                area_width: 80,
                right_area_height: 20,
                left_panel_rect: Rect { x: 0, y: 0, width: 0, height: 0 },
                right_panel_rect: Rect { x: 0, y: 0, width: 0, height: 0 },
                status: Seq::empty(),
                should_quit: false,
                tick: 0,
                runs: Seq::empty(),
                run_views: Seq::empty(),
            }),
            wf(app@),
    {
        let mut states: Vec<EntryState> = Vec::new();
        let mut i: usize = 0;
        while i < entries.len()
            invariant
                i <= entries.len(),
                states@ =~= Seq::new(i as nat, |k: int| EntryState::Idle),
            decreases entries.len() - i,
        {
            states.push(EntryState::Idle);
            i = i + 1;
        }
        let mut list_state = ListState::default();
        if entries.len() > 0 {
            list_state.select(Some(0));
        }
        App {
            entries,
            states,
            list_state,
            right_state: ListState::default(),
            right_first_visible: 0,
            focus: Panel::Left,
            left_width: 12,
            dragging: false,
            area_width: 80,
            right_area_height: 20,
            left_panel_rect: Rect::default(),
            right_panel_rect: Rect::default(),
            status: String::new(),
            should_quit: false,
            tick: 0,
            runs: Vec::new(),
            run_views: Vec::new(),
        }
    }

    /// Indices into `runs` of the selected entry's runs, newest first.
    pub fn runs_for_selected(&self) -> (r: Vec<usize>)
        ensures
            r@ == selected_runs(self@),
    {
        let idx = match self.list_state.selected() {
            Some(i) => i,
            None => {
                return Vec::new();
            },
        };
        let mut out: Vec<usize> = Vec::new();
        let mut i: usize = 0;
        while i < self.runs.len()
            invariant
                i <= self.runs.len(),
                out@ == runs_of(self.runs@, idx, i as nat),
            decreases self.runs.len() - i,
        {
            if self.runs[i].entry_idx == idx {
                out.insert(0, i);
                assert(out@ =~= seq![i] + runs_of(self.runs@, idx, i as nat));
            }
            i = i + 1;
        }
        out
    }

    /// Folds every unfolded run except `keep`, resetting its scroll.
    fn collapse_all_views_except(&mut self, keep: Option<usize>)
        ensures
            final(self)@ == (AppV { run_views: collapsed_except(old(self)@.run_views, keep), ..old(self)@ }),
    {
        let ghost v0 = self.run_views@;
        let mut i: usize = 0;
        while i < self.run_views.len()
            invariant
                i <= self.run_views.len(),
                self.run_views@.len() == v0.len(),
                forall|k: int| 0 <= k < i ==> self.run_views@[k] == #[trigger] collapsed_except(v0, keep)[k],
                forall|k: int| i <= k < v0.len() ==> self.run_views@[k] == #[trigger] v0[k],
                self.entries == old(self).entries,
                self.states == old(self).states,
                self.runs == old(self).runs,
                self.status == old(self).status,
                self.list_state == old(self).list_state,
                self.right_state == old(self).right_state,
                self.right_first_visible == old(self).right_first_visible,
                self.focus == old(self).focus,
                self.left_width == old(self).left_width,
                self.dragging == old(self).dragging,
                self.area_width == old(self).area_width,
                self.right_area_height == old(self).right_area_height,
                self.left_panel_rect == old(self).left_panel_rect,
                self.right_panel_rect == old(self).right_panel_rect,
                self.should_quit == old(self).should_quit,
                self.tick == old(self).tick,
                v0 == old(self).run_views@,
            decreases self.run_views.len() - i,
        {
            let vs = self.run_views[i];
            if keep != Some(i) && vs.view != RunView::Collapsed {
                self.run_views.set(i, RunViewState { view: RunView::Collapsed, scroll: 0 });
            }
            i = i + 1;
        }
        assert(self.run_views@ =~= collapsed_except(v0, keep));
    }

    /// The right panel starts over after the left selection changed.
    fn on_left_selection_changed(&mut self)
        ensures
            final(self)@ == selection_changed(old(self)@),
    {
        self.right_state = ListState::default();
        self.right_first_visible = 0;
        self.collapse_all_views_except(None);
        let n = self.runs_for_selected().len();
        if n > 0 {
            self.right_state.select(Some(0));
        }
    }

    /// Selects the next entry, wrapping around.
    pub fn next(&mut self)
        requires
            wf(old(self)@),
        ensures
            final(self)@ == next_spec(old(self)@),
            wf(final(self)@),
    {
        if self.entries.len() == 0 {
            return;
        }
        let i = match self.list_state.selected() {
            Some(i) => (i + 1) % self.entries.len(),
            None => 0,
        };
        self.list_state.select(Some(i));
        proof {
            lemma_selection_changed(self@);
        }
        self.on_left_selection_changed();
    }

    /// Selects the previous entry, wrapping around.
    pub fn previous(&mut self)
        requires
            wf(old(self)@),
        ensures
            final(self)@ == previous_spec(old(self)@),
            wf(final(self)@),
    {
        if self.entries.len() == 0 {
            return;
        }
        let len = self.entries.len();
        let i = match self.list_state.selected() {
            Some(0) => len - 1,
            Some(i) => i - 1,
            None => 0,
        };
        self.list_state.select(Some(i));
        proof {
            lemma_selection_changed(self@);
        }
        self.on_left_selection_changed();
    }

    /// The selected entry, if any.
    pub fn selected_entry(&self) -> (r: Option<&MenuEntry>)
        ensures
            r == (match self.list_state.selected {
                Some(i) => if i < self.entries@.len() { Some(&self.entries@[i as int]) } else { None },
                None => None,
            }),
    {
        match self.list_state.selected() {
            Some(i) => if i < self.entries.len() { Some(&self.entries[i]) } else { None },
            None => None,
        }
    }

    /// The entry under terminal row `row` of the left panel, if any.
    fn left_index_at_row(&self, row: u16) -> (r: Option<usize>)
        ensures
            r == left_index_spec(self@, row),
    {
        if row < self.left_panel_rect.y {
            return None;
        }
        let rel = (row - self.left_panel_rect.y) as usize;
        if rel >= self.left_panel_rect.height as usize {
            return None;
        }
        let off = self.list_state.offset();
        if rel < self.entries.len() && off < self.entries.len() - rel {
            Some(off + rel)
        } else {
            None
        }
    }

    /// Left click on the left panel: focus left, select the entry under
    /// the pointer.
    pub fn on_left_panel_click(&mut self, row: u16)
        requires
            wf(old(self)@),
        ensures
            final(self)@ == left_click_spec(old(self)@, row),
            wf(final(self)@),
    {
        if let Some(idx) = self.left_index_at_row(row) {
            self.list_state.select(Some(idx));
            proof {
                lemma_selection_changed(self@);
            }
            self.on_left_selection_changed();
        }
        self.focus = Panel::Left;
    }

    /// Asks to start entry `idx`, unless its command is running.
    fn activate(&mut self, idx: usize) -> (r: Action)
        requires
            wf(old(self)@),
            idx < old(self)@.entries.len(),
        ensures
            (final(self)@, action_spec(r)) == activate_spec(old(self)@, idx),
            wf(final(self)@),
    {
        if self.states[idx] == EntryState::Running {
            self.status = str_concat("Уже выполняется для ", self.entries[idx].label.as_str());
            return Action::Nothing;
        }
        let cmd = self.entries[idx].cmd.clone();
        Action::Spawn { entry_idx: idx, cmd }
    }

    /// Asks to start the selected entry.
    pub fn activate_selected(&mut self) -> (r: Action)
        requires
            wf(old(self)@),
        ensures
            (final(self)@, action_spec(r)) == activate_selected_spec(old(self)@),
            wf(final(self)@),
    {
        match self.list_state.selected() {
            Some(idx) => self.activate(idx),
            None => Action::Nothing,
        }
    }

    /// Right click on the left panel: select the entry under the pointer
    /// and ask to start it; elsewhere only focus the left panel.
    pub fn on_left_panel_right_click(&mut self, row: u16) -> (r: Action)
        requires
            wf(old(self)@),
        ensures
            (final(self)@, action_spec(r)) == left_right_click_spec(old(self)@, row),
            wf(final(self)@),
    {
        if let Some(idx) = self.left_index_at_row(row) {
            self.list_state.select(Some(idx));
            proof {
                lemma_selection_changed(self@);
            }
            self.on_left_selection_changed();
            self.focus = Panel::Left;
            self.activate_selected()
        } else {
            self.focus = Panel::Left;
            Action::Nothing
        }
    }

    /// The command of entry `idx` was started.
    pub fn spawned(&mut self, idx: usize)
        requires
            wf(old(self)@),
            idx < old(self)@.entries.len(),
        ensures
            final(self)@ == spawned_spec(old(self)@, idx),
            wf(final(self)@),
    {
        self.states.set(idx, EntryState::Running);
        self.status = str_concat("Запущено: ", self.entries[idx].label.as_str());
        assert forall|i: int|
            0 <= i < self@.states.len() implies ((#[trigger] self@.states[i]) matches EntryState::Done { run_id }
            ==> run_id < self@.runs.len()) by {
            if i != idx {
                assert(self@.states[i] == old(self)@.states[i]);
            }
        }
    }

    /// Records a run of `rec.entry_idx` with the status message `status`.
    fn push_run(&mut self, rec: RunRecord, status: String)
        requires
            wf(old(self)@),
            rec.entry_idx < old(self)@.entries.len(),
            output_lines(rec.stdout@) < usize::MAX,
            old(self)@.runs.len() < usize::MAX,
        ensures
            final(self)@ == record_run(old(self)@, rec, status@),
            wf(final(self)@),
    {
        proof {
            lemma_record_run(self@, rec, status@);
        }
        let idx = rec.entry_idx;
        self.runs.push(rec);
        self.run_views.push(RunViewState::default());
        let run_id = self.runs.len() - 1;
        self.states.set(idx, EntryState::Done { run_id });
        self.status = status;
        if self.list_state.selected() == Some(idx) {
            self.on_left_selection_changed();
        }
    }

    /// Starting entry `idx` failed with `error` at `now`: a failed run is
    /// recorded with the error as its standard error.
    pub fn spawn_failed(&mut self, idx: usize, error: String, now: SystemTime)
        requires
            wf(old(self)@),
            idx < old(self)@.entries.len(),
            old(self)@.runs.len() < usize::MAX,
        ensures
            final(self)@.runs.len() == old(self)@.runs.len() + 1,
            failure_record(final(self)@.runs.last(), idx, error@, now),
            final(self)@ == record_run(old(self)@, final(self)@.runs.last(), "Ошибка запуска: "@ + error@),
            wf(final(self)@),
    {
        let status = str_concat("Ошибка запуска: ", error.as_str());
        let record = RunRecord {
            entry_idx: idx,
            started_at: now,
            finished_at: now,
            duration: zero_duration(),
            exit_code: None,
            signal: None,
            ok: false,
            stdout: String::new(),
            stderr: error,
        };
        let ghost rec = record;
        assert(output_lines(record.stdout@) == 0) by {
            assert(record.stdout@ =~= Seq::<char>::empty());
        }
        self.push_run(record, status);
        assert(self@.runs.last() == rec);
    }

    /// Stops the main loop.
    pub fn quit(&mut self)
        ensures
            final(self)@ == (AppV { should_quit: true, ..old(self)@ }),
    {
        self.should_quit = true;
    }

    /// Advances the tick counter and records the processes that finished
    /// since the last tick.
    pub fn tick(&mut self, finished: Vec<FinishedRun>)
        requires
            wf(old(self)@),
            forall|k: int| 0 <= k < finished@.len() ==> (#[trigger] finished@[k]).entry_idx < old(self)@.entries.len(),
            forall|k: int| 0 <= k < finished@.len() ==> output_lines((#[trigger] finished@[k]).stdout@) < usize::MAX,
            old(self)@.runs.len() + finished@.len() <= usize::MAX,
        ensures
            final(self)@ == tick_spec(old(self)@, finished@),
            wf(final(self)@),
    {
        self.tick = self.tick.wrapping_add(1);
        let ghost a0 = self@;
        let ghost fs = finished@;
        let mut rest = finished;
        let ghost mut done: int = 0;
        proof {
            assert(fs.take(0) =~= Seq::<FinishedRun>::empty());
        }
        while rest.len() > 0
            invariant
                0 <= done <= fs.len(),
                rest@ == fs.skip(done),
                self@ == finish_all(a0, fs.take(done)),
                wf(self@),
                wf(a0),
                a0.entries == old(self)@.entries,
                self@.entries == a0.entries,
                self@.runs.len() == a0.runs.len() + done,
                a0.runs.len() + fs.len() <= usize::MAX,
                forall|k: int| 0 <= k < fs.len() ==> (#[trigger] fs[k]).entry_idx < a0.entries.len(),
                forall|k: int| 0 <= k < fs.len() ==> output_lines((#[trigger] fs[k]).stdout@) < usize::MAX,
            decreases rest.len(),
        {
            let f = rest.remove(0);
            proof {
                assert(f == fs[done]);
                assert(fs.take(done + 1).drop_last() =~= fs.take(done));
                assert(fs.take(done + 1).last() == f);
            }
            let ok = f.ok;
            let idx = f.entry_idx;
            let status = str_concat(
                self.entries[idx].label.as_str(),
                if ok { " ok" } else { " ошибка" },
            );
            let rec = RunRecord {
                entry_idx: f.entry_idx,
                started_at: f.started_at,
                finished_at: f.finished_at,
                duration: f.duration,
                exit_code: f.exit_code,
                signal: f.signal,
                ok: f.ok,
                stdout: f.stdout,
                stderr: f.stderr,
            };
            self.push_run(rec, status);
            proof {
                done = done + 1;
                assert(rest@ =~= fs.skip(done));
            }
        }
        proof {
            assert(fs.take(fs.len() as int) =~= fs);
        }
    }

    /// The selected run of the right panel and its view, if any.
    fn right_selected_run(&self) -> (r: Option<(usize, RunView)>)
        requires
            wf(self@),
        ensures
            r == right_selected_spec(self@),
            r matches Some((id, _)) ==> id < self.runs@.len(),
    {
        proof {
            lemma_selected_view(self@);
        }
        let sel = match self.right_state.selected() {
            Some(s) => s,
            None => {
                return None;
            },
        };
        let ids = self.runs_for_selected();
        if sel < ids.len() {
            let id = ids[sel];
            Some((id, self.run_views[id].view))
        } else {
            None
        }
    }

    /// The current mode of the right panel.
    pub fn right_mode(&self) -> (m: RightMode)
        requires
            wf(self@),
        ensures
            m == right_mode_spec(self@),
    {
        match self.right_selected_run() {
            Some((_, v)) => if v == RunView::Collapsed { RightMode::List } else { RightMode::Body },
            None => RightMode::List,
        }
    }

    /// Whether the right panel is in body mode.
    pub fn in_body_mode(&self) -> (b: bool)
        requires
            wf(self@),
        ensures
            b == (right_mode_spec(self@) == RightMode::Body),
    {
        self.right_mode() == RightMode::Body
    }

    /// Left click on the right panel.
    pub fn on_right_panel_click(&mut self, row: u16)
        requires
            wf(old(self)@),
        ensures
            final(self)@ == right_click_spec(old(self)@, row),
            wf(final(self)@),
    {
        let mode = self.right_mode();
        self.focus = Panel::Right;
        if mode != RightMode::List {
            return;
        }
        let ids = self.runs_for_selected();
        if ids.len() == 0 {
            return;
        }
        if row < self.right_panel_rect.y {
            return;
        }
        let rel = (row - self.right_panel_rect.y) as usize;
        if rel >= self.right_panel_rect.height as usize {
            return;
        }
        let first = self.right_first_visible;
        if rel < ids.len() && first < ids.len() - rel {
            self.right_state.select(Some(first + rel));
        }
    }

    /// Tab: switches the focused panel.
    pub fn toggle_focus(&mut self)
        requires
            wf(old(self)@),
        ensures
            final(self)@ == toggle_focus_spec(old(self)@),
            wf(final(self)@),
    {
        match self.focus {
            Panel::Left => {
                let n = self.runs_for_selected().len();
                if n == 0 {
                    return;
                }
                if self.right_state.selected().is_none() {
                    self.right_state.select(Some(0));
                }
                self.focus = Panel::Right;
            },
            Panel::Right => {
                proof {
                    lemma_collapsed_except(self@.run_views, None);
                }
                self.collapse_all_views_except(None);
                self.focus = Panel::Left;
            },
        }
    }

    /// Selects the next run, wrapping around.
    pub fn right_next(&mut self)
        requires
            wf(old(self)@),
        ensures
            final(self)@ == right_next_spec(old(self)@),
            wf(final(self)@),
    {
        let n = self.runs_for_selected().len();
        if n == 0 {
            return;
        }
        let i = match self.right_state.selected() {
            Some(i) => (i + 1) % n,
            None => 0,
        };
        self.right_state.select(Some(i));
    }

    /// Selects the previous run, wrapping around.
    pub fn right_previous(&mut self)
        requires
            wf(old(self)@),
        ensures
            final(self)@ == right_previous_spec(old(self)@),
            wf(final(self)@),
    {
        let n = self.runs_for_selected().len();
        if n == 0 {
            return;
        }
        let i = match self.right_state.selected() {
            Some(0) => n - 1,
            Some(i) => i - 1,
            None => 0,
        };
        self.right_state.select(Some(i));
    }

    /// Space in the right panel: the selected run steps to its next view.
    pub fn right_toggle_view(&mut self)
        requires
            wf(old(self)@),
        ensures
            final(self)@ == toggle_view_spec(old(self)@),
            wf(final(self)@),
    {
        let (run_id, current) = match self.right_selected_run() {
            Some(x) => x,
            None => {
                return;
            },
        };
        let total = count_lines(&self.runs[run_id].stdout);
        let can_expand = total > PREVIEW_LINES;
        let next = match current {
            RunView::Collapsed => RunView::Preview,
            RunView::Preview => if can_expand { RunView::Full } else { RunView::Collapsed },
            RunView::Full => RunView::Collapsed,
        };
        if next == RunView::Collapsed {
            proof {
                lemma_collapsed_except(self@.run_views, None);
            }
            self.collapse_all_views_except(None);
        } else {
            proof {
                lemma_collapsed_except(self@.run_views, Some(run_id));
            }
            self.collapse_all_views_except(Some(run_id));
            let v = self.run_views[run_id];
            self.run_views.set(run_id, RunViewState { view: v.view, scroll: 0 });
        }
        let v = self.run_views[run_id];
        self.run_views.set(run_id, RunViewState { view: next, scroll: v.scroll });
        proof {
            let f = self@.run_views;
            assert forall|i: int, j: int| 0 <= i < j < f.len() implies (#[trigger] f[i]).view
                == RunView::Collapsed || (#[trigger] f[j]).view == RunView::Collapsed by {
                if next != RunView::Collapsed {
                    assert(i != run_id || j != run_id);
                }
            }
        }
    }

    /// Scrolls the selected run by `delta` lines (full view only).
    pub fn right_scroll(&mut self, delta: i64)
        requires
            wf(old(self)@),
        ensures
            final(self)@ == scroll_spec(old(self)@, delta),
            wf(final(self)@),
    {
        let (run_id, view) = match self.right_selected_run() {
            Some(x) => x,
            None => {
                return;
            },
        };
        match view {
            RunView::Collapsed | RunView::Preview => {
                return;
            },
            RunView::Full => {},
        }
        let total = count_lines(&self.runs[run_id].stdout);
        let h = self.right_area_height as usize;
        let viewport = if h >= 1 { h - 1 } else { 0 };
        let max_scroll = if total >= viewport { total - viewport } else { 0 };
        let state = self.run_views[run_id];
        let target: i128 = state.scroll as i128 + delta as i128;
        let new = if target < 0 {
            0
        } else if target > max_scroll as i128 {
            max_scroll
        } else {
            target as usize
        };
        self.run_views.set(run_id, RunViewState { view: state.view, scroll: new });
        proof {
            let f = self@.run_views;
            assert forall|i: int, j: int| 0 <= i < j < f.len() implies (#[trigger] f[i]).view
                == RunView::Collapsed || (#[trigger] f[j]).view == RunView::Collapsed by {
                assert(old(self)@.run_views[i].view == f[i].view);
                assert(old(self)@.run_views[j].view == f[j].view);
            }
        }
    }

    /// Height of block `i` of the selected runs `ids`.
    fn effective_block_height(&self, ids: &Vec<usize>, i: usize, sel: usize, in_body: bool) -> (h: usize)
        requires
            wf(self@),
            ids@ == selected_runs(self@),
            i < ids@.len(),
        ensures
            h == eff_height(self@.runs, self@.run_views, ids@, i as int, sel as int, in_body),
    {
        proof {
            lemma_selected_runs(self@);
            assert(ids@[i as int] < self@.runs.len());
        }
        let id = ids[i];
        let view = if in_body && i != sel { RunView::Collapsed } else { self.run_views[id].view };
        crate::run_view::block_height(&self.runs[id], view)
    }

    /// Whether blocks `lo ..= sel` fit in `h` rows.
    fn blocks_fit(&self, ids: &Vec<usize>, lo: usize, sel: usize, in_body: bool, h: usize) -> (r: bool)
        requires
            wf(self@),
            ids@ == selected_runs(self@),
            lo <= sel < ids@.len(),
            h <= u16::MAX,
        ensures
            r == (heights(self@.runs, self@.run_views, ids@, lo as int, sel + 1, sel as int, in_body) <= h),
    {
        let mut acc: u128 = 0;
        let mut i: usize = lo;
        let n = ids.len();
        while i <= sel
            invariant
                lo <= i <= sel + 1,
                sel < n,
                n == ids@.len(),
                wf(self@),
                ids@ == selected_runs(self@),
                h <= u16::MAX,
                acc == heights(self@.runs, self@.run_views, ids@, lo as int, i as int, sel as int, in_body),
                acc <= h,
            decreases sel + 1 - i,
        {
            let b = self.effective_block_height(ids, i, sel, in_body);
            acc = acc + b as u128;
            if acc > h as u128 {
                proof {
                    lemma_heights_mono(self@, ids@, lo as int, i + 1, sel + 1, sel as int, in_body);
                }
                return false;
            }
            i = i + 1;
        }
        true
    }

    /// Moves the first visible run block so that the selected run shows at
    /// least its header and as much as fits above it is shown.
    pub fn recompute_right_first(&mut self)
        requires
            wf(old(self)@),
        ensures
            final(self)@ == (AppV { right_first_visible: first_visible_spec(old(self)@), ..old(self)@ }),
            wf(final(self)@),
    {
        let ids = self.runs_for_selected();
        if ids.len() == 0 {
            self.right_first_visible = 0;
            return;
        }
        let s0 = match self.right_state.selected() {
            Some(s) => s,
            None => 0,
        };
        let sel = if s0 > ids.len() - 1 { ids.len() - 1 } else { s0 };
        let h = self.right_area_height as usize;
        let in_body = self.in_body_mode();
        if sel < self.right_first_visible {
            self.right_first_visible = sel;
        }
        let ghost a0 = old(self)@;
        let ghost f0 = self.right_first_visible as int;
        proof {
            lemma_advance_first(a0, ids@, f0, sel as int, in_body, h as nat);
        }
        loop
            invariant
                self@ == (AppV { right_first_visible: self.right_first_visible, ..a0 }),
                wf(a0),
                ids@ == selected_runs(a0),
                sel < ids@.len(),
                h == a0.right_area_height,
                f0 <= self.right_first_visible <= sel,
                advance_first(a0, ids@, self.right_first_visible as int, sel as int, in_body, h as nat)
                    == advance_first(a0, ids@, f0, sel as int, in_body, h as nat),
            ensures
                self@ == (AppV { right_first_visible: self.right_first_visible, ..a0 }),
                f0 <= self.right_first_visible <= sel,
                self.right_first_visible == advance_first(a0, ids@, f0, sel as int, in_body, h as nat),
            decreases sel - self.right_first_visible,
        {
            if self.right_first_visible == sel || self.blocks_fit(&ids, self.right_first_visible, sel, in_body, h) {
                break;
            }
            self.right_first_visible = self.right_first_visible + 1;
        }
        let ghost f1 = self.right_first_visible as int;
        proof {
            lemma_retreat_first(a0, ids@, f1, sel as int, in_body, h as nat);
        }
        loop
            invariant
                self@ == (AppV { right_first_visible: self.right_first_visible, ..a0 }),
                wf(a0),
                ids@ == selected_runs(a0),
                sel < ids@.len(),
                h == a0.right_area_height,
                self.right_first_visible <= f1 <= sel,
                retreat_first(a0, ids@, self.right_first_visible as int, sel as int, in_body, h as nat)
                    == retreat_first(a0, ids@, f1, sel as int, in_body, h as nat),
            ensures
                self@ == (AppV { right_first_visible: self.right_first_visible, ..a0 }),
                self.right_first_visible == retreat_first(a0, ids@, f1, sel as int, in_body, h as nat),
            decreases self.right_first_visible,
        {
            if self.right_first_visible == 0 {
                break;
            }
            let cand = self.right_first_visible - 1;
            if self.blocks_fit(&ids, cand, sel, in_body, h) {
                self.right_first_visible = cand;
            } else {
                break;
            }
        }
        proof {
            lemma_first_visible_scroll(a0);
        }
    }
}




// ---------------------------------------------------------------- events

/// Applies a key press to the menu; the answer says whether a command is
/// to be started.
pub fn handle_key(app: &mut App, code: Key) -> (r: Action)
    requires
        wf(old(app)@),
    ensures
        (final(app)@, action_spec(r)) == key_spec(old(app)@, code),
        wf(final(app)@),
{
    match code {
        Key::Char('q') | Key::Esc => {
            app.quit();
            Action::Nothing
        },
        Key::Tab | Key::BackTab => {
            app.toggle_focus();
            Action::Nothing
        },
        Key::Down | Key::Char('j') => {
            match app.focus {
                Panel::Left => app.next(),
                Panel::Right => app.right_next(),
            }
            Action::Nothing
        },
        Key::Up | Key::Char('k') => {
            match app.focus {
                Panel::Left => app.previous(),
                Panel::Right => app.right_previous(),
            }
            Action::Nothing
        },
        Key::Enter | Key::Char(' ') | Key::Char('l') => match app.focus {
            Panel::Left => app.activate_selected(),
            Panel::Right => Action::Nothing,
        },
        _ => Action::Nothing,
    }
}

/// Applies a mouse event at terminal column `column` to the divider.
pub fn handle_mouse(app: &mut App, kind: MouseKind, column: u16)
    requires
        wf(old(app)@),
    ensures
        final(app)@ == mouse_spec(old(app)@, kind, column),
        wf(final(app)@),
{
    match kind {
        MouseKind::LeftDown => {
            let divider_x = app.left_width as i32;
            let d = column as i32 - divider_x;
            if -1 <= d && d <= 1 {
                app.dragging = true;
            }
        },
        MouseKind::LeftDrag => {
            if app.dragging {
                let limit = if app.area_width >= 1 { app.area_width - 1 } else { 0 };
                let w = if column < limit { column } else { limit };
                app.left_width = if w > 4 { w } else { 4 };
            }
        },
        MouseKind::LeftUp => {
            app.dragging = false;
        },
        MouseKind::Other => {},
    }
}

// ---------------------------------------------------------------- laws

/// Moving down the menu and back up returns to the same entry.
pub proof fn law_next_then_previous(a: AppV)
    requires
        wf(a),
        a.list_state.selected is Some,
    ensures
        previous_spec(next_spec(a)).list_state.selected == a.list_state.selected,
{
    let n = a.entries.len();
    let i = a.list_state.selected->0;
    let j = next_index(a.list_state.selected, n);
    if i + 1 < n {
        assert((i + 1) % (n as int) == i + 1) by (nonlinear_arith)
            requires
                0 <= i + 1 < n,
        ;
    } else {
        assert((i + 1) % (n as int) == 0) by (nonlinear_arith)
            requires
                i + 1 == n,
                n > 0,
        ;
    }
    let b = next_spec(a);
    assert(b.list_state.selected == Some(j));
    assert(b.entries.len() == n);
    assert(previous_spec(b).list_state.selected == Some(previous_index(Some(j), n)));
}

/// Moving up the menu and back down returns to the same entry.
pub proof fn law_previous_then_next(a: AppV)
    requires
        wf(a),
        a.list_state.selected is Some,
    ensures
        next_spec(previous_spec(a)).list_state.selected == a.list_state.selected,
{
    let n = a.entries.len();
    let i = a.list_state.selected->0;
    let p = previous_index(a.list_state.selected, n);
    if p + 1 < n {
        assert((p + 1) % (n as int) == p + 1) by (nonlinear_arith)
            requires
                0 <= p + 1 < n,
        ;
    } else {
        assert((p + 1) % (n as int) == 0) by (nonlinear_arith)
            requires
                p + 1 == n,
                n > 0,
        ;
    }
    let b = previous_spec(a);
    assert(b.list_state.selected == Some(p));
    assert(b.entries.len() == n);
    assert(next_spec(b).list_state.selected == Some(next_index(Some(p), n)));
}

/// In the right panel too, moving down and back up returns to the same
/// run.
pub proof fn law_right_next_then_previous(a: AppV)
    requires
        wf(a),
        a.right_state.selected is Some,
    ensures
        right_previous_spec(right_next_spec(a)).right_state.selected == a.right_state.selected,
{
    let n = selected_runs(a).len();
    let i = a.right_state.selected->0;
    let j = next_index(a.right_state.selected, n);
    if i + 1 < n {
        assert((i + 1) % (n as int) == i + 1) by (nonlinear_arith)
            requires
                0 <= i + 1 < n,
        ;
    } else {
        assert((i + 1) % (n as int) == 0) by (nonlinear_arith)
            requires
                i + 1 == n,
                n > 0,
        ;
    }
    lemma_selected_runs(a);
    let b = right_next_spec(a);
    assert(b.right_state.selected == Some(j));
    assert(selected_runs(b) == selected_runs(a));
    assert(right_previous_spec(b).right_state.selected == Some(previous_index(Some(j), n)));
}

/// The runs listed for an entry are exactly its runs, newest first.
pub proof fn law_runs_for_entry(runs: Seq<RunRecord>, idx: usize)
    requires
        runs.len() <= usize::MAX,
    ensures
        forall|k: int| 0 <= k < runs.len() ==> (runs[k].entry_idx == idx <==> runs_of(runs, idx, runs.len()).contains(
            k as usize,
        )),
        forall|i: int, j: int|
            0 <= i < j < runs_of(runs, idx, runs.len()).len() ==> runs_of(runs, idx, runs.len())[i] > runs_of(
                runs,
                idx,
                runs.len(),
            )[j],
{
    lemma_runs_of_contents(runs, idx, runs.len());
}

proof fn lemma_runs_of_contents(runs: Seq<RunRecord>, idx: usize, n: nat)
    requires
        n <= runs.len(),
        n <= usize::MAX,
    ensures
        forall|k: int| 0 <= k < n ==> (runs[k].entry_idx == idx <==> runs_of(runs, idx, n).contains(k as usize)),
        forall|i: int, j: int|
            0 <= i < j < runs_of(runs, idx, n).len() ==> runs_of(runs, idx, n)[i] > runs_of(runs, idx, n)[j],
    decreases n,
{
    if n > 0 {
        lemma_runs_of_contents(runs, idx, (n - 1) as nat);
        lemma_runs_of(runs, idx, (n - 1) as nat);
        let rest = runs_of(runs, idx, (n - 1) as nat);
        let all = runs_of(runs, idx, n);
        if runs[n - 1].entry_idx == idx {
            assert forall|k: int| 0 <= k < n implies (runs[k].entry_idx == idx <==> all.contains(k as usize)) by {
                if k < n - 1 {
                    if all.contains(k as usize) {
                        let w = choose|w: int| 0 <= w < all.len() && all[w] == k as usize;
                        if w > 0 {
                            assert(all[w] == rest[w - 1]);
                        }
                    }
                    if rest.contains(k as usize) {
                        let w = choose|w: int| 0 <= w < rest.len() && rest[w] == k as usize;
                        assert(all[w + 1] == rest[w]);
                    }
                } else {
                    assert(all[0] == (n - 1) as usize);
                }
            }
            assert forall|i: int, j: int| 0 <= i < j < all.len() implies all[i] > all[j] by {
                if i > 0 {
                    assert(all[i] == rest[i - 1]);
                    assert(all[j] == rest[j - 1]);
                } else {
                    assert(all[j] == rest[j - 1]);
                    assert(rest[j - 1] < n - 1);
                }
            }
        } else {
            assert forall|k: int| 0 <= k < n implies (runs[k].entry_idx == idx <==> all.contains(k as usize)) by {
                if k == n - 1 && all.contains(k as usize) {
                    let w = choose|w: int| 0 <= w < all.len() && all[w] == k as usize;
                    assert(rest[w] < n - 1);
                }
            }
        }
    }
}

/// Space steps a run through its views: collapsed, preview, full and back
/// to collapsed when its output is longer than the preview; collapsed,
/// preview and back otherwise.
pub proof fn law_view_cycle(total: nat)
    ensures
        next_view(RunView::Collapsed, total) == RunView::Preview,
        total > PREVIEW_LINES ==> next_view(next_view(next_view(RunView::Collapsed, total), total), total)
            == RunView::Collapsed,
        total > PREVIEW_LINES ==> next_view(next_view(RunView::Collapsed, total), total) == RunView::Full,
        total <= PREVIEW_LINES ==> next_view(next_view(RunView::Collapsed, total), total) == RunView::Collapsed,
{
}

/// Toggling a run's view leaves every other run folded.
pub proof fn law_toggle_folds_others(a: AppV)
    requires
        wf(a),
        right_selected_spec(a) is Some,
    ensures
        forall|k: int|
            0 <= k < a.run_views.len() && k != selected_run_id(a) ==> (#[trigger] toggle_view_spec(
                a,
            ).run_views[k]).view == RunView::Collapsed,
{
    lemma_selected_view(a);
    let id = selected_run_id(a);
    lemma_collapsed_except(a.run_views, None);
    lemma_collapsed_except(a.run_views, Some(id));
}

/// Scrolling keeps the offset between zero and the lines that do not fit.
pub proof fn law_scroll_bounded(a: AppV, delta: i64)
    requires
        wf(a),
        right_selected_spec(a) matches Some((_, v)) && v == RunView::Full,
    ensures
        ({
            let id = selected_run_id(a);
            let total = output_lines(a.runs[id as int].stdout@);
            let viewport: int = if a.right_area_height >= 1 { a.right_area_height - 1 } else { 0 };
            let s = scroll_spec(a, delta).run_views[id as int].scroll;
            &&& 0 <= s
            &&& s <= if total >= viewport { total - viewport } else { 0 }
        }),
{
    lemma_selected_view(a);
}

/// After the first visible block is recomputed, the selected run is shown
/// (at least its header), and the blocks from the first to the selected one
/// fit in the panel unless the selected block is the first.
pub proof fn law_selected_run_visible(a: AppV)
    requires
        wf(a),
        selected_runs(a).len() > 0,
    ensures
        ({
            let ids = selected_runs(a);
            let sel: int = match a.right_state.selected {
                Some(s) => s as int,
                None => 0,
            };
            let f = first_visible_spec(a) as int;
            let in_body = right_mode_spec(a) == RightMode::Body;
            &&& 0 <= f <= sel
            &&& (f == sel || heights(a.runs, a.run_views, ids, f, sel + 1, sel, in_body) <= a.right_area_height)
        }),
{
    let ids = selected_runs(a);
    let sel: int = match a.right_state.selected {
        Some(s) => s as int,
        None => 0,
    };
    let in_body = right_mode_spec(a) == RightMode::Body;
    let h = a.right_area_height as nat;
    let f0: int = if sel < a.right_first_visible { sel } else { a.right_first_visible as int };
    lemma_first_visible_scroll(a);
    lemma_advance_first(a, ids, f0, sel, in_body, h);
    let f1 = advance_first(a, ids, f0, sel, in_body, h);
    lemma_advance_fits(a, ids, f0, sel, in_body, h);
    lemma_retreat_keeps_fit(a, ids, f1, sel, in_body, h);
    lemma_retreat_first(a, ids, f1, sel, in_body, h);
}

/// Where the run panel was scrolled before does not matter: recomputing
/// the first visible block from any earlier first block gives the same one.
pub proof fn law_first_visible_ignores_old_scroll(a: AppV, k: usize)
    ensures
        first_visible_spec(AppV { right_first_visible: k, ..a }) == first_visible_spec(a),
{
    let b = AppV { right_first_visible: k, ..a };
    assert(selected_runs(b) == selected_runs(a));
    assert(right_mode_spec(b) == right_mode_spec(a));
    let ids = selected_runs(a);
    if ids.len() > 0 {
        let s0: int = match a.right_state.selected {
            Some(s) => s as int,
            None => 0,
        };
        let sel: int = if s0 > ids.len() - 1 { ids.len() - 1 } else { s0 };
        let in_body = right_mode_spec(a) == RightMode::Body;
        let h = a.right_area_height as nat;
        assert forall|f: int| earliest_fit(b, ids, f, sel, in_body, h) implies earliest_fit(a, ids, f, sel, in_body, h) by {
            assert forall|g: int| 0 <= g < f implies !#[trigger] fits_from(a, ids, g, sel, in_body, h) by {
                assert(!fits_from(b, ids, g, sel, in_body, h));
            }
        }
        assert forall|f: int| earliest_fit(a, ids, f, sel, in_body, h) implies earliest_fit(b, ids, f, sel, in_body, h) by {
            assert forall|g: int| 0 <= g < f implies !#[trigger] fits_from(b, ids, g, sel, in_body, h) by {
                assert(!fits_from(a, ids, g, sel, in_body, h));
            }
        }
        lemma_scroll_is_earliest_fit(a, ids, 0, sel, in_body, h);
        let ca = choose|f: int| earliest_fit(a, ids, f, sel, in_body, h);
        let cb = choose|f: int| earliest_fit(b, ids, f, sel, in_body, h);
        assert(earliest_fit(a, ids, ca, sel, in_body, h));
        assert(earliest_fit(b, ids, ca, sel, in_body, h));
        assert(earliest_fit(b, ids, cb, sel, in_body, h));
        assert(earliest_fit(a, ids, cb, sel, in_body, h));
        assert(ca == cb);
    }
}

proof fn lemma_advance_fits(a: AppV, ids: Seq<usize>, f: int, sel: int, in_body: bool, h: nat)
    requires
        0 <= f <= sel,
    ensures
        advance_first(a, ids, f, sel, in_body, h) == sel || heights(
            a.runs,
            a.run_views,
            ids,
            advance_first(a, ids, f, sel, in_body, h),
            sel + 1,
            sel,
            in_body,
        ) <= h,
    decreases sel - f,
{
    if !(f >= sel || heights(a.runs, a.run_views, ids, f, sel + 1, sel, in_body) <= h) {
        lemma_advance_fits(a, ids, f + 1, sel, in_body, h);
    }
}

proof fn lemma_retreat_keeps_fit(a: AppV, ids: Seq<usize>, f: int, sel: int, in_body: bool, h: nat)
    requires
        0 <= f <= sel,
        f == sel || heights(a.runs, a.run_views, ids, f, sel + 1, sel, in_body) <= h,
    ensures
        retreat_first(a, ids, f, sel, in_body, h) == sel || heights(
            a.runs,
            a.run_views,
            ids,
            retreat_first(a, ids, f, sel, in_body, h),
            sel + 1,
            sel,
            in_body,
        ) <= h,
    decreases f,
{
    if f > 0 && heights(a.runs, a.run_views, ids, f - 1, sel + 1, sel, in_body) <= h {
        lemma_retreat_keeps_fit(a, ids, f - 1, sel, in_body, h);
    }
}

} // verus!
