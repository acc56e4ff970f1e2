use std::time::{Duration, SystemTime};
use toolbelt::menu::{handle_key, handle_mouse, Action, App, EntryState, FinishedRun, MenuEntry, MouseKind, Panel, Rect, RightMode};
use toolbelt::menu_view::{
    divider_style, failure_badge, highlight_style_for, layout, left_item, left_items, plural_ru, right_panel, right_panel_lines,
    spinner_frame, status_line,
};
use toolbelt::run_record::RunRecord;
use toolbelt::run_view::RunView;
use toolbelt::style::Color;
use toolbelt::widgets::key::Key;

fn entries() -> Vec<MenuEntry> {
    vec![
        MenuEntry { cmd: "echo a".into(), label: "alpha".into() },
        MenuEntry { cmd: "echo b".into(), label: "beta".into() },
        MenuEntry { cmd: "false".into(), label: "gamma".into() },
    ]
}

fn finished(entry_idx: usize, ok: bool, stdout: &str) -> FinishedRun {
    FinishedRun {
        entry_idx,
        started_at: SystemTime::UNIX_EPOCH,
        finished_at: SystemTime::UNIX_EPOCH,
        duration: Duration::from_secs(3),
        exit_code: Some(if ok { 0 } else { 2 }),
        signal: None,
        ok,
        stdout: stdout.into(),
        stderr: String::new(),
    }
}

fn many_lines(n: usize) -> String {
    (0..n).map(|i| format!("l{i}\n")).collect()
}

fn texts(line: &[toolbelt::sanitize::Span]) -> String {
    line.iter().map(|s| s.content.as_str()).collect()
}

#[test]
fn starts_on_first_entry() {
    let app = App::new(entries());
    assert_eq!(app.list_state.selected, Some(0));
    assert_eq!(app.focus, Panel::Left);
    assert_eq!(app.left_width, 12);
    assert!(app.states.iter().all(|s| *s == EntryState::Idle));
    assert_eq!(app.selected_entry().unwrap().label, "alpha");
    let empty = App::new(Vec::new());
    assert_eq!(empty.list_state.selected, None);
}

#[test]
fn next_and_previous_wrap() {
    let mut app = App::new(entries());
    app.previous();
    assert_eq!(app.list_state.selected, Some(2));
    app.next();
    assert_eq!(app.list_state.selected, Some(0));
    app.next();
    app.previous();
    assert_eq!(app.list_state.selected, Some(0));
}

#[test]
fn activation_asks_to_spawn_once() {
    let mut app = App::new(entries());
    match app.activate_selected() {
        Action::Spawn { entry_idx, cmd } => {
            assert_eq!(entry_idx, 0);
            assert_eq!(cmd, "echo a");
        }
        Action::Nothing => panic!("expected a spawn"),
    }
    app.spawned(0);
    assert_eq!(app.states[0], EntryState::Running);
    assert_eq!(app.status, "Запущено: alpha");
    assert_eq!(app.activate_selected(), Action::Nothing);
    assert_eq!(app.status, "Уже выполняется для alpha");
}

#[test]
fn tick_records_runs_newest_first() {
    let mut app = App::new(entries());
    app.spawned(0);
    app.tick(vec![finished(0, true, "x\n")]);
    assert_eq!(app.tick, 1);
    assert_eq!(app.states[0], EntryState::Done { run_id: 0 });
    assert_eq!(app.status, "alpha ok");
    app.tick(vec![finished(1, false, ""), finished(0, false, "y\n")]);
    assert_eq!(app.status, "alpha ошибка");
    assert_eq!(app.runs_for_selected(), vec![2, 0]);
    assert_eq!(app.right_state.selected, Some(0));
}

#[test]
fn spawn_failure_is_recorded() {
    let mut app = App::new(entries());
    let now = SystemTime::UNIX_EPOCH + Duration::from_secs(100);
    app.spawn_failed(0, "no shell".into(), now);
    assert_eq!(app.status, "Ошибка запуска: no shell");
    let r = &app.runs[0];
    assert!(!r.ok);
    assert_eq!(r.stderr, "no shell");
    assert_eq!(r.duration, Duration::ZERO);
    assert_eq!(r.started_at, now);
    assert_eq!(app.states[0], EntryState::Done { run_id: 0 });
}

#[test]
fn focus_and_views() {
    let mut app = App::new(entries());
    app.toggle_focus();
    assert_eq!(app.focus, Panel::Left);
    app.tick(vec![finished(0, true, &many_lines(20)), finished(0, true, "short\n")]);
    app.toggle_focus();
    assert_eq!(app.focus, Panel::Right);
    assert_eq!(app.right_mode(), RightMode::List);
    app.right_toggle_view();
    assert_eq!(app.run_views[1].view, RunView::Preview);
    assert!(app.in_body_mode());
    app.right_toggle_view();
    assert_eq!(app.run_views[1].view, RunView::Collapsed);
    app.right_next();
    assert_eq!(app.right_state.selected, Some(1));
    app.right_toggle_view();
    app.right_toggle_view();
    assert_eq!(app.run_views[0].view, RunView::Full);
    app.right_area_height = 6;
    app.right_scroll(100);
    assert_eq!(app.run_views[0].scroll, 15);
    app.right_scroll(-4);
    assert_eq!(app.run_views[0].scroll, 11);
    app.right_scroll(-100);
    assert_eq!(app.run_views[0].scroll, 0);
    app.toggle_focus();
    assert_eq!(app.focus, Panel::Left);
    assert_eq!(app.run_views[0].view, RunView::Collapsed);
}

#[test]
fn recompute_first_keeps_selection_visible() {
    let mut app = App::new(entries());
    for _ in 0..5 {
        app.tick(vec![finished(0, true, "a\n")]);
    }
    app.right_area_height = 2;
    app.right_state.selected = Some(4);
    app.recompute_right_first();
    assert_eq!(app.right_first_visible, 3);
    app.right_state.selected = Some(0);
    app.recompute_right_first();
    assert_eq!(app.right_first_visible, 0);
}

#[test]
fn clicks_and_keys() {
    let mut app = App::new(entries());
    app.left_panel_rect = Rect { x: 0, y: 2, width: 12, height: 10 };
    app.on_left_panel_click(4);
    assert_eq!(app.list_state.selected, Some(2));
    app.on_left_panel_click(1);
    assert_eq!(app.list_state.selected, Some(2));
    match app.on_left_panel_right_click(3) {
        Action::Spawn { entry_idx, .. } => assert_eq!(entry_idx, 1),
        Action::Nothing => panic!("expected a spawn"),
    }
    assert_eq!(handle_key(&mut app, Key::Char('j')), Action::Nothing);
    assert_eq!(app.list_state.selected, Some(2));
    assert!(matches!(handle_key(&mut app, Key::Enter), Action::Spawn { entry_idx: 2, .. }));
    handle_key(&mut app, Key::Char('q'));
    assert!(app.should_quit);
}

#[test]
fn divider_drag() {
    let mut app = App::new(entries());
    app.area_width = 40;
    handle_mouse(&mut app, MouseKind::LeftDown, 30);
    assert!(!app.dragging);
    handle_mouse(&mut app, MouseKind::LeftDown, 13);
    assert!(app.dragging);
    handle_mouse(&mut app, MouseKind::LeftDrag, 2);
    assert_eq!(app.left_width, 4);
    handle_mouse(&mut app, MouseKind::LeftDrag, 90);
    assert_eq!(app.left_width, 39);
    handle_mouse(&mut app, MouseKind::LeftUp, 0);
    assert!(!app.dragging);
}

#[test]
fn small_texts() {
    assert_eq!(plural_ru(1), "строка");
    assert_eq!(plural_ru(3), "строки");
    assert_eq!(plural_ru(11), "строк");
    assert_eq!(plural_ru(22), "строки");
    assert_eq!(plural_ru(14), "строк");
    assert_eq!(spinner_frame(0), "⠋");
    assert_eq!(spinner_frame(13), "⠸");
    let mut app = App::new(entries());
    assert_eq!(status_line(&app), "[LEFT] ↑/↓ — навигация, Space — раскрыть, Tab — фокус, q — выход");
    app.status = "hi".into();
    app.focus = Panel::Right;
    assert_eq!(status_line(&app), "[RIGHT] hi");
    assert_eq!(divider_style(true, Panel::Left).fg, Some(Color::Yellow));
    assert_eq!(highlight_style_for(Panel::Left, Panel::Left).bg, Some(Color::Rgb(0x5e, 0x81, 0xac)));
    assert_eq!(highlight_style_for(Panel::Left, Panel::Right).fg, Some(Color::Gray));
}

fn record(ok: bool, exit_code: Option<i32>, signal: Option<i32>) -> RunRecord {
    RunRecord {
        entry_idx: 0,
        started_at: SystemTime::UNIX_EPOCH,
        finished_at: SystemTime::UNIX_EPOCH,
        duration: Duration::ZERO,
        exit_code,
        signal,
        ok,
        stdout: String::new(),
        stderr: String::new(),
    }
}

#[test]
fn failure_badges() {
    assert!(failure_badge(&record(true, Some(0), None)).is_none());
    assert!(failure_badge(&record(false, Some(1), None)).is_none());
    assert_eq!(failure_badge(&record(false, Some(3), None)).unwrap().content, "exit 3");
    assert_eq!(failure_badge(&record(false, None, Some(9))).unwrap().content, "KILL");
    assert_eq!(failure_badge(&record(false, None, Some(15))).unwrap().content, "SIG15");
    let err = failure_badge(&record(false, None, None)).unwrap();
    assert_eq!(err.content, "ERR");
    assert_eq!(err.style.fg, Some(Color::Red));
    assert!(err.style.add_modifier.bold);
}

#[test]
fn right_panel_shows_blocks() {
    let mut app = App::new(entries());
    let empty = right_panel_lines(&mut app, 5, &Vec::new());
    assert_eq!(texts(&empty[0]), "(ещё не запускалось)");
    app.tick(vec![finished(0, true, &many_lines(14))]);
    app.toggle_focus();
    app.right_toggle_view();
    let clocks = vec!["12:34:56".to_string()];
    let lines = right_panel_lines(&mut app, 20, &clocks);
    assert_eq!(app.right_area_height, 20);
    assert_eq!(texts(&lines[0]), " ✓ 12:34:56 14 строк");
    assert_eq!(texts(&lines[1]), "  l0");
    assert_eq!(lines.len(), 1 + 12 + 1);
    assert_eq!(texts(&lines[13]), "--- ещё 2 строки ---");
    let cut = right_panel_lines(&mut app, 3, &clocks);
    assert_eq!(cut.len(), 3);
    let live = right_panel(&mut app, 4);
    let head = texts(&live[0]);
    assert_eq!(head.chars().count(), " ✓ 00:00:00 14 строк".chars().count());
}

#[test]
fn left_items_marks() {
    let mut app = App::new(entries());
    app.spawned(1);
    app.tick(vec![finished(0, false, "")]);
    let item = left_item(&app, 0, Duration::from_secs(12));
    assert_eq!(texts(&item), "alpha ✗ 10s");
    let old = left_item(&app, 0, Duration::from_secs(400));
    assert_eq!(texts(&old), "alpha ✗");
    let running = left_item(&app, 1, Duration::ZERO);
    assert_eq!(texts(&running), format!("beta {}", spinner_frame(app.tick)));
    assert_eq!(texts(&left_item(&app, 2, Duration::ZERO)), "gamma");
    assert_eq!(left_items(&app).len(), 3);
}

#[test]
fn screen_layout() {
    let mut app = App::new(entries());
    app.left_width = 200;
    let s = layout(&mut app, Rect { x: 0, y: 0, width: 80, height: 24 });
    assert_eq!(app.area_width, 80);
    assert_eq!(app.left_width, 79);
    assert_eq!(s.status, Rect { x: 0, y: 23, width: 80, height: 1 });
    app.left_width = 20;
    let s = layout(&mut app, Rect { x: 0, y: 0, width: 80, height: 24 });
    assert_eq!(s.left, Rect { x: 0, y: 0, width: 20, height: 23 });
    assert_eq!(s.divider, Rect { x: 20, y: 0, width: 1, height: 23 });
    assert_eq!(s.right, Rect { x: 21, y: 0, width: 59, height: 23 });
    assert_eq!(app.right_panel_rect, s.right);
}

#[test]
fn start_times_outside_the_calendar_show_dashes() {
    let mut app = App::new(entries());
    let mut far = finished(0, true, "x\n");
    far.started_at = SystemTime::UNIX_EPOCH + Duration::from_secs(1_000_000_000_000_000);
    let mut early = finished(0, true, "y\n");
    early.started_at = SystemTime::UNIX_EPOCH - Duration::from_millis(1500);
    app.tick(vec![far, early]);
    let lines = right_panel(&mut app, 10);
    assert_eq!(texts(&lines[0]).chars().count(), " ✓ 00:00:00 1 строка".chars().count());
    assert!(texts(&lines[0]).contains(":"));
    assert!(texts(&lines[1]).contains("--:--:--"));
}

#[test]
fn finished_runs_succeed_only_on_exit_code_zero() {
    let t = std::time::SystemTime::UNIX_EPOCH;
    let d = std::time::Duration::from_millis(1500);
    let ok = FinishedRun::exited(2, t, t, d, Some(0), None, "out".into(), String::new());
    assert!(ok.ok);
    assert_eq!(ok.entry_idx, 2);
    assert_eq!(ok.stdout, "out");
    let bad = FinishedRun::exited(0, t, t, d, Some(3), None, String::new(), "e".into());
    assert!(!bad.ok);
    assert_eq!(bad.exit_code, Some(3));
    let killed = FinishedRun::exited(0, t, t, d, None, Some(9), String::new(), String::new());
    assert!(!killed.ok);
    assert_eq!(killed.signal, Some(9));
    let lost = FinishedRun::wait_failed(1, t, t, d, "partial".into(), "no child");
    assert!(!lost.ok);
    assert_eq!(lost.exit_code, None);
    assert_eq!(lost.signal, None);
    assert_eq!(lost.stdout, "partial");
    assert_eq!(lost.stderr, "wait error: no child");
}

#[test]
fn first_visible_is_the_earliest_fit_from_any_scroll() {
    let mut app = App::new(entries());
    for _ in 0..6 {
        app.tick(vec![finished(0, true, "a\n")]);
    }
    app.right_area_height = 3;
    app.right_state.selected = Some(4);
    for start in [0usize, 2, 3, 4, 5] {
        app.right_first_visible = start;
        app.recompute_right_first();
        assert_eq!(app.right_first_visible, 2, "from {start}");
    }
}

#[test]
fn status_bar_is_the_last_row() {
    for (y, h) in [(0u16, 2u16), (3, 2), (5, 7), (100, 1000), (0, 65535), (65000, 535)] {
        let mut app = App::new(entries());
        let s = layout(&mut app, Rect { x: 2, y, width: 30, height: h });
        assert_eq!(s.status, Rect { x: 2, y: y + h - 1, width: 30, height: 1 }, "{y} {h}");
        assert_eq!(s.left.height, h - 1, "{y} {h}");
        assert_eq!(s.left.y, y, "{y} {h}");
    }
}
