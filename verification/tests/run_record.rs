use std::time::{Duration, SystemTime};
use toolbelt::run_record::RunRecord;
use toolbelt::run_view::{block_height, format_duration, format_seconds, RunView};

fn run(ok: bool, exit_code: Option<i32>, stdout: &str, stderr: &str) -> RunRecord {
    RunRecord {
        entry_idx: 0,
        started_at: SystemTime::UNIX_EPOCH,
        finished_at: SystemTime::UNIX_EPOCH,
        duration: Duration::ZERO,
        exit_code,
        signal: None,
        ok,
        stdout: stdout.to_string(),
        stderr: stderr.to_string(),
    }
}

#[test]
fn ok_shows_only_stdout() {
    let r = run(true, Some(0), "a\nb\n", "err\n");
    assert_eq!(r.body_lines(), vec!["a", "b"]);
}

#[test]
fn fail_empty_stderr_shows_exit_code() {
    let r = run(false, Some(2), "", "");
    assert_eq!(r.body_lines(), vec!["exit code: 2"]);
}

#[test]
fn fail_stderr_then_blank_then_stdout() {
    let r = run(false, Some(1), "out\n", "err1\nerr2\n");
    assert_eq!(
        r.body_lines(),
        vec!["err1".to_string(), "err2".into(), String::new(), "out".into()]
    );
}

#[test]
fn fail_stderr_only_no_blank() {
    let r = run(false, Some(1), "", "boom\n");
    assert_eq!(r.body_lines(), vec!["boom"]);
}

#[test]
fn fail_without_code_shows_question_mark() {
    let r = run(false, None, "", "");
    assert_eq!(r.body_lines(), vec!["exit code: ?"]);
    let r = run(false, Some(-3), "", "");
    assert_eq!(r.body_lines(), vec!["exit code: -3"]);
}

#[test]
fn crlf_lines_are_split_like_str_lines() {
    let r = run(true, Some(0), "a\r\nb\r", "");
    assert_eq!(r.body_lines(), vec!["a", "b\r"]);
}

#[test]
fn block_heights() {
    let many: String = (0..20).map(|i| format!("{i}\n")).collect();
    let r = run(true, Some(0), &many, "");
    assert_eq!(block_height(&r, RunView::Collapsed), 1);
    assert_eq!(block_height(&r, RunView::Preview), 14);
    assert_eq!(block_height(&r, RunView::Full), 21);
    let few = run(true, Some(0), "a\nb\n", "");
    assert_eq!(block_height(&few, RunView::Preview), 3);
}

#[test]
fn duration_labels() {
    assert_eq!(format_duration(Duration::from_secs(0)), "0s");
    assert_eq!(format_duration(Duration::from_secs(7)), "5s");
    assert_eq!(format_duration(Duration::from_secs(59)), "55s");
    assert_eq!(format_duration(Duration::from_secs(60)), "1m");
    assert_eq!(format_duration(Duration::from_secs(299)), "4m");
    assert_eq!(format_duration(Duration::from_secs(300)), "");
    assert_eq!(format_seconds(125), "2m");
}
