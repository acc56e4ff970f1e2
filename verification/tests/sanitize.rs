use toolbelt::sanitize::{ansi_line_to_spans, sanitize_output};
use toolbelt::style::Color;

#[test]
fn cr_rewrites_current_line() {
    assert_eq!(sanitize_output("aaa\rbbb"), "bbb");
    assert_eq!(
        sanitize_output("Downloading 10%\rDownloading 100%\nDone\n"),
        "Downloading 100%\nDone\n"
    );
}

#[test]
fn cr_does_not_affect_previous_lines() {
    assert_eq!(
        sanitize_output("keep\noverwrite me\rfinal\n"),
        "keep\nfinal\n"
    );
}

#[test]
fn keeps_sgr_colors() {
    assert_eq!(
        sanitize_output("\x1b[31mred\x1b[0m plain"),
        "\x1b[31mred\x1b[0m plain"
    );
}

#[test]
fn strips_csi_erase_line_with_cr() {
    assert_eq!(sanitize_output("old\r\x1b[Knew"), "new");
}

#[test]
fn progress_cr_esc_k_stream() {
    let raw = "progress 0\r\x1b[Kprogress 1\r\x1b[Kprogress 2\r\x1b[Kdone\n";
    assert_eq!(sanitize_output(raw), "done\n");
}

#[test]
fn erase_line_clears_without_cr() {
    assert_eq!(sanitize_output("old\x1b[2Knew"), "new");
    assert_eq!(sanitize_output("old\x1b[0Knew"), "new");
    assert_eq!(sanitize_output("old\x1b[Knew"), "new");
}

#[test]
fn cursor_col1_then_overwrite_via_el() {
    assert_eq!(sanitize_output("old\x1b[2K\x1b[1Gnew"), "new");
}

#[test]
fn shed_style_progress_collapse() {
    let raw = [
        "[cred] ok\n",
        "[task] POST#1\n",
        "\r\x1b[K[    ] GET #1\r\x1b[K[x   ] GET #2\r\x1b[K[dl] 6/6\r\x1b[K file:///tmp/out\n",
        " |-./a.jpg\n",
    ]
    .join("");
    let got = sanitize_output(&raw);
    assert_eq!(
        got,
        "[cred] ok\n[task] POST#1\n file:///tmp/out\n |-./a.jpg\n",
        "got: {:?}",
        got
    );
}

#[test]
fn strips_osc() {
    assert_eq!(sanitize_output("a\x1b]0;title\x07b"), "ab");
}

#[test]
fn keeps_tab_and_newline() {
    assert_eq!(sanitize_output("a\tb\nc"), "a\tb\nc");
}

#[test]
fn ansi_line_produces_styled_spans() {
    let spans = ansi_line_to_spans("\x1b[31mred\x1b[0m plain");
    assert_eq!(spans[0].content, "  ");
    assert_eq!(spans[1].content, "red");
    assert_eq!(spans[1].style.fg, Some(Color::Red));
    assert_eq!(spans[2].content, " plain");
    assert!(spans[2].style.fg.is_none() || spans[2].style.fg == Some(Color::Reset));
}

#[test]
fn newline_law_on_concrete_text() {
    let p = "line one\rrewritten";
    let q = "x\ry";
    let whole = format!("{p}\n{q}");
    assert_eq!(
        sanitize_output(&whole),
        format!("{}\n{}", sanitize_output(p), sanitize_output(q))
    );
    assert_eq!(sanitize_output(&whole), "rewritten\ny");
}

#[test]
fn carriage_return_law_on_concrete_text() {
    assert_eq!(sanitize_output("abc\tdef\rxyz\nw"), sanitize_output("xyz\nw"));
}

#[test]
fn control_characters_dropped() {
    assert_eq!(sanitize_output("a\x00b\x07c\x7fd\u{85}e"), "abcde");
}

#[test]
fn unknown_csi_and_charset_escapes_dropped() {
    assert_eq!(sanitize_output("a\x1b[2Jb\x1b(Bc\x1bMd"), "abcd");
    assert_eq!(sanitize_output("a\x1b[12"), "a");
    assert_eq!(sanitize_output("a\x1b]0;t\x1b\\b"), "ab");
}

#[test]
fn sgr_extended_colors_and_modifiers() {
    let spans = ansi_line_to_spans("\x1b[1;38;5;200mx\x1b[48;2;1;2;3;22my\x1b[93mz");
    assert_eq!(spans.len(), 4);
    assert_eq!(spans[1].content, "x");
    assert_eq!(spans[1].style.fg, Some(Color::Indexed(200)));
    assert!(spans[1].style.add_modifier.bold);
    assert_eq!(spans[2].style.bg, Some(Color::Rgb(1, 2, 3)));
    assert!(!spans[2].style.add_modifier.bold);
    assert!(spans[2].style.sub_modifier.bold && spans[2].style.sub_modifier.dim);
    assert_eq!(spans[3].style.fg, Some(Color::LightYellow));
}

#[test]
fn spans_skip_other_escapes_and_line_breaks() {
    let spans = ansi_line_to_spans("a\x1b]0;t\x07b\r\x1b[2Kc");
    assert_eq!(spans.len(), 2);
    assert_eq!(spans[1].content, "abc");
}

#[test]
fn sanitizing_twice_changes_nothing() {
    let inputs = [
        "plain\ttext\n",
        "abc\rdef\nghi\x1b[2Kjk\n",
        "\x1b[1;31mred\x1b[0m \x1b]0;title\x07done\x07\x01",
        "\x1b[\x0d1m odd params\n\x1b[12",
        "\x1b(Bx\x1b[5Ay",
    ];
    for s in inputs {
        let once = sanitize_output(s);
        assert_eq!(sanitize_output(&once), once, "{s:?}");
    }
}

#[test]
fn lines_close_after_complete_escapes() {
    let p = "\x1b[31mred\x1b[0m \x1b]0;title\x07ok";
    let q = "next\rNEXT\x1b[2K!";
    let whole = format!("{p}\n{q}");
    assert_eq!(sanitize_output(&whole), format!("{}\n{}", sanitize_output(p), sanitize_output(q)));
    assert_eq!(sanitize_output(&whole), "\x1b[31mred\x1b[0m ok\n!");
    let rewritten = format!("{p}\r{q}");
    assert_eq!(sanitize_output(&rewritten), sanitize_output(q));
    // An escape left open before the newline takes it in.
    assert_eq!(sanitize_output("ab\x1b[\n1m"), "ab\x1b[\n1m");
}
