use toolbelt::demo::{field_layout, handle_key, Demo, DemoField};
use toolbelt::widgets::key::{Key, KeyEvent, Mods};
use toolbelt::widgets::textarea::TextArea;

fn key(code: Key) -> KeyEvent {
    KeyEvent::plain(code)
}

const LONG: &str = "Короткая строка.\nА эта строка специально длинная, чтобы было видно soft-wrap с маркером ↩ справа на перенесённых рядах.";

#[test]
fn gallery_layout_has_gaps() {
    let d = Demo::new();
    assert_eq!(d.fields.len(), 10);
    let (offsets, total) = field_layout(&d.fields);
    assert_eq!(offsets, vec![0, 2, 4, 11, 13, 15, 17, 19, 21, 23]);
    assert_eq!(total, 24);
    assert_eq!(d.footer(total), " focus: 0/9  scroll: 0  content: 24");
}

#[test]
fn gallery_values_line() {
    let d = Demo::new();
    let textarea = format!("textarea={:?}", LONG.replace('\n', "\\n"));
    let expected = [
        "text=\"John\"".to_string(),
        "password=<6 chars>".to_string(),
        textarea,
        "select=\"1\"".to_string(),
        "checkbox=Some(false)".to_string(),
        "enable=Some(true)".to_string(),
        "enable=None".to_string(),
        "text=\"\"".to_string(),
        "checkbox=None".to_string(),
        "enable=Some(false)".to_string(),
    ]
    .join("  ·  ");
    assert_eq!(d.values_line(), expected);
}

#[test]
fn summaries_escape_quotes_and_newlines() {
    let f = DemoField::TextArea(TextArea::new("t", "a\"b\nc", 2));
    assert_eq!(f.summary(), "textarea=\"a\\\"b\\\\nc\"");
}

#[test]
fn gallery_keys() {
    let mut d = Demo::new();
    handle_key(&mut d, key(Key::BackTab), 5, 24);
    assert_eq!(d.focus, 9);
    handle_key(&mut d, key(Key::Tab), 5, 24);
    assert_eq!(d.focus, 0);
    handle_key(&mut d, key(Key::Tab), 5, 24);
    handle_key(&mut d, key(Key::Tab), 5, 24);
    handle_key(&mut d, key(Key::Tab), 5, 24);
    assert_eq!(d.focus, 3);
    handle_key(&mut d, key(Key::Right), 5, 24);
    handle_key(&mut d, key(Key::Tab), 5, 24);
    handle_key(&mut d, key(Key::Char(' ')), 5, 24);
    assert_eq!(d.fields[3].summary(), "select=\"2\"");
    assert_eq!(d.fields[4].summary(), "checkbox=Some(true)");
    handle_key(&mut d, key(Key::PageDown), 5, 24);
    assert_eq!(d.scroll, 5);
    handle_key(&mut d, key(Key::PageDown), 30, 24);
    assert_eq!(d.scroll, 0);
    let (offsets, total) = field_layout(&d.fields);
    d.focus = 9;
    d.ensure_focus_visible(&offsets, 5, total);
    assert_eq!(d.scroll, 19);
    assert!(!d.should_quit);
    handle_key(&mut d, KeyEvent { code: Key::Char('c'), modifiers: Mods::Control }, 5, 24);
    assert!(d.should_quit);
    let mut d = Demo::new();
    handle_key(&mut d, key(Key::Esc), 5, 24);
    assert!(d.should_quit);
}

#[test]
fn only_whole_widgets_are_placed() {
    let mut d = Demo::new();
    let (offsets, _) = field_layout(&d.fields);
    assert_eq!(d.placements(&offsets, 5), vec![(0, 0, 1), (1, 2, 1)]);
    d.scroll = 4;
    assert_eq!(d.placements(&offsets, 7), vec![(2, 0, 6)]);
}
