use toolbelt::widgets::button::Button;
use toolbelt::widgets::checkbox::Checkbox;
use toolbelt::widgets::enable::Enable;
use toolbelt::widgets::key::{Key, KeyEvent, Mods};
use toolbelt::widgets::password::Password;
use toolbelt::widgets::select::{Select, SelectOption};
use toolbelt::widgets::text::{collapsed_line, cursor_segments, display_chars, fit_width, scroll_start, Text};
use toolbelt::widgets::textarea::{build_visual, scroll_to_cursor, visual_index_for_cursor, wrap_logical_line, TextArea};

fn key(code: Key) -> KeyEvent {
    KeyEvent::plain(code)
}

fn opts() -> Vec<SelectOption> {
    vec![
        SelectOption { label: "Red".into(), value: "1".into() },
        SelectOption { label: "Green".into(), value: "2".into() },
        SelectOption { label: "Blue".into(), value: "3".into() },
    ]
}

#[test]
fn text_enters_edits_and_leaves() {
    let mut t = Text::new("name", "Jo");
    assert_eq!(t.height(), 1);
    assert!(!t.handle_key(key(Key::Char('x'))));
    assert!(t.handle_key(key(Key::Enter)));
    assert!(t.is_editing());
    assert_eq!(t.height(), 2);
    assert_eq!(t.cursor, 2);
    assert!(t.handle_key(key(Key::Char('e'))));
    assert!(t.handle_key(key(Key::Home)));
    assert!(t.handle_key(key(Key::Delete)));
    assert_eq!(t.value, "oe");
    assert!(t.handle_key(key(Key::End)));
    assert!(t.handle_key(key(Key::Backspace)));
    assert_eq!(t.value, "o");
    assert!(!t.handle_key(KeyEvent { code: Key::Char('z'), modifiers: Mods::Control }));
    assert!(t.handle_key(KeyEvent { code: Key::Char('Z'), modifiers: Mods::Shift }));
    assert_eq!(t.value, "oZ");
    assert!(t.handle_key(key(Key::Esc)));
    assert!(!t.is_editing());
    t.blur(false);
    assert!(!t.editing);
}

#[test]
fn password_previews() {
    let p = Password::new("pw", "");
    assert_eq!(p.preview(), "empty");
    let q = Password::with_hints("pw", "s3", None, Some("set".into()));
    assert_eq!(q.preview(), "set");
    assert_eq!(q.cursor, 2);
    assert_eq!(q.height(), 1);
}

#[test]
fn select_wraps_and_unsets() {
    let mut s = Select::new("color", opts(), 7);
    assert_eq!(s.selected, 2);
    assert!(s.handle_key(key(Key::Right)));
    assert_eq!(s.selected, 0);
    assert!(s.handle_key(key(Key::Char('h'))));
    assert_eq!(s.selected, 2);
    assert_eq!(s.value(), Some("3"));
    assert!(s.handle_key(key(Key::Delete)));
    assert_eq!(s.value(), None);
    assert!(!s.handle_key(key(Key::Char('q'))));
    let u = Select::new("e", Vec::new(), 0).unset();
    assert!(!u.set);
    assert!(!u.open());
}

#[test]
fn checkbox_and_enable_toggle() {
    let mut c = Checkbox::new("ok", None);
    assert!(c.handle_key(key(Key::Char(' '))));
    assert_eq!(c.value, Some(true));
    assert!(c.handle_key(key(Key::Enter)));
    assert_eq!(c.value, Some(false));
    assert!(c.handle_key(key(Key::Backspace)));
    assert_eq!(c.value, None);
    assert!(!c.handle_key(key(Key::Left)));
    let mut e = Enable::new("on?", Some(true), "yes", "no");
    assert!(e.handle_key(key(Key::Left)));
    assert_eq!(e.value, Some(false));
    assert_eq!(e.height(), 1);
}

#[test]
fn button_activates_on_enter_and_space() {
    let mut b = Button::new("Save");
    assert!(b.handle_key(key(Key::Enter)));
    assert!(b.handle_key(key(Key::Char(' '))));
    assert!(!b.handle_key(key(Key::Char('s'))));
}

#[test]
fn line_layout_helpers() {
    assert_eq!(fit_width("abc", 5), "abc  ");
    assert_eq!(fit_width("abcdef", 3), "abc");
    assert_eq!(fit_width("x", 0), "");
    assert_eq!(scroll_start(10, 2, 4), 0);
    assert_eq!(scroll_start(10, 7, 4), 4);
    assert_eq!(scroll_start(10, 10, 4), 6);
    assert_eq!(collapsed_line("name", "Johnathan", 12), (" name: ".to_string(), "John…".to_string()));
    assert_eq!(collapsed_line("n", "ab", 20).1, "ab");
    assert_eq!(display_chars("abc", true), vec!['•', '•', '•']);
    let (before, at, after) = cursor_segments(&['a', 'b', 'c'], 1, 10);
    let mut expected_after = vec!['c'];
    expected_after.extend(std::iter::repeat(' ').take(7));
    assert_eq!((before, at, after), (vec!['a'], 'b', expected_after));
}

#[test]
fn textarea_lines_and_text() {
    let t = TextArea::new("notes", "one\r\ntwo\n", 0);
    assert_eq!(t.lines, vec!["one".to_string(), "two".to_string()]);
    assert_eq!(t.view_height, 1);
    assert_eq!(t.height(), 2);
    assert_eq!(t.text(), "one\ntwo");
    let e = TextArea::new("e", "", 3);
    assert_eq!(e.lines, vec![String::new()]);
}

#[test]
fn textarea_editing_keys() {
    let mut t = TextArea::new("n", "ab\ncd", 3);
    assert!(t.handle_key(key(Key::End)));
    assert_eq!(t.col, 2);
    assert!(t.handle_key(key(Key::Enter)));
    assert_eq!(t.lines, vec!["ab".to_string(), String::new(), "cd".into()]);
    assert_eq!((t.row, t.col), (1, 0));
    assert!(t.handle_key(key(Key::Backspace)));
    assert_eq!(t.lines, vec!["ab".to_string(), "cd".into()]);
    assert_eq!((t.row, t.col), (0, 2));
    assert!(t.handle_key(key(Key::Delete)));
    assert_eq!(t.lines, vec!["abcd".to_string()]);
    assert!(t.handle_key(key(Key::Char('X'))));
    assert_eq!(t.text(), "abXcd");
    assert!(t.handle_key(key(Key::Right)));
    assert!(t.handle_key(key(Key::Right)));
    assert!(t.handle_key(key(Key::Right)));
    assert_eq!(t.col, 5);
    assert!(!t.handle_key(key(Key::Up)));
}

#[test]
fn textarea_soft_wrap_moves() {
    let mut t = TextArea::new("n", "abcdefgh\nxy", 3);
    t.set_area_width(6);
    assert_eq!(t.last_width, 4);
    assert!(t.handle_key(key(Key::Down)));
    assert_eq!((t.row, t.col), (0, 3));
    assert!(t.handle_key(key(Key::End)));
    assert_eq!(t.col, 6);
    assert!(t.handle_key(key(Key::Home)));
    assert_eq!(t.col, 6);
    assert!(t.handle_key(key(Key::Down)));
    assert_eq!((t.row, t.col), (1, 0));
    assert!(t.handle_key(key(Key::Up)));
    assert_eq!((t.row, t.col), (0, 6));
}

#[test]
fn visual_rows() {
    let rows = wrap_logical_line(8, 4);
    let parts: Vec<(usize, usize, bool)> = rows.iter().map(|r| (r.start, r.len, r.wraps)).collect();
    assert_eq!(parts, vec![(0, 3, true), (3, 3, true), (6, 2, false)]);
    assert_eq!(wrap_logical_line(0, 4).len(), 1);
    let lines = vec!["abcdefgh".to_string(), "xy".to_string()];
    let v = build_visual(&lines, 4);
    assert_eq!(v.len(), 4);
    assert_eq!(v[3].log_row, 1);
    assert_eq!(visual_index_for_cursor(&v, 0, 3), 1);
    assert_eq!(visual_index_for_cursor(&v, 0, 8), 2);
    assert_eq!(visual_index_for_cursor(&v, 1, 1), 3);
    assert_eq!(scroll_to_cursor(5, 3, 10), 3);
    assert_eq!(scroll_to_cursor(9, 3, 10), 7);
    assert_eq!(scroll_to_cursor(1, 3, 10), 0);
}

#[test]
fn backspace_after_typing_restores_the_value() {
    let mut t = Text::new("name", "abc");
    assert!(t.handle_key(key(Key::Enter)));
    assert!(t.handle_key(key(Key::Left)));
    assert!(t.handle_key(key(Key::Char('X'))));
    assert_eq!(t.value, "abXc");
    assert!(t.handle_key(key(Key::Backspace)));
    assert_eq!(t.value, "abc");
    assert_eq!(t.cursor, 2);
    for code in [Key::End, Key::Right, Key::Delete, Key::Home, Key::Left, Key::Backspace] {
        t.handle_key(key(code));
        assert!(t.cursor <= t.value.chars().count());
    }
}

#[test]
fn select_forward_then_back_returns() {
    let mut s = Select::new("c", opts(), 2);
    assert!(s.handle_key(key(Key::Right)));
    assert_eq!(s.selected, 0);
    assert!(s.handle_key(key(Key::Left)));
    assert_eq!(s.selected, 2);
    assert!(s.handle_key(key(Key::Delete)));
    assert!(!s.set);
    assert!(s.handle_key(key(Key::Down)));
    assert!(s.handle_key(key(Key::Up)));
    assert_eq!(s.selected, 2);
    assert!(s.set);
}

#[test]
fn wrapped_rows_cover_the_line() {
    let rows = wrap_logical_line(10, 4);
    let spans: Vec<(usize, usize, bool)> = rows.iter().map(|r| (r.start, r.len, r.wraps)).collect();
    assert_eq!(spans, vec![(0, 3, true), (3, 3, true), (6, 4, false)]);
    let rows = wrap_logical_line(3, 1);
    let spans: Vec<(usize, usize, bool)> = rows.iter().map(|r| (r.start, r.len, r.wraps)).collect();
    assert_eq!(spans, vec![(0, 1, true), (1, 1, true), (2, 1, false)]);
}
