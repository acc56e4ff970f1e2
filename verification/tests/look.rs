use toolbelt::sanitize::Span;
use toolbelt::style::{Color, Modifiers, Style};
use toolbelt::widgets::button::Button;
use toolbelt::widgets::checkbox::Checkbox;
use toolbelt::widgets::enable::Enable;
use toolbelt::widgets::password::Password;
use toolbelt::widgets::select::{Select, SelectOption};
use toolbelt::widgets::text::Text;
use toolbelt::widgets::textarea::TextArea;

fn bold() -> Modifiers {
    Modifiers { bold: true, dim: false, italic: false, underlined: false, reversed: false }
}

fn texts(row: &[Span]) -> Vec<String> {
    row.iter().map(|s| s.content.clone()).collect()
}

fn label(focused: bool) -> Style {
    if focused {
        Style::new().fg(Color::Cyan).add_modifier(bold())
    } else {
        Style::new().fg(Color::Gray)
    }
}

fn input(focused: bool) -> Style {
    if focused {
        Style::new().fg(Color::Black).bg(Color::Cyan)
    } else {
        Style::new().fg(Color::White).bg(Color::Rgb(0x3b, 0x42, 0x52))
    }
}

#[test]
fn collapsed_text_input() {
    let mut t = Text::new("name", "Jo");
    let rows = t.view(20, false);
    assert_eq!(rows.len(), 1);
    assert_eq!(texts(&rows[0]), vec![" name: ", "Jo"]);
    assert_eq!(rows[0][0].style, label(false));
    assert_eq!(rows[0][1].style, input(false));
    let rows = t.view(9, true);
    assert_eq!(texts(&rows[0]), vec![" name: ", "Jo"]);
    let long = Text::new("name", "Johnathan").view(10, true);
    assert_eq!(texts(&long[0]), vec![" name: ", "Jo…"]);
}

#[test]
fn editing_text_input_shows_cursor() {
    let mut t = Text::new("name", "Jo");
    t.editing = true;
    let rows = t.view(10, true);
    assert_eq!(rows.len(), 2);
    assert_eq!(texts(&rows[0]), vec![" name:"]);
    assert_eq!(texts(&rows[1]), vec![" ", "Jo", " ", "     ", " "]);
    assert_eq!(rows[1][2].style, Style::new().fg(Color::Cyan).add_modifier(bold()).bg(Color::Black));
    assert_eq!(rows[1][1].style, input(true));
    assert!(t.editing);
    let rows = t.view(10, false);
    assert_eq!(rows.len(), 1);
    assert!(!t.editing);
}

#[test]
fn password_masks_and_previews() {
    let mut p = Password::new("pw", "abc");
    p.editing = true;
    p.cursor = 3;
    let rows = p.view(8, true);
    assert_eq!(texts(&rows[1]), vec![" ", "•••", " ", "  ", " "]);
    let rows = p.view(8, false);
    assert_eq!(texts(&rows[0]), vec![" pw: ", "pr…"]);
    let mut e = Password::new("pw", "");
    assert_eq!(texts(&e.view(40, false)[0]), vec![" pw: ", "empty"]);
}

#[test]
fn choices_rows() {
    let opts = vec![
        SelectOption { label: "Red".into(), value: "1".into() },
        SelectOption { label: "Green".into(), value: "2".into() },
        SelectOption { label: "Blue".into(), value: "3".into() },
    ];
    let s = Select::new("color", opts, 1);
    let row = s.view(false);
    assert_eq!(texts(&row), vec![" color: ", "Red", " · ", "Green", " · ", "Blue"]);
    assert_eq!(row[3].style, Style::new().fg(Color::Green).add_modifier(bold()));
    assert_eq!(row[1].style, Style::new().fg(Color::DarkGray));
    let unset = s.clone().unset().view(true);
    assert_eq!(unset[1].style, Style::new().fg(Color::Yellow));
    let none = Select::new("x", Vec::new(), 0).view(false);
    assert_eq!(texts(&none), vec![" x: ", "—"]);
    let c = Checkbox::new("ok", Some(true)).view(true);
    assert_eq!(texts(&c), vec![" [x] ", "ok"]);
    assert_eq!(c[0].style, Style::new().fg(Color::White).bg(Color::Rgb(0x3b, 0x42, 0x52)));
    assert_eq!(texts(&Checkbox::new("ok", None).view(false)), vec![" [?] ", "ok"]);
    let e = Enable::new("on", None, "enabled", "disabled").view(false);
    assert_eq!(texts(&e), vec![" on ", "enabled", " · ", "disabled"]);
    assert_eq!(e[1].style, Style::new().fg(Color::Yellow));
    let b = Button::new("Save").view(true);
    assert_eq!(texts(&b), vec![" Save "]);
    assert_eq!(b[0].style, Style::new().fg(Color::Black).bg(Color::Cyan).add_modifier(bold()));
}

#[test]
fn text_area_rows_wrap_and_pad() {
    let mut t = TextArea::new("t", "abcdef\nxy", 3);
    let rows = t.view(6, 3, true);
    assert_eq!(t.last_width, 4);
    assert_eq!(rows.len(), 3);
    assert_eq!(texts(&rows[0]), vec![" t"]);
    assert_eq!(texts(&rows[1]), vec![" ", "", "a", "bc", "↩", " "]);
    assert_eq!(texts(&rows[2]), vec![" ", "def ", " "]);
    let rows = t.view(6, 6, false);
    assert_eq!(rows.len(), 4);
    assert_eq!(texts(&rows[1]), vec![" ", "abc", "↩", " "]);
    assert_eq!(texts(&rows[3]), vec![" ", "xy  ", " "]);
    let rows = TextArea::new("t", "", 2).view(4, 5, false);
    assert_eq!(texts(&rows[2]), vec![" ", "  ", " "]);
    let mut z = TextArea::new("t", "a", 2);
    assert!(z.view(0, 5, true).is_empty());
    assert_eq!(z.last_width, 0);
}
