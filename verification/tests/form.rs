use toolbelt::form::{
    bool_value, build_field, field_layout, handle_key, lookup_value, scroll_step, string_value, visible_scroll,
    Focus, Form, FormAction, FormWidget,
};
use toolbelt::scalar::{parse_bool_str, scalar_string, value_as_string, Scalar};
use toolbelt::schema::{Field, Schema, SelectOption, ValueType, Widget};
use toolbelt::widgets::key::{Key, KeyEvent, Mods};
use toolbelt::yaml::{Entry, Node};

fn field(key: &str, value_type: ValueType, widget: Widget, default: Option<&str>) -> Field {
    Field { key: key.to_string(), value_type, widget, default: default.map(|s| s.to_string()), label: None }
}

fn entry(key: &str, value: Node) -> Entry {
    Entry { key: Node::Str(key.to_string()), key_debug: format!("{key:?}"), value, value_debug: String::new() }
}

fn colors() -> Vec<SelectOption> {
    vec![
        SelectOption { label: "Red".into(), value: "1".into() },
        SelectOption { label: "Green".into(), value: "2".into() },
    ]
}

fn schema() -> Schema {
    Schema {
        fields: vec![
            field("name", ValueType::String, Widget::Text, Some("John")),
            field("present", ValueType::Boolean, Widget::Checkbox, None),
            field("age", ValueType::Number, Widget::Text, None),
            field("color", ValueType::String, Widget::Select { options: colors() }, None),
            field("note", ValueType::String, Widget::Text, None),
        ],
        skipped: Vec::new(),
    }
}

fn data() -> Vec<Entry> {
    vec![
        entry("present", Node::Bool(true)),
        entry("age", Node::Number("42".to_string())),
        entry("color", Node::Str("Green".to_string())),
    ]
}

fn key(code: Key) -> KeyEvent {
    KeyEvent::plain(code)
}

fn press(form: &mut Form, code: Key) -> FormAction {
    handle_key(form, key(code), 10, 10)
}

#[test]
fn scalars_follow_the_value_type() {
    assert_eq!(scalar_string("yes", &ValueType::Boolean), Scalar::Bool(true));
    assert_eq!(scalar_string("0", &ValueType::Boolean), Scalar::Bool(false));
    assert_eq!(scalar_string("maybe", &ValueType::Boolean), Scalar::Str("maybe".into()));
    assert_eq!(scalar_string("-17", &ValueType::Number), Scalar::Int(-17));
    assert_eq!(scalar_string("2.5", &ValueType::Number), Scalar::Float("2.5".into()));
    assert_eq!(scalar_string("1e3", &ValueType::Number), Scalar::Float("1e3".into()));
    assert_eq!(scalar_string("12abc", &ValueType::Number), Scalar::Str("12abc".into()));
    assert_eq!(scalar_string("99999999999999999999", &ValueType::Number), Scalar::Float("99999999999999999999".into()));
    assert_eq!(scalar_string("42", &ValueType::String), Scalar::Str("42".into()));
    assert_eq!(parse_bool_str("True"), Some(true));
    assert_eq!(parse_bool_str("TRUE"), None);
    assert_eq!(value_as_string(&Node::Bool(false)), Some("false".to_string()));
    assert_eq!(value_as_string(&Node::Number("3.5".into())), Some("3.5".to_string()));
    assert_eq!(value_as_string(&Node::Null), None);
}

#[test]
fn starting_values() {
    let d = data();
    assert!(lookup_value(&d, &"age".to_string()).is_some());
    assert!(lookup_value(&d, &"nope".to_string()).is_none());
    let john = Some("John".to_string());
    assert_eq!(string_value(None, &john, false), ("John".to_string(), true));
    assert_eq!(string_value(None, &None, false), (String::new(), false));
    assert_eq!(string_value(Some(&Node::Null), &None, true), (String::new(), true));
    assert_eq!(string_value(Some(&Node::Number("7".into())), &john, true), ("7".to_string(), true));
    assert_eq!(bool_value(Some(&Node::Bool(false)), &None), Some(false));
    assert_eq!(bool_value(Some(&Node::Str("yes".into())), &None), Some(true));
    assert_eq!(bool_value(Some(&Node::Str("what".into())), &Some("true".into())), None);
    assert_eq!(bool_value(None, &Some("no".into())), Some(false));
}

#[test]
fn schema_without_fields_or_with_unknown_widget_is_refused() {
    let empty = Schema { fields: Vec::new(), skipped: Vec::new() };
    assert_eq!(Form::from_schema(&empty, &Vec::new(), "out.yaml").err().unwrap(), "в схеме нет полей для редактирования");
    let bad = Schema {
        fields: vec![
            field("a", ValueType::String, Widget::Text, None),
            field("b", ValueType::String, Widget::Other("slider".into()), None),
        ],
        skipped: Vec::new(),
    };
    assert_eq!(Form::from_schema(&bad, &Vec::new(), "out.yaml").err().unwrap(), "неподдерживаемый виджет: slider");
}

#[test]
fn fields_are_built_from_the_input() {
    let d = data();
    let f = build_field(&field("color", ValueType::String, Widget::Select { options: colors() }, None), &d).unwrap();
    match &f.widget {
        FormWidget::Select(s) => {
            assert_eq!(s.selected, 1);
            assert!(s.set);
        },
        _ => panic!("not a select"),
    }
    let f = build_field(&field("color", ValueType::String, Widget::Select { options: colors() }, Some("9")), &Vec::new()).unwrap();
    match &f.widget {
        FormWidget::Select(s) => assert!(!s.set),
        _ => panic!("not a select"),
    }
    let f = build_field(&field("t", ValueType::String, Widget::Textarea { height: Some(0) }, Some("a\nb")), &Vec::new()).unwrap();
    match &f.widget {
        FormWidget::TextArea { w, defined } => {
            assert_eq!(w.view_height, 1);
            assert_eq!(w.lines, vec!["a".to_string(), "b".to_string()]);
            assert!(*defined);
        },
        _ => panic!("not a text area"),
    }
    assert_eq!(f.height(), 2);
    let f = build_field(&field("on", ValueType::Boolean, Widget::Enable { on: None, off: Some("нет".into()) }, None), &Vec::new()).unwrap();
    match &f.widget {
        FormWidget::Enable(e) => {
            assert_eq!(e.on, "enabled");
            assert_eq!(e.off, "нет");
            assert_eq!(e.value, None);
        },
        _ => panic!("not an enable"),
    }
    assert_eq!(build_field(&field("x", ValueType::String, Widget::Other("dial".into()), None), &d).err().unwrap(), "неподдерживаемый виджет: dial");
}

#[test]
fn untouched_form_writes_what_it_read() {
    let form = Form::from_schema(&schema(), &data(), "out.yaml").unwrap();
    assert_eq!(form.focus, Focus::Field(0));
    assert_eq!(
        form.values(),
        vec![
            ("name".to_string(), Scalar::Str("John".into())),
            ("present".to_string(), Scalar::Bool(true)),
            ("age".to_string(), Scalar::Int(42)),
            ("color".to_string(), Scalar::Str("2".into())),
        ]
    );
    assert_eq!(form.status_text(), "  output: out.yaml");
    let (offsets, total) = field_layout(&form.fields);
    assert_eq!(offsets, vec![0, 1, 2, 3, 4]);
    assert_eq!(total, 5);
}

#[test]
fn keys_move_focus_edit_and_save() {
    let mut form = Form::from_schema(&schema(), &data(), "out.yaml").unwrap();
    assert_eq!(press(&mut form, Key::Enter), FormAction::Nothing);
    assert!(form.fields[0].is_editing());
    press(&mut form, Key::Char('!'));
    assert_eq!(press(&mut form, Key::Esc), FormAction::Nothing);
    assert!(!form.should_quit);
    assert!(!form.fields[0].is_editing());
    press(&mut form, Key::Enter);
    press(&mut form, Key::Tab);
    assert_eq!(form.focus, Focus::Field(1));
    assert!(!form.fields[0].is_editing());
    press(&mut form, Key::Char(' '));
    press(&mut form, Key::BackTab);
    assert_eq!(form.focus, Focus::Field(0));
    press(&mut form, Key::BackTab);
    assert_eq!(form.focus, Focus::Save);
    assert_eq!(press(&mut form, Key::Char('x')), FormAction::Nothing);
    assert_eq!(press(&mut form, Key::Enter), FormAction::Save);
    assert_eq!(press(&mut form, Key::Char(' ')), FormAction::Save);
    press(&mut form, Key::Tab);
    assert_eq!(form.focus, Focus::Field(0));
    for _ in 0..4 {
        press(&mut form, Key::Tab);
    }
    assert_eq!(form.focus, Focus::Field(4));
    press(&mut form, Key::Enter);
    press(&mut form, Key::Tab);
    assert_eq!(form.focus, Focus::Save);
    let values = form.values();
    assert_eq!(values[0], ("name".to_string(), Scalar::Str("John!".into())));
    assert_eq!(values[1], ("present".to_string(), Scalar::Bool(false)));
    assert_eq!(values.len(), 4);
    assert!(values.iter().all(|(k, _)| k != "note"));
    assert!(!form.should_quit);
    press(&mut form, Key::Esc);
    assert!(form.should_quit);
}

#[test]
fn control_keys_quit() {
    let mut form = Form::from_schema(&schema(), &data(), "out.yaml").unwrap();
    press(&mut form, Key::Enter);
    handle_key(&mut form, KeyEvent { code: Key::Char('q'), modifiers: Mods::Control }, 10, 10);
    assert!(form.should_quit);
    let mut form = Form::from_schema(&schema(), &data(), "out.yaml").unwrap();
    handle_key(&mut form, KeyEvent { code: Key::Char('c'), modifiers: Mods::Control }, 10, 10);
    assert!(form.should_quit);
}

#[test]
fn saving_reports() {
    let mut form = Form::from_schema(&schema(), &data(), "out.yaml").unwrap();
    form.save_failed("диск полон");
    assert_eq!(form.status_text(), " ошибка: диск полон");
    assert!(!form.saved);
    form.saved();
    assert!(form.saved);
    assert!(form.should_quit);
}

#[test]
fn scrolling_keeps_focus_in_view() {
    assert_eq!(visible_scroll(0, 8, 2, 5, 20), 5);
    assert_eq!(visible_scroll(6, 2, 1, 5, 20), 2);
    assert_eq!(visible_scroll(0, 18, 2, 5, 12), 7);
    assert_eq!(visible_scroll(3, 8, 2, 0, 20), 3);
    assert_eq!(scroll_step(0, 5, 5, 12), 5);
    assert_eq!(scroll_step(5, 5, 5, 12), 7);
    assert_eq!(scroll_step(2, -5, 5, 12), 0);
    let mut form = Form::from_schema(&schema(), &data(), "out.yaml").unwrap();
    assert_eq!(handle_key(&mut form, key(Key::PageDown), 2, 5), FormAction::Nothing);
    assert_eq!(form.scroll, 2);
    handle_key(&mut form, key(Key::PageDown), 2, 5);
    assert_eq!(form.scroll, 3);
    handle_key(&mut form, key(Key::PageUp), 2, 5);
    assert_eq!(form.scroll, 1);
    let (offsets, total) = field_layout(&form.fields);
    form.focus = Focus::Field(4);
    form.ensure_focus_visible(&offsets, 2, total);
    assert_eq!(form.scroll, 3);
    assert_eq!(form.placements(&offsets, 2), vec![(3, 0, 1), (4, 1, 1)]);
}

#[test]
fn untouched_text_area_writes_its_text_back() {
    let s = Schema {
        fields: vec![field("t", ValueType::String, Widget::Textarea { height: None }, None)],
        skipped: Vec::new(),
    };
    let d = vec![entry("t", Node::Str("first\nsecond".to_string()))];
    let form = Form::from_schema(&s, &d, "o.yaml").unwrap();
    assert_eq!(form.values(), vec![("t".to_string(), Scalar::Str("first\nsecond".into()))]);
    let d = vec![entry("t", Node::Str("ends\n".to_string()))];
    let form = Form::from_schema(&s, &d, "o.yaml").unwrap();
    assert_eq!(form.values(), vec![("t".to_string(), Scalar::Str("ends".into()))]);
}

#[test]
fn opening_and_leaving_an_untouched_field_keeps_it_unset() {
    let sf = field("name", ValueType::String, Widget::Text, None);
    let mut f = build_field(&sf, &Vec::new()).unwrap();
    assert!(f.handle_key(key(Key::Enter)));
    assert!(f.handle_key(key(Key::Esc)));
    assert_eq!(f.to_yaml(), None);
    assert!(f.handle_key(key(Key::Enter)));
    assert!(f.handle_key(key(Key::Char('a'))));
    assert!(f.handle_key(key(Key::Backspace)));
    assert_eq!(f.to_yaml(), Some(Scalar::Str(String::new())));
    let mut area = build_field(&field("t", ValueType::String, Widget::Textarea { height: None }, None), &Vec::new()).unwrap();
    assert!(area.handle_key(key(Key::Right)));
    assert_eq!(area.to_yaml(), None);
    assert!(area.handle_key(key(Key::Char('x'))));
    assert_eq!(area.to_yaml(), Some(Scalar::Str("x".into())));
}

#[test]
fn scrollbar_only_when_rows_overflow_a_wide_enough_area() {
    assert!(toolbelt::form::shows_scrollbar(11, 10, 2));
    assert!(!toolbelt::form::shows_scrollbar(10, 10, 40));
    assert!(!toolbelt::form::shows_scrollbar(11, 10, 1));
    assert!(!toolbelt::form::shows_scrollbar(0, 0, 40));
}
