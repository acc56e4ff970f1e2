use toolbelt::dump::dump;
use toolbelt::io_args::{parse_args, usage_io, IoArgs};
use toolbelt::schema::{parse_leaf, parse_str, schema_from_entries, SelectOption, ValueType, Widget};
use toolbelt::status::run;
use toolbelt::yaml::{input_entries, is_blank, parse_input, schema_entries, Entry, InputError, Node, Root};

fn entries(text: &str) -> Vec<Entry> {
    parse_input(text).unwrap()
}

fn strs(v: &[&str]) -> Vec<String> {
    v.iter().map(|s| s.to_string()).collect()
}

#[test]
fn parse_text_and_boolean() {
    let schema = parse_str(
        r#"
name: string:widget=text,default=John,label=Имя
present: boolean
"#,
    )
    .unwrap();
    assert_eq!(schema.fields.len(), 2);
    assert_eq!(schema.fields[0].key, "name");
    assert_eq!(schema.fields[0].value_type, ValueType::String);
    assert_eq!(schema.fields[0].widget, Widget::Text);
    assert_eq!(schema.fields[0].default.as_deref(), Some("John"));
    assert_eq!(schema.fields[0].label.as_deref(), Some("Имя"));
    assert_eq!(schema.fields[1].widget, Widget::Checkbox);
    assert_eq!(schema.fields[1].value_type, ValueType::Boolean);
}

#[test]
fn parse_enable() {
    let schema = parse_str(
        r#"
feature: boolean:widget=enable
feature_ru: boolean:widget=enable,on=вкл,off=выкл
"#,
    )
    .unwrap();
    assert_eq!(schema.fields[0].widget, Widget::Enable { on: None, off: None });
    assert_eq!(
        schema.fields[1].widget,
        Widget::Enable { on: Some("вкл".into()), off: Some("выкл".into()) }
    );
}

#[test]
fn skip_nested() {
    let schema = parse_str(
        r#"
present: boolean
sides:
  left: boolean
"#,
    )
    .unwrap();
    assert_eq!(schema.fields.len(), 1);
    assert_eq!(schema.skipped.len(), 1);
    assert_eq!(schema.skipped[0].key, "sides");
}

#[test]
fn leaf_select_textarea_and_number() {
    let f = parse_leaf("color", "string:widget=select,options=red|green(g)").unwrap();
    assert_eq!(
        f.widget,
        Widget::Select {
            options: vec![
                SelectOption { label: "red".into(), value: "red".into() },
                SelectOption { label: "green".into(), value: "g".into() },
            ]
        }
    );
    let t = parse_leaf("notes", " string:widget=textarea,height=6 ").unwrap();
    assert_eq!(t.widget, Widget::Textarea { height: Some(6) });
    let n = parse_leaf("age", "number:widget=text,default=42").unwrap();
    assert_eq!(n.value_type, ValueType::Number);
    assert_eq!(n.default.as_deref(), Some("42"));
}

#[test]
fn leaf_errors() {
    assert!(parse_leaf("a", "   ").is_err());
    assert!(parse_leaf("a", "string:default=x").is_err());
    assert!(parse_leaf("a", "string:widget=textarea,height=x").is_err());
    assert!(parse_leaf("a", "string").is_err());
}

#[test]
fn skipped_reasons() {
    let schema = schema_from_entries(&entries("a: 5\nb: string\n"));
    assert_eq!(schema.fields.len(), 0);
    assert_eq!(schema.skipped.len(), 2);
    assert_eq!(schema.skipped[0].key, "a");
    assert!(schema.skipped[0].reason.starts_with("ожидалась строка компактного DSL, получено "));
    assert_eq!(schema.skipped[1].key, "b");
}

#[test]
fn dump_lists_fields_and_skipped() {
    let schema = schema_from_entries(&entries(
        "name: string:widget=text,default=John\nsides:\n  left: boolean\n",
    ));
    let lines = dump(&schema);
    assert_eq!(lines[0], "schema: 1 field(s)");
    assert_eq!(lines[1], "");
    assert_eq!(lines[2], "  [name]");
    assert_eq!(lines[3], "    value_type: string");
    assert_eq!(lines[4], "    widget:     text");
    assert_eq!(lines[5], "    default:    \"John\"");
    assert_eq!(lines[6], "    label:      <none>");
    assert_eq!(lines[7], "");
    assert_eq!(lines[8], "skipped: 1 key(s)");
    assert_eq!(lines[9], "  [sides] — вложенные объекты пока не поддерживаются");
    assert_eq!(lines.len(), 10);
}

#[test]
fn io_args_defaults_and_errors() {
    let a = parse_args(strs(&["--scheme", "s.yaml", "--input=d.yaml"])).unwrap();
    assert_eq!(a.scheme, "s.yaml");
    assert_eq!(a.input, "d.yaml");
    assert_eq!(a.output, "d.yaml");
    assert!(!a.silent);
    let b = parse_args(strs(&["--silent", "--scheme=s", "--input", "i", "--output", "o"])).unwrap();
    assert!(b.silent);
    assert_eq!(b.output, "o");
    assert_eq!(parse_args(strs(&["--silent", "--silent"])).unwrap_err(), "повторный --silent");
    assert_eq!(parse_args(strs(&["--input", "i"])).unwrap_err(), format!("нужен --scheme <path>\n{}", usage_io()));
    assert_eq!(parse_args(strs(&["--scheme"])).unwrap_err(), "опция --scheme требует значение");
    assert_eq!(parse_args(strs(&["--what=1"])).unwrap_err(), "неизвестная опция: --what");
    assert_eq!(parse_args(strs(&["x=1"])).unwrap_err(), "некорректный аргумент: x=1");
}

#[test]
fn status_lines() {
    let schema = schema_from_entries(&entries("name: string:widget=text\nage: number:widget=text\n"));
    let data = entries("name: Ann\n");
    let args = IoArgs { scheme: "s.yaml".into(), input: "dir/d.yaml".into(), output: "dir//d.yaml".into(), silent: false };
    let lines = run(&args, &schema, &data);
    assert_eq!(lines[0], "status");
    assert_eq!(lines[1], "  scheme:  s.yaml");
    assert_eq!(lines[2], "  input:   dir/d.yaml");
    assert_eq!(lines[3], "  output:  dir//d.yaml (= input)");
    assert_eq!(lines[4], "  fields:  2 (skipped: 0)");
    assert_eq!(lines[5], "  data keys: 1");
    assert_eq!(lines[6], "    - name (in input)");
    assert_eq!(lines[7], "    - age (missing)");
}

#[test]
fn document_roots() {
    let es = entries("a: 1\n");
    assert_eq!(schema_entries(Root::Mapping(es.clone())), Ok(es.clone()));
    assert_eq!(schema_entries(Root::Other(Node::Null)), Err("корень схемы должен быть YAML-мапой".to_string()));
    assert_eq!(
        schema_entries(Root::Other(Node::Str("x".into()))),
        Err("корень схемы должен быть YAML-мапой".to_string())
    );
    assert_eq!(input_entries("a: 1\n", Root::Mapping(es.clone())), Ok(es));
    assert_eq!(input_entries("~", Root::Other(Node::Null)), Ok(Vec::new()));
    assert_eq!(input_entries(" \n\t", Root::Other(Node::Number("1".into()))), Ok(Vec::new()));
    assert_eq!(
        input_entries("- 1", Root::Other(Node::Sequence)),
        Err("корень input должен быть YAML-мапой, получено sequence".to_string())
    );
    assert!(is_blank(" \n\t"));
    assert!(!is_blank(" a "));
}

#[test]
fn schema_text_errors() {
    let e = parse_str("a: [1").unwrap_err();
    assert!(e.starts_with("невалидный YAML: "), "{e}");
    assert_eq!(parse_str("- a\n- b\n").unwrap_err(), "корень схемы должен быть YAML-мапой");
    assert_eq!(parse_str("42").unwrap_err(), "корень схемы должен быть YAML-мапой");
    let s = parse_str("n: number:widget=text\n").unwrap();
    assert_eq!(s.fields.len(), 1);
    assert_eq!(s.fields[0].value_type, ValueType::Number);
}

#[test]
fn input_text_roots() {
    assert_eq!(parse_input("  \n"), Ok(Vec::new()));
    assert_eq!(parse_input("~\n"), Ok(Vec::new()));
    let es = parse_input("name: Bob\nage: 3\nok: true\n").unwrap();
    assert_eq!(es.len(), 3);
    assert_eq!(es[0].key, Node::Str("name".into()));
    assert_eq!(es[0].value, Node::Str("Bob".into()));
    assert_eq!(es[1].value, Node::Number("3".into()));
    assert_eq!(es[2].value, Node::Bool(true));
    assert_eq!(
        parse_input("- 1\n"),
        Err(InputError::NotMapping("корень input должен быть YAML-мапой, получено sequence".into()))
    );
    assert_eq!(
        parse_input("hello"),
        Err(InputError::NotMapping("корень input должен быть YAML-мапой, получено string".into()))
    );
    assert!(matches!(parse_input("a: [1"), Err(InputError::BadYaml(_))));
}

#[test]
fn output_marked_when_it_names_the_input() {
    let schema = schema_from_entries(&entries("name: string:widget=text\n"));
    let line = |input: &str, output: &str| {
        let args = IoArgs { scheme: "s.yaml".into(), input: input.into(), output: output.into(), silent: false };
        run(&args, &schema, &Vec::new())[3].clone()
    };
    assert_eq!(line("dir/d.yaml", "dir/./d.yaml/"), "  output:  dir/./d.yaml/ (= input)");
    assert_eq!(line("/tmp/d.yaml", "//tmp//d.yaml"), "  output:  //tmp//d.yaml (= input)");
    assert_eq!(line("d.yaml", "./d.yaml"), "  output:  ./d.yaml");
    assert_eq!(line("d.yaml", "/d.yaml"), "  output:  /d.yaml");
    assert_eq!(line("a/../d.yaml", "d.yaml"), "  output:  d.yaml");
}
