use toolbelt::jsx::{
    backup_file_name, check_extension, css_file_name, style_counts, try_transform_jsx, add_css_import, camel_to_kebab, clean_style_object, css_value_of, extract_object_properties,
    find_full_attribute_range, generate_css, generate_rule_name, mapping_for, remove_const_props,
    sort_by_key, transform_jsx, ObjProp, StyleMapping,
};

fn prop(key: Option<&str>, literal: Option<&str>) -> ObjProp {
    ObjProp { key: key.map(|s| s.to_string()), literal: literal.map(|s| s.to_string()) }
}

fn pair(k: &str, v: &str) -> (String, String) {
    (k.to_string(), v.to_string())
}

fn style_span(source: &str) -> (usize, usize) {
    let start = source.find("style").unwrap();
    let end = start + source[start..].find("}}").unwrap() + 2;
    (start, end)
}

#[test]
fn css_values_get_px_for_bare_numbers() {
    assert_eq!(css_value_of("width", "100"), "100px");
    assert_eq!(css_value_of("margin", "-4"), "-4px");
    assert_eq!(css_value_of("padding", "1.5"), "1.5");
    assert_eq!(css_value_of("opacity", "0"), "0");
    assert_eq!(css_value_of("zIndex", "10"), "10");
    assert_eq!(css_value_of("flex", "1"), "1");
    assert_eq!(css_value_of("color", "red"), "red");
    assert_eq!(css_value_of("top", "1e3"), "1e3px");
    assert_eq!(css_value_of("top", "inf"), "infpx");
    assert_eq!(css_value_of("top", "1e"), "1e");
}

#[test]
fn object_properties_split_into_constant_and_computed() {
    let props = vec![
        prop(Some("width"), Some("100")),
        prop(Some("color"), Some("red")),
        prop(Some("height"), None),
        prop(None, Some("1")),
        prop(Some("width"), Some("200")),
        prop(Some("height"), None),
    ];
    let (c, d) = extract_object_properties(&props);
    assert_eq!(c, vec![pair("width", "200px"), pair("color", "red")]);
    assert_eq!(d, vec!["height".to_string(), "__computed_key__".to_string()]);
}

#[test]
fn attribute_range_widens_to_separators() {
    assert_eq!(find_full_attribute_range("<div style={{a: 1}}>", 5, 19), (5, 19));
    assert_eq!(find_full_attribute_range("ab cd ef", 4, 4), (3, 5));
    assert_eq!(find_full_attribute_range("abc", 2, 1), (0, 3));
}

#[test]
fn mapping_needs_a_constant_property() {
    let source = "<Box style={{ width: w }}>";
    let (s, e) = style_span(source);
    assert!(mapping_for(Some("Box"), &vec![prop(Some("width"), None)], source, s, e).is_none());
    let m = mapping_for(Some("Box"), &vec![prop(Some("width"), Some("3"))], source, s, e).unwrap();
    assert_eq!(m.tag_name, "box");
    assert_eq!(m.const_props, vec![pair("width", "3px")]);
    assert!(m.dynamic_props.is_empty());
    assert_eq!((m.start, m.end), (s, e));
    let m = mapping_for(None, &vec![prop(Some("a"), Some("x"))], source, s, e).unwrap();
    assert_eq!(m.tag_name, "div");
}

#[test]
fn rule_names_count_per_tag() {
    let mut counter: Vec<(String, usize)> = Vec::new();
    assert_eq!(generate_rule_name("div", &mut counter), "div1");
    assert_eq!(generate_rule_name("div", &mut counter), "div2");
    assert_eq!(generate_rule_name("span", &mut counter), "span1");
    assert_eq!(generate_rule_name("div", &mut counter), "div3");
}

#[test]
fn style_text_is_tidied() {
    assert_eq!(clean_style_object("style={{ color: x, }}"), "style={{color: x}}");
    assert_eq!(clean_style_object("style={ }"), "{}");
    assert_eq!(clean_style_object("a,,b , ,c"), "a,b ,c");
}

#[test]
fn constant_properties_are_removed() {
    let r = remove_const_props("style={{ width: 100, color: x }}", &vec![pair("width", "100px")]);
    assert_eq!(r, Ok("style={{  color: x }}".to_string()));
    let r = remove_const_props("style={{ color: 'red'}}", &vec![pair("color", "red")]);
    assert_eq!(r, Ok("style={{ }".to_string()));
    let r = remove_const_props("{width: 1}", &vec![pair("width", "1px")]);
    assert_eq!(r, Ok("{".to_string()));
    let r = remove_const_props("width: 1}", &vec![pair("width", "1px")]);
    assert_eq!(r, Ok("{}".to_string()));
    assert!(remove_const_props("style={{ a: 1 }}", &vec![pair("(", "1")]).is_err());
}

#[test]
fn mixed_style_keeps_computed_part() {
    let source = "<div style={{ width: 100, color: x }}>hi</div>";
    let (s, e) = style_span(source);
    let props = vec![prop(Some("width"), Some("100")), prop(Some("color"), None)];
    let m = mapping_for(Some("div"), &props, source, s, e).unwrap();
    let out = transform_jsx(source, &vec![m]).unwrap();
    assert_eq!(out, "<div style={{ color: x}} className={classes.div1}>hi</div>");
}

#[test]
fn constant_style_becomes_class_name() {
    let source = "<p style={{ margin: 0 }}>x</p>";
    let (s, e) = style_span(source);
    let m = mapping_for(Some("p"), &vec![prop(Some("margin"), Some("0"))], source, s, e).unwrap();
    let out = transform_jsx(source, &vec![m]).unwrap();
    assert_eq!(out, "<p className={classes.p1}>x</p>");
}

#[test]
fn later_attributes_are_named_first() {
    let source = "<div style={{ a: 1 }}><div style={{ b: 2 }}/></div>";
    let s1 = source.find("style").unwrap();
    let e1 = source.find("}}").unwrap() + 2;
    let s2 = s1 + 1 + source[s1 + 1..].find("style").unwrap();
    let e2 = s2 + source[s2..].find("}}").unwrap() + 2;
    let m1 = mapping_for(Some("div"), &vec![prop(Some("a"), Some("1"))], source, s1, e1).unwrap();
    let m2 = mapping_for(Some("div"), &vec![prop(Some("b"), Some("2"))], source, s2, e2).unwrap();
    let out = transform_jsx(source, &vec![m1, m2]).unwrap();
    assert_eq!(out, "<div className={classes.div2}><div className={classes.div1}/></div>");
}

#[test]
fn out_of_range_or_foreign_ranges_are_skipped() {
    let source = "<p id=\"a\">x</p>";
    let m = StyleMapping {
        tag_name: "p".to_string(),
        const_props: vec![pair("a", "1")],
        dynamic_props: Vec::new(),
        start: 3,
        end: 9,
    };
    assert_eq!(transform_jsx(source, &vec![m.clone()]).unwrap(), source);
    let far = StyleMapping { start: 40, end: 50, ..m };
    assert_eq!(transform_jsx(source, &vec![far]).unwrap(), source);
}

#[test]
fn css_import_goes_after_imports() {
    let source = "import React from 'react';\nconst A = () => <div/>;\n";
    let out = add_css_import(source, "src/App.jsx").unwrap();
    assert_eq!(
        out,
        "import React from 'react';\nimport classes from \"./App.module.css\";\nconst A = () => <div/>;"
    );
    let plain = "const A = 1;";
    assert_eq!(
        add_css_import(plain, "").unwrap(),
        "import classes from \"./styles.module.css\";\nconst A = 1;"
    );
    assert_eq!(add_css_import("", "x/Card.tsx").unwrap(), "import classes from \"./Card.module.css\";");
    let twice = add_css_import(&out, "src/App.jsx").unwrap();
    assert_eq!(twice, out);
}

#[test]
fn kebab_case_names() {
    assert_eq!(camel_to_kebab("backgroundColor").unwrap(), "background-color");
    assert_eq!(camel_to_kebab("zIndex").unwrap(), "z-index");
    assert_eq!(camel_to_kebab("WebkitTransform").unwrap(), "webkit-transform");
    assert_eq!(camel_to_kebab("h1Title").unwrap(), "h1-title");
    assert_eq!(camel_to_kebab("ABC").unwrap(), "abc");
}

#[test]
fn properties_sort_by_name() {
    let sorted = sort_by_key(&vec![pair("width", "1"), pair("backgroundColor", "r"), pair("color", "b")]);
    assert_eq!(sorted, vec![pair("backgroundColor", "r"), pair("color", "b"), pair("width", "1")]);
}

#[test]
fn css_module_text() {
    assert_eq!(generate_css(&Vec::new()).unwrap(), "");
    let m = StyleMapping {
        tag_name: "div".to_string(),
        const_props: vec![pair("width", "100px"), pair("backgroundColor", "red")],
        dynamic_props: Vec::new(),
        start: 0,
        end: 0,
    };
    let empty = StyleMapping { const_props: Vec::new(), ..m.clone() };
    let css = generate_css(&vec![empty, m.clone(), m]).unwrap();
    assert_eq!(
        css,
        "/* Автоматически сгенерировано из инлайн-стилей */\n/* Константные стили вынесены из JSX */\n\n\
.div1 {\n  background-color: red;\n  width: 100px;\n}\n\n\
.div2 {\n  background-color: red;\n  width: 100px;\n}\n"
    );
}

#[test]
fn fully_constant_style_leaves_no_style_attribute() {
    let source = "\n<div style={{ fontSize: '16px', color: 'blue' }}>\n    Hello\n</div>\n";
    let (s, e) = style_span(source);
    let props = vec![prop(Some("fontSize"), Some("16px")), prop(Some("color"), Some("blue"))];
    let m = mapping_for(Some("div"), &props, source, s, e).unwrap();
    assert_eq!(m.tag_name, "div");
    assert_eq!(m.const_props.len(), 2);
    assert!(m.dynamic_props.is_empty());
    let out = transform_jsx(source, &vec![m]).unwrap();
    assert!(out.contains("className={classes.div1}"));
    assert!(!out.contains("style="));
}

#[test]
fn css_rules_for_two_elements() {
    let source = "<div style={{ fontSize: '16px', color: 'blue' }}>Hello</div>\n<span style={{ fontWeight: 'bold' }}>World</span>";
    let (s1, e1) = style_span(source);
    let s2 = s1 + 1 + source[s1 + 1..].find("style").unwrap();
    let e2 = s2 + source[s2..].find("}}").unwrap() + 2;
    let m1 = mapping_for(
        Some("div"),
        &vec![prop(Some("fontSize"), Some("16px")), prop(Some("color"), Some("blue"))],
        source,
        s1,
        e1,
    )
    .unwrap();
    let m2 = mapping_for(Some("span"), &vec![prop(Some("fontWeight"), Some("bold"))], source, s2, e2).unwrap();
    let css = generate_css(&vec![m1, m2]).unwrap();
    assert!(css.contains(".div1 {"));
    assert!(css.contains("font-size: 16px;"));
    assert!(css.contains("color: blue;"));
    assert!(css.contains(".span1 {"));
    assert!(css.contains("font-weight: bold;"));
}

#[test]
fn component_file_names() {
    assert_eq!(check_extension("src/App.tsx"), Ok(()));
    assert_eq!(check_extension("src/App.js"), Ok(()));
    assert_eq!(check_extension("src/App"), Ok(()));
    assert_eq!(check_extension("src/App.txt"), Err("Unsupported file extension: \"txt\"".to_string()));
    assert_eq!(css_file_name("src/App.tsx"), Some("App.module.css".to_string()));
    assert_eq!(css_file_name(""), None);
    assert_eq!(backup_file_name("src/App.jsx"), Some("App.jsx.bak".to_string()));
    assert_eq!(backup_file_name("src/App"), Some("App.tsx.bak".to_string()));
}

#[test]
fn counts_and_ranges_that_cut_characters() {
    let m = StyleMapping {
        tag_name: "p".to_string(),
        const_props: vec![pair("a", "1")],
        dynamic_props: Vec::new(),
        start: 1,
        end: 5,
    };
    let mixed = StyleMapping { dynamic_props: vec!["b".to_string()], ..m.clone() };
    assert_eq!(style_counts(&vec![m.clone(), mixed.clone(), m.clone()]), (2, 1));
    assert!(try_transform_jsx("é style", &vec![m]).is_none());
    assert_eq!(try_transform_jsx("<p>", &Vec::new()), Some(Ok("<p>".to_string())));
}

#[test]
fn class_names_match_css_rules_for_distinct_tags() {
    let source = "<div style={{ a: 1 }}><span style={{ b: 2 }}/></div>";
    let s1 = source.find("style").unwrap();
    let e1 = source.find("}}").unwrap() + 2;
    let s2 = s1 + 1 + source[s1 + 1..].find("style").unwrap();
    let e2 = s2 + source[s2..].find("}}").unwrap() + 2;
    let m1 = mapping_for(Some("div"), &vec![prop(Some("a"), Some("1"))], source, s1, e1).unwrap();
    let m2 = mapping_for(Some("span"), &vec![prop(Some("b"), Some("2"))], source, s2, e2).unwrap();
    let ms = vec![m1, m2];
    let out = transform_jsx(source, &ms).unwrap();
    assert_eq!(out, "<div className={classes.div1}><span className={classes.span1}/></div>");
    let css = generate_css(&ms).unwrap();
    assert!(css.contains(".div1 {\n  a: 1px;\n}"));
    assert!(css.contains(".span1 {\n  b: 2px;\n}"));
}

#[test]
fn import_follows_a_final_import_line() {
    let out = add_css_import("import React from 'react';", "App.tsx").unwrap();
    assert_eq!(out, "import React from 'react';\nimport classes from \"./App.module.css\";");
    let out = add_css_import("import a from 'a';\nimport b from 'b';\n", "x/Card.jsx").unwrap();
    assert_eq!(out, "import a from 'a';\nimport b from 'b';\nimport classes from \"./Card.module.css\";");
    assert!(out.contains("module.css"));
}

#[test]
fn file_names_follow_path_components() {
    assert_eq!(css_file_name("src/b.c.tsx").as_deref(), Some("b.c.module.css"));
    assert_eq!(css_file_name("src/.hidden").as_deref(), Some(".hidden.module.css"));
    assert_eq!(css_file_name("src/App/").as_deref(), Some("App.module.css"));
    assert_eq!(css_file_name("src/App/.").as_deref(), Some("App.module.css"));
    assert_eq!(css_file_name("src/.."), None);
    assert_eq!(css_file_name("/"), None);
    assert_eq!(css_file_name(""), None);
    assert_eq!(backup_file_name("a/b.").as_deref(), Some("b..bak"));
    assert_eq!(backup_file_name("a/Card").as_deref(), Some("Card.tsx.bak"));
    assert_eq!(backup_file_name("a/.env").as_deref(), Some(".env.tsx.bak"));
}
