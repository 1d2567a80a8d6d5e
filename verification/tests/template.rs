use ailly::template::{substitute, Context};
use ailly::template_value::{substitute_value, TomlValue};

fn ctx_of(pairs: &[(&str, &str)]) -> Context {
    let mut c = Context::new();
    for (k, v) in pairs {
        c.insert(k, v);
    }
    c
}

fn text(s: &str) -> TomlValue {
    TomlValue::Text(String::from(s))
}

fn get<'a>(v: &'a TomlValue, key: &str) -> &'a TomlValue {
    match v {
        TomlValue::Table(entries) => &entries.iter().find(|(k, _)| k == key).unwrap().1,
        other => panic!("not a table: {other:?}"),
    }
}

fn as_str(v: &TomlValue) -> &str {
    match v {
        TomlValue::Text(s) => s.as_str(),
        other => panic!("not a string: {other:?}"),
    }
}

#[test]
fn substitute_replaces_named_placeholders() {
    let ctx = ctx_of(&[("name", "x")]);
    let out = substitute("hi {{ name }}", &ctx).unwrap();
    assert_eq!(out, "hi x");
}

#[test]
fn substitute_trims_whitespace_inside_braces() {
    let ctx = ctx_of(&[("name", "x")]);
    assert_eq!(substitute("{{name}}", &ctx).unwrap(), "x");
    assert_eq!(substitute("{{ name }}", &ctx).unwrap(), "x");
    assert_eq!(substitute("{{  name  }}", &ctx).unwrap(), "x");
}

#[test]
fn substitute_returns_first_unresolved() {
    let ctx = ctx_of(&[("a", "1")]);
    let err = substitute("{{ a }} and {{ b }}", &ctx).unwrap_err();
    assert_eq!(err.placeholder, "b");
}

#[test]
fn substitute_passes_through_text_with_no_placeholders() {
    let ctx = Context::new();
    assert_eq!(substitute("plain text", &ctx).unwrap(), "plain text");
}

#[test]
fn substitute_does_not_rescan_output() {
    let ctx = ctx_of(&[("name", "{{ other }}")]);
    let out = substitute("{{ name }}", &ctx).unwrap();
    assert_eq!(out, "{{ other }}");
}

#[test]
fn substitute_keeps_an_unclosed_opening_and_the_last_character() {
    let ctx = ctx_of(&[("a", "1")]);
    assert_eq!(substitute("x {{ a", &ctx).unwrap(), "x {{ a");
    assert_eq!(substitute("{{a}}!", &ctx).unwrap(), "1!");
    assert_eq!(substitute("é", &ctx).unwrap(), "é");
}

#[test]
fn context_get_reads_back_the_last_insert() {
    let mut ctx = Context::new();
    assert_eq!(ctx.get("k"), None);
    ctx.insert("k", "v1");
    ctx.insert("other", "o");
    ctx.insert("k", "v2");
    assert_eq!(ctx.get("k"), Some("v2"));
    assert_eq!(ctx.get("other"), Some("o"));
}

#[test]
fn substitute_value_walks_nested_tables_and_arrays() {
    let ctx = ctx_of(&[("a", "X"), ("b", "Y")]);
    let mut value = TomlValue::Table(vec![
        (String::from("list"), TomlValue::Array(vec![text("{{ a }}"), text("{{ b }}"), text("literal")])),
        (String::from("nested"), TomlValue::Table(vec![(String::from("inside"), text("{{ a }}-{{ b }}"))])),
        (String::from("top"), text("leading {{ a }} trailing")),
    ]);

    substitute_value(&mut value, &ctx).unwrap();

    assert_eq!(as_str(get(&value, "top")), "leading X trailing");
    match get(&value, "list") {
        TomlValue::Array(list) => {
            assert_eq!(as_str(&list[0]), "X");
            assert_eq!(as_str(&list[1]), "Y");
            assert_eq!(as_str(&list[2]), "literal");
        }
        other => panic!("not an array: {other:?}"),
    }
    assert_eq!(as_str(get(get(&value, "nested"), "inside")), "X-Y");
}

#[test]
fn substitute_value_returns_first_unresolved_in_walk_order() {
    let ctx = ctx_of(&[("known", "K")]);
    let mut value = TomlValue::Table(vec![
        (String::from("inner"), text("{{ missing }}")),
        (String::from("outer"), text("{{ known }}")),
    ]);
    let err = substitute_value(&mut value, &ctx).unwrap_err();
    assert_eq!(err.placeholder, "missing");
}

#[test]
fn substitute_value_stops_at_the_first_unresolved_leaf() {
    let ctx = ctx_of(&[("a", "A")]);
    let mut value = TomlValue::Array(vec![text("{{ a }}"), text("{{ nope }}"), text("{{ a }}"), TomlValue::Integer(3)]);
    let err = substitute_value(&mut value, &ctx).unwrap_err();
    assert_eq!(err.placeholder, "nope");
    match &value {
        TomlValue::Array(items) => {
            assert_eq!(as_str(&items[0]), "A");
            assert_eq!(as_str(&items[1]), "{{ nope }}");
            assert_eq!(as_str(&items[2]), "{{ a }}");
            assert!(matches!(items[3], TomlValue::Integer(3)));
        }
        other => panic!("not an array: {other:?}"),
    }
}
