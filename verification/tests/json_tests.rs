use contrax_server::json::{JsonMap, JsonValue};
use contrax_server::json_text::to_json_text;
use contrax_server::pointer::pointer;

fn text(s: &str) -> JsonValue {
    JsonValue::Str(s.to_string())
}

fn num(n: &str) -> JsonValue {
    JsonValue::Number(n.to_string())
}

fn obj(pairs: Vec<(&str, JsonValue)>) -> JsonValue {
    let mut m = JsonMap::new();
    for (k, v) in pairs {
        m.insert(k.to_string(), v);
    }
    JsonValue::Object(m)
}

fn keys(m: &JsonMap) -> Vec<String> {
    m.entries().iter().map(|(k, _)| k.clone()).collect()
}

#[test]
fn map_keeps_keys_in_order() {
    let mut m = JsonMap::new();
    m.insert("zeta".to_string(), num("1"));
    m.insert("alpha".to_string(), num("2"));
    m.insert("Beta".to_string(), num("3"));
    m.insert("alpha".to_string(), num("4"));
    assert_eq!(keys(&m), vec!["Beta", "alpha", "zeta"]);
    assert_eq!(m.len(), 3);
    assert_eq!(m.get("alpha"), Some(&num("4")));
}

#[test]
fn map_orders_keys_by_characters_then_length() {
    let mut m = JsonMap::new();
    for k in ["ab", "a", "b", "é", "aa"] {
        m.insert(k.to_string(), JsonValue::Null);
    }
    assert_eq!(keys(&m), vec!["a", "aa", "ab", "b", "é"]);
}

#[test]
fn read_after_write_gives_what_was_written() {
    let mut m = JsonMap::new();
    m.insert("x".to_string(), text("one"));
    m.insert("y".to_string(), text("two"));
    m.insert("x".to_string(), text("three"));
    assert_eq!(m.get("x"), Some(&text("three")));
    assert_eq!(m.get("y"), Some(&text("two")));
    assert_eq!(m.get("z"), None);
}

#[test]
fn remove_then_read_is_absent() {
    let mut m = JsonMap::new();
    m.insert("x".to_string(), text("one"));
    m.insert("y".to_string(), text("two"));
    assert_eq!(m.remove("x"), Some(text("one")));
    assert_eq!(m.remove("x"), None);
    assert_eq!(m.get("x"), None);
    assert_eq!(m.get("y"), Some(&text("two")));
    assert_eq!(m.len(), 1);
}

#[test]
fn duplicate_is_equal() {
    let v = obj(vec![("a", JsonValue::Array(vec![num("1"), JsonValue::Bool(true)])), ("b", JsonValue::Null)]);
    assert_eq!(v.duplicate(), v);
}

#[test]
fn compact_text_of_scalars() {
    assert_eq!(to_json_text(&JsonValue::Null), "null");
    assert_eq!(to_json_text(&JsonValue::Bool(true)), "true");
    assert_eq!(to_json_text(&JsonValue::Bool(false)), "false");
    assert_eq!(to_json_text(&num("-12.5")), "-12.5");
    assert_eq!(to_json_text(&text("hi")), "\"hi\"");
}

#[test]
fn compact_text_escapes_strings() {
    let s = "q\"b\\n\nr\rt\tb\u{8}f\u{c}c\u{1}d\u{1f}/é\u{7f}";
    let expected = serde_json::to_string(&serde_json::Value::String(s.to_string())).unwrap();
    assert_eq!(to_json_text(&text(s)), expected);
    assert_eq!(to_json_text(&text("\u{1}")), "\"\\u0001\"");
    assert_eq!(to_json_text(&text("\u{1f}")), "\"\\u001f\"");
}

#[test]
fn compact_text_of_nested_document() {
    let v = obj(vec![
        ("b", JsonValue::Array(vec![num("1"), text("x"), JsonValue::Array(vec![])])),
        ("a", obj(vec![])),
        ("c", obj(vec![("k", JsonValue::Null)])),
    ]);
    assert_eq!(to_json_text(&v), "{\"a\":{},\"b\":[1,\"x\",[]],\"c\":{\"k\":null}}");
    let same: serde_json::Value = serde_json::from_str("{\"b\":[1,\"x\",[]],\"a\":{},\"c\":{\"k\":null}}").unwrap();
    assert_eq!(to_json_text(&v), serde_json::to_string(&same).unwrap());
}

#[test]
fn pointer_walks_objects_and_arrays() {
    let doc = obj(vec![
        ("users", JsonValue::Array(vec![obj(vec![("id", num("7"))]), obj(vec![("id", num("8"))])])),
        ("a/b", text("slash")),
        ("m~n", text("tilde")),
        ("", text("empty")),
    ]);
    assert_eq!(pointer(&doc, ""), Some(&doc));
    assert_eq!(pointer(&doc, "/users/1/id"), Some(&num("8")));
    assert_eq!(pointer(&doc, "/users/0"), Some(&obj(vec![("id", num("7"))])));
    assert_eq!(pointer(&doc, "/a~1b"), Some(&text("slash")));
    assert_eq!(pointer(&doc, "/m~0n"), Some(&text("tilde")));
    assert_eq!(pointer(&doc, "/"), Some(&text("empty")));
}

#[test]
fn pointer_rejects_bad_paths() {
    let doc = obj(vec![("list", JsonValue::Array(vec![num("1"), num("2")])), ("s", text("x"))]);
    assert_eq!(pointer(&doc, "list"), None);
    assert_eq!(pointer(&doc, "/list/2"), None);
    assert_eq!(pointer(&doc, "/list/01"), None);
    assert_eq!(pointer(&doc, "/list/+1"), None);
    assert_eq!(pointer(&doc, "/list/-1"), None);
    assert_eq!(pointer(&doc, "/list/"), None);
    assert_eq!(pointer(&doc, "/list/99999999999999999999999"), None);
    assert_eq!(pointer(&doc, "/s/0"), None);
    assert_eq!(pointer(&doc, "/missing"), None);
    assert_eq!(pointer(&doc, "/list/0"), Some(&num("1")));
}
