use contrax_server::json::{JsonMap, JsonValue};
use contrax_server::manifest::{ContractDefinition, StepBlockError};
use contrax_server::resolver::{interpolate_matches, interpolate_string_tokens, resolve_manifest_value, resolve_mappings};

fn text(s: &str) -> JsonValue {
    JsonValue::Str(s.to_string())
}

fn num(n: &str) -> JsonValue {
    JsonValue::Number(n.to_string())
}

fn map(pairs: Vec<(&str, JsonValue)>) -> JsonMap {
    let mut m = JsonMap::new();
    for (k, v) in pairs {
        m.insert(k.to_string(), v);
    }
    m
}

fn request() -> JsonValue {
    JsonValue::Object(map(vec![
        ("path", JsonValue::Object(map(vec![("value", text("42"))]))),
        ("query", JsonValue::Object(map(vec![("page", text("2"))]))),
        ("name", text("Bob")),
        ("age", num("30")),
    ]))
}

fn store() -> JsonMap {
    map(vec![
        ("user", JsonValue::Object(map(vec![("email", text("b@x.io")), ("tags", JsonValue::Array(vec![text("a")]))]))),
        ("flag", JsonValue::Bool(true)),
    ])
}

#[test]
fn literal_rules_stand_for_themselves() {
    let s = store();
    assert_eq!(resolve_manifest_value(&text("plain"), &request(), &s), text("plain"));
    assert_eq!(resolve_manifest_value(&num("5"), &request(), &s), num("5"));
    assert_eq!(resolve_manifest_value(&text("ctx(/name"), &request(), &s), text("ctx(/name"));
    assert_eq!(resolve_manifest_value(&text("CTX(/name)"), &request(), &s), text("CTX(/name)"));
}

#[test]
fn context_rules_read_the_request() {
    let s = store();
    assert_eq!(resolve_manifest_value(&text("ctx(/path/value)"), &request(), &s), text("42"));
    assert_eq!(resolve_manifest_value(&text("ctx(path/value)"), &request(), &s), text("42"));
    assert_eq!(resolve_manifest_value(&text("ctx(query/page)"), &request(), &s), text("2"));
    assert_eq!(resolve_manifest_value(&text("ctx(/nothing)"), &request(), &s), JsonValue::Null);
    assert_eq!(resolve_manifest_value(&text("ctx()"), &request(), &s), JsonValue::Null);
}

#[test]
fn context_rules_read_the_store() {
    let s = store();
    assert_eq!(resolve_manifest_value(&text("ctx(/store/user/email)"), &request(), &s), text("b@x.io"));
    assert_eq!(resolve_manifest_value(&text("ctx(store/user/tags/0)"), &request(), &s), text("a"));
    assert_eq!(resolve_manifest_value(&text("ctx(/store/flag)"), &request(), &s), JsonValue::Bool(true));
    assert_eq!(resolve_manifest_value(&text("ctx(/store/missing)"), &request(), &s), JsonValue::Null);
    // Without the trailing slash the pointer goes to the request document.
    assert_eq!(resolve_manifest_value(&text("ctx(/store)"), &request(), &s), JsonValue::Null);
}

#[test]
fn stored_value_is_read_back() {
    let mut s = store();
    s.insert("result".to_string(), num("99"));
    assert_eq!(resolve_manifest_value(&text("ctx(/store/result)"), &request(), &s), num("99"));
}

#[test]
fn mappings_resolve_every_rule() {
    let rules = map(vec![("id", text("ctx(/path/value)")), ("fixed", num("1")), ("who", text("ctx(/store/user/email)"))]);
    let out = resolve_mappings(&rules, &request(), &store());
    assert_eq!(out, map(vec![("fixed", num("1")), ("id", text("42")), ("who", text("b@x.io"))]));
}

#[test]
fn templates_are_filled_in() {
    let s = store();
    let r = interpolate_string_tokens("Hello {{ ctx(/name) }}, age {{ctx(age)}}!", &request(), &s);
    assert_eq!(r, "Hello Bob, age 30!");
    let r = interpolate_string_tokens("[{{ ctx(/missing) }}]", &request(), &s);
    assert_eq!(r, "[]");
    let r = interpolate_string_tokens("{{ ctx(/store/user) }}", &request(), &s);
    assert_eq!(r, "{\"email\":\"b@x.io\",\"tags\":[\"a\"]}");
    let r = interpolate_string_tokens("no tokens {{ ctx() }}", &request(), &s);
    assert_eq!(r, "no tokens {{ ctx() }}");
    let r = interpolate_string_tokens("{{ctx(/name)}}{{ctx(/name)}}", &request(), &s);
    assert_eq!(r, "BobBob");
    let r = interpolate_string_tokens("{{\u{3000}ctx(/name)\u{a0}}}", &request(), &s);
    assert_eq!(r, "Bob");
}

#[test]
fn templates_without_tokens_are_unchanged() {
    let s = store();
    for t in ["", "plain text", "{{ ctx(/name }}", "{ ctx(/name) }", "{{ ctx() }}", "{{ x ctx(/name) }}"] {
        assert_eq!(interpolate_string_tokens(t, &request(), &s), t);
    }
}

#[test]
fn matches_are_applied_in_turn() {
    let s = store();
    let matches = vec![
        ("<a>".to_string(), Some("/name".to_string())),
        ("<b>".to_string(), None),
        ("<c>".to_string(), Some("/age".to_string())),
    ];
    let r = interpolate_matches("<a> <b> <c> <a>", &matches, &request(), &s);
    assert_eq!(r, "Bob <b> 30 Bob");
}

#[test]
fn step_block_with_inner_arrow() {
    let raw = map(vec![(
        "GET",
        JsonValue::Object(map(vec![("url", text("ctx(/u)")), ("->", JsonValue::Object(map(vec![("s", text("out(/status)"))])))])),
    )]);
    let d = ContractDefinition::from_step_block(raw).unwrap();
    assert_eq!(d.id, "GET");
    assert_eq!(d.inputs, map(vec![("url", text("ctx(/u)"))]));
    assert_eq!(d.set_store_mappings, Some(map(vec![("s", text("out(/status)"))])));
}

#[test]
fn step_block_with_sibling_arrow() {
    let raw = map(vec![
        ("->", JsonValue::Object(map(vec![("a", text("out(x)"))]))),
        ("POST", JsonValue::Object(map(vec![("url", text("u")), ("->", JsonValue::Object(map(vec![("b", text("out(y)"))])))]))),
    ]);
    let d = ContractDefinition::from_step_block(raw).unwrap();
    assert_eq!(d.id, "POST");
    assert_eq!(d.set_store_mappings, Some(map(vec![("a", text("out(x)"))])));
    // The inner arrow stays among the inputs.
    assert_eq!(d.inputs, map(vec![("->", JsonValue::Object(map(vec![("b", text("out(y)"))]))), ("url", text("u"))]));
}

#[test]
fn step_block_arrow_that_is_no_object() {
    let raw = map(vec![
        ("->", text("ignored")),
        ("GET", JsonValue::Object(map(vec![("->", num("3")), ("url", text("u"))]))),
    ]);
    let d = ContractDefinition::from_step_block(raw).unwrap();
    assert_eq!(d.set_store_mappings, None);
    assert_eq!(d.inputs, map(vec![("url", text("u"))]));
}

#[test]
fn step_block_takes_first_key() {
    let raw = map(vec![("zzz", JsonValue::Object(JsonMap::new())), ("AAA", JsonValue::Object(JsonMap::new()))]);
    let d = ContractDefinition::from_step_block(raw).unwrap();
    assert_eq!(d.id, "AAA");
}

#[test]
fn step_block_errors() {
    let e = ContractDefinition::from_step_block(JsonMap::new()).unwrap_err();
    assert_eq!(e, StepBlockError::MissingContract);
    assert_eq!(e.message(), "Pipeline step layout must declare a target contract invocation.");
    let only_arrow = map(vec![("->", JsonValue::Object(JsonMap::new()))]);
    assert_eq!(ContractDefinition::from_step_block(only_arrow).unwrap_err(), StepBlockError::MissingContract);
    let e = ContractDefinition::from_step_block(map(vec![("GET", text("x"))])).unwrap_err();
    assert_eq!(e, StepBlockError::PayloadNotObject { id: "GET".to_string() });
    assert_eq!(e.message(), "Expected object configuration payload for contract key 'GET'");
}
