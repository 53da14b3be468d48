use contrax_server::fetch::{ExplicitFetchParams, FetchContract, FetchInput, FetchOptions, FetchOutput, HttpVerb, JsonFormatWrapper, JsonPayload};
use contrax_server::json::{JsonMap, JsonValue};
use contrax_server::json_text::to_json_text;
use contrax_server::manifest::ContractDefinition;
use contrax_server::manifest_wrapper::{
    apply_store_mappings, resolve_nested_store_value, wrapper_next, wrapper_start, ManifestContractWrapper, WrapperAction,
    WrapperStage,
};
use contrax_server::routing::{
    build_contract_from_definition, pipeline_next, pipeline_start, request_document, request_document_from_body,
    route_response, BuiltContract,
    PipelineAction, RouteResponse,
};
use contrax_server::wasm::{c_string_at, read_reply, WasmContractRunner};

fn text(s: &str) -> JsonValue {
    JsonValue::Str(s.to_string())
}

fn num(n: &str) -> JsonValue {
    JsonValue::Number(n.to_string())
}

fn map(pairs: Vec<(&str, JsonValue)>) -> JsonMap {
    let mut m = JsonMap::new();
    for (k, v) in pairs {
        m.insert(k.to_string(), v);
    }
    m
}

fn output() -> JsonValue {
    JsonValue::Object(map(vec![
        ("status", num("200")),
        ("body", JsonValue::Object(map(vec![("id", num("5")), ("items", JsonValue::Array(vec![text("p"), text("q")]))]))),
    ]))
}

#[test]
fn store_values_follow_output_pointers() {
    let out = output();
    assert_eq!(resolve_nested_store_value(&text("out(/status)"), &out), Ok(num("200")));
    assert_eq!(resolve_nested_store_value(&text("out(body/items/1)"), &out), Ok(text("q")));
    assert_eq!(resolve_nested_store_value(&text("literal"), &out), Ok(text("literal")));
    assert_eq!(resolve_nested_store_value(&JsonValue::Bool(false), &out), Ok(JsonValue::Bool(false)));
    let rule = JsonValue::Object(map(vec![
        ("code", text("out(/status)")),
        ("list", JsonValue::Array(vec![text("out(/body/id)"), num("1")])),
    ]));
    assert_eq!(
        resolve_nested_store_value(&rule, &out),
        Ok(JsonValue::Object(map(vec![("code", num("200")), ("list", JsonValue::Array(vec![num("5"), num("1")]))])))
    );
}

#[test]
fn missing_output_pointer_is_an_error() {
    let out = output();
    assert_eq!(
        resolve_nested_store_value(&text("out(nope)"), &out),
        Err("Pointer resolution fault: path '/nope' not found within contract output schema.".to_string())
    );
    let rule = JsonValue::Array(vec![text("out(/a)"), text("out(/b)")]);
    assert_eq!(
        resolve_nested_store_value(&rule, &out),
        Err("Pointer resolution fault: path '/a' not found within contract output schema.".to_string())
    );
}

#[test]
fn mappings_before_a_failure_stay_applied() {
    let out = output();
    let mappings = map(vec![("a", text("out(/status)")), ("b", text("out(/missing)")), ("c", text("out(/body/id)"))]);
    let mut store = map(vec![("old", num("1"))]);
    let r = apply_store_mappings(&mappings, &out, &mut store);
    assert_eq!(r, Err("Pointer resolution fault: path '/missing' not found within contract output schema.".to_string()));
    assert_eq!(store, map(vec![("a", num("200")), ("old", num("1"))]));
}

#[test]
fn mapped_keys_hold_their_values() {
    let out = output();
    let mappings = map(vec![("a", text("out(/status)")), ("c", text("out(/body/id)"))]);
    let mut store = map(vec![("a", num("0"))]);
    assert_eq!(apply_store_mappings(&mappings, &out, &mut store), Ok(()));
    assert_eq!(store.get("a"), Some(&num("200")));
    assert_eq!(store.get("c"), Some(&num("5")));
}

#[test]
fn wrapper_builds_input_and_stores_output() {
    let w = ManifestContractWrapper {
        inner_contract: FetchContract::new("GET"),
        input_mappings: map(vec![("url", text("ctx(/target)"))]),
        set_store_mappings: Some(map(vec![("code", text("out(/status)"))])),
    };
    let req = JsonValue::Object(map(vec![("target", text("https://example.com"))]));
    let mut store = JsonMap::new();
    assert_eq!(w.input_document(&req, &store), JsonValue::Object(map(vec![("url", text("https://example.com"))])));
    assert_eq!(w.store_output(&output(), &mut store), Ok(()));
    assert_eq!(store, map(vec![("code", num("200"))]));
    let plain = ManifestContractWrapper { inner_contract: (), input_mappings: JsonMap::new(), set_store_mappings: None };
    let mut store2 = map(vec![("k", num("1"))]);
    assert_eq!(plain.store_output(&output(), &mut store2), Ok(()));
    assert_eq!(store2, map(vec![("k", num("1"))]));
}

#[test]
fn wasm_step_text_and_reply() {
    let runner = WasmContractRunner {
        input_mappings: map(vec![("user", text("ctx(/path/value)")), ("n", num("3"))]),
        set_store_mappings: Some(map(vec![
            ("flag", text("out(success)")),
            ("gone", text("out(absent)")),
            ("lit", text("plain")),
            ("num", num("7")),
            ("obj", JsonValue::Object(map(vec![("msg", text("out(message)")), ("x", num("1")), ("y", text("z"))]))),
        ])),
    };
    let req = JsonValue::Object(map(vec![("path", JsonValue::Object(map(vec![("value", text("u1"))])))]));
    let store = JsonMap::new();
    assert_eq!(runner.input_text(&req, &store), "{\"n\":3,\"user\":\"u1\"}");
    let reply = JsonValue::Object(map(vec![("success", JsonValue::Bool(true)), ("message", text("ok"))]));
    let mut store = map(vec![("keep", num("0"))]);
    runner.store_reply(&reply, &mut store);
    assert_eq!(
        store,
        map(vec![
            ("flag", JsonValue::Bool(true)),
            ("gone", JsonValue::Null),
            ("keep", num("0")),
            ("lit", text("plain")),
            ("num", num("7")),
            ("obj", JsonValue::Object(map(vec![("msg", text("ok")), ("x", num("1")), ("y", text("z"))]))),
        ])
    );
}

#[test]
fn wasm_reply_that_is_no_object() {
    let runner = WasmContractRunner { input_mappings: JsonMap::new(), set_store_mappings: Some(map(vec![("a", text("out(x)"))])) };
    let mut store = JsonMap::new();
    runner.store_reply(&JsonValue::Array(vec![num("1")]), &mut store);
    assert_eq!(store, map(vec![("a", JsonValue::Null)]));
}

#[test]
fn c_strings_are_read_within_bounds() {
    let mem = [b'x', b'h', b'i', 0, b'y'];
    assert_eq!(c_string_at(&mem, 1), Some(b"hi".to_vec()));
    assert_eq!(c_string_at(&mem, 3), Some(Vec::new()));
    assert_eq!(c_string_at(&mem, 4), None);
    assert_eq!(c_string_at(&mem, 9), None);
}

#[test]
fn replies_are_read_as_utf8_text() {
    let mem = [b'{', b'}', 0, 0xC3, 0xBC, 0, 0xFF, 0, b'z'];
    assert_eq!(read_reply(&mem, 0), Ok("{}".to_string()));
    assert_eq!(read_reply(&mem, 3), Ok("ü".to_string()));
    assert_eq!(
        read_reply(&mem, 6),
        Err("WASM output failed string validation: Invalid UTF-8 sequence encountered.".to_string())
    );
    assert_eq!(read_reply(&mem, 8), Err("WASM output is no NUL-terminated string inside linear memory.".to_string()));
}

#[test]
fn store_mappings_keep_their_shape() {
    let rule = JsonValue::Object(map(vec![
        ("b", text("out(/status)")),
        ("a", JsonValue::Array(vec![text("out(/body/id)"), text("plain")])),
    ]));
    let got = resolve_nested_store_value(&rule, &output()).unwrap();
    assert_eq!(
        got,
        JsonValue::Object(map(vec![("a", JsonValue::Array(vec![num("5"), text("plain")])), ("b", num("200"))]))
    );
    let plain = JsonValue::Object(map(vec![
        ("x", JsonValue::Array(vec![text("out(unclosed"), num("1"), JsonValue::Null])),
        ("y", JsonValue::Object(map(vec![("z", text("ctx(/a)"))]))),
    ]));
    assert_eq!(resolve_nested_store_value(&plain, &output()).unwrap(), plain);
}

fn shorthand(url: &str) -> FetchInput {
    FetchInput::Nested(JsonFormatWrapper { json: JsonPayload::Shorthand(url.to_string()) })
}

#[test]
fn fetch_validation() {
    let c = FetchContract::new("get");
    assert_eq!(c.validate(&shorthand("https://jsonplaceholder.typicode.com/posts")), Ok(()));
    assert_eq!(c.validate(&shorthand("not a url")), Err("Invalid destination URL target: 'not a url'".to_string()));
    let empty = FetchInput::Nested(JsonFormatWrapper { json: JsonPayload::Complex(vec![]) });
    assert_eq!(c.validate(&empty), Err("Fetch execution block missing nested target URL key.".to_string()));
    let explicit = FetchInput::Explicit(ExplicitFetchParams { url: "http://localhost:8080/x".to_string(), headers: None, body: None });
    assert_eq!(c.validate(&explicit), Ok(()));
    let complex = FetchInput::Nested(JsonFormatWrapper {
        json: JsonPayload::Complex(vec![("/relative".to_string(), FetchOptions { headers: None, body: None })]),
    });
    assert_eq!(c.validate(&complex), Err("Invalid destination URL target: '/relative'".to_string()));
}

#[test]
fn fetch_requests() {
    let post = FetchContract::new("post");
    let p = post.request_plan(shorthand("https://a.example/x")).unwrap();
    assert_eq!(p.verb, HttpVerb::Post);
    assert_eq!(p.url, "https://a.example/x");
    assert_eq!(p.headers, None);
    assert_eq!(p.json_body, Some(JsonValue::Null));

    let post_again = FetchContract::new("POST");
    assert_eq!(post_again.request_plan(shorthand("https://a.example/x")).unwrap().verb, HttpVerb::Post);

    let put = FetchContract::new("Put");
    let input = FetchInput::Nested(JsonFormatWrapper {
        json: JsonPayload::Complex(vec![(
            "https://b.example".to_string(),
            FetchOptions { headers: Some(vec![("X-A".to_string(), "1".to_string())]), body: Some(num("4")) },
        )]),
    });
    let p = put.request_plan(input).unwrap();
    assert_eq!(p.verb, HttpVerb::Put);
    assert_eq!(p.url, "https://b.example");
    assert_eq!(p.headers, Some(vec![("X-A".to_string(), "1".to_string())]));
    assert_eq!(p.json_body, Some(num("4")));

    let del = FetchContract::new("DELETE");
    let explicit = FetchInput::Explicit(ExplicitFetchParams { url: "https://c.example".to_string(), headers: None, body: Some(num("1")) });
    let p = del.request_plan(explicit).unwrap();
    assert_eq!(p.verb, HttpVerb::Delete);
    assert_eq!(p.json_body, None);

    let get = FetchContract::new("PATCH");
    let p = get.request_plan(shorthand("https://d.example")).unwrap();
    assert_eq!(p.verb, HttpVerb::Get);

    let empty = FetchInput::Nested(JsonFormatWrapper { json: JsonPayload::Complex(vec![]) });
    assert_eq!(get.request_plan(empty).unwrap_err(), "Fetch execution block missing configuration target payload.");
}

#[test]
fn fetch_output_document() {
    let out = FetchOutput { status: 404, body: JsonValue::Null };
    assert_eq!(to_json_text(&out.to_json()), "{\"body\":null,\"status\":404}");
}

fn def(id: &str) -> ContractDefinition {
    ContractDefinition { id: id.to_string(), inputs: map(vec![("url", text("x"))]), set_store_mappings: Some(map(vec![("s", text("out(/a)"))])) }
}

#[test]
fn steps_are_built_by_id() {
    let names = vec!["auth".to_string()];
    match build_contract_from_definition(&def("auth"), &names) {
        Ok(BuiltContract::Wasm(w)) => {
            assert_eq!(w.input_mappings, map(vec![("url", text("x"))]));
            assert_eq!(w.set_store_mappings, Some(map(vec![("s", text("out(/a)"))])));
        },
        _ => panic!("expected a wasm step"),
    }
    match build_contract_from_definition(&def("POST"), &names) {
        Ok(BuiltContract::Fetch(f)) => {
            assert_eq!(f.input_mappings, map(vec![("url", text("x"))]));
            let plan = f.inner_contract.request_plan(shorthand("https://e.example")).unwrap();
            assert_eq!(plan.verb, HttpVerb::Post);
        },
        _ => panic!("expected a fetch step"),
    }
    match build_contract_from_definition(&def("users::get_by_id"), &names) {
        Err(e) => assert_eq!(
            e,
            "Initialization Error: Spec definition module 'users::get_by_id' is not registered in this runtime host environment."
        ),
        _ => panic!("expected an error"),
    }
    let shadow = vec!["GET".to_string()];
    assert!(matches!(build_contract_from_definition(&def("GET"), &shadow), Ok(BuiltContract::Wasm(_))));
    assert!(build_contract_from_definition(&def("get"), &vec![]).is_err());
}

#[test]
fn pipeline_stops_at_first_failure() {
    assert_eq!(pipeline_start(0), PipelineAction::Done);
    assert_eq!(pipeline_start(3), PipelineAction::Run(0));
    assert_eq!(pipeline_next(3, 0, Ok(())), PipelineAction::Run(1));
    assert_eq!(pipeline_next(3, 2, Ok(())), PipelineAction::Done);
    assert_eq!(
        pipeline_next(3, 1, Err("boom".to_string())),
        PipelineAction::Fail("Pipeline interrupted at step 1: boom".to_string())
    );
    assert_eq!(
        pipeline_next(20, 12, Err("x".to_string())),
        PipelineAction::Fail("Pipeline interrupted at step 12: x".to_string())
    );
}

#[test]
fn pipeline_trace() {
    let results: Vec<Result<(), String>> = vec![Ok(()), Ok(()), Err("bad".to_string()), Ok(())];
    let mut ran = Vec::new();
    let mut action = pipeline_start(results.len());
    let outcome = loop {
        match action {
            PipelineAction::Run(i) => {
                ran.push(i);
                action = pipeline_next(results.len(), i, results[i].clone());
            },
            PipelineAction::Done => break Ok(()),
            PipelineAction::Fail(m) => break Err(m),
        }
    };
    assert_eq!(ran, vec![0, 1, 2]);
    assert_eq!(outcome, Err("Pipeline interrupted at step 2: bad".to_string()));
}

#[test]
fn request_document_layout() {
    let body = Some(JsonValue::Object(map(vec![("a", num("1")), ("path", text("overwritten"))])));
    let path = vec![("value".to_string(), "42".to_string())];
    let doc = request_document(body, &path, "page=1&name=J%C3%BCrgen+x&page=2");
    assert_eq!(
        doc,
        JsonValue::Object(map(vec![
            ("a", num("1")),
            ("path", JsonValue::Object(map(vec![("value", text("42"))]))),
            ("query", JsonValue::Object(map(vec![("name", text("Jürgen x")), ("page", text("2"))]))),
        ]))
    );
    let doc = request_document(Some(text("not an object")), &vec![], "");
    assert_eq!(
        doc,
        JsonValue::Object(map(vec![("path", JsonValue::Object(JsonMap::new())), ("query", JsonValue::Object(JsonMap::new()))]))
    );
    let doc = request_document(None, &vec![], "");
    assert_eq!(
        doc,
        JsonValue::Object(map(vec![("path", JsonValue::Object(JsonMap::new())), ("query", JsonValue::Object(JsonMap::new()))]))
    );
}

#[test]
fn route_responses() {
    let req = JsonValue::Object(map(vec![("name", text("n"))]));
    let store = map(vec![("res", num("9"))]);
    let output = map(vec![("who", text("ctx(/name)")), ("result", text("ctx(/store/res)")), ("v", num("1"))]);
    match route_response(Ok(()), &output, &req, &store) {
        RouteResponse::Success(v) => {
            assert_eq!(to_json_text(&v), "{\"result\":9,\"v\":1,\"who\":\"n\"}")
        },
        _ => panic!("expected success"),
    }
    match route_response(Err("Pipeline interrupted at step 0: x".to_string()), &output, &req, &store) {
        RouteResponse::Fault(t) => assert_eq!(t, "Pipeline Fault: Pipeline interrupted at step 0: x"),
        _ => panic!("expected a fault"),
    }
}

#[test]
fn native_step_stages() {
    assert_eq!(wrapper_start(), WrapperAction::Convert);
    assert_eq!(
        wrapper_next(WrapperStage::Convert, true, Err("missing field `url`".to_string())),
        WrapperAction::Fail("Input argument structural mismatch: missing field `url`".to_string())
    );
    assert_eq!(wrapper_next(WrapperStage::Convert, true, Ok(())), WrapperAction::Validate);
    assert_eq!(wrapper_next(WrapperStage::Validate, true, Err("bad".to_string())), WrapperAction::Fail("bad".to_string()));
    assert_eq!(wrapper_next(WrapperStage::Validate, false, Ok(())), WrapperAction::Commit);
    assert_eq!(wrapper_next(WrapperStage::Commit, true, Ok(())), WrapperAction::Store);
    assert_eq!(wrapper_next(WrapperStage::Commit, false, Ok(())), WrapperAction::Done);
    assert_eq!(wrapper_next(WrapperStage::Commit, true, Err("net".to_string())), WrapperAction::Fail("net".to_string()));
    assert_eq!(wrapper_next(WrapperStage::Store, true, Ok(())), WrapperAction::Done);
    assert_eq!(wrapper_next(WrapperStage::Store, true, Err("s".to_string())), WrapperAction::Fail("s".to_string()));
}

#[test]
fn request_document_from_raw_body() {
    let path = vec![("value".to_string(), "7".to_string())];
    let doc = request_document_from_body(br#"{"b": [1, 2.5], "a": {"y": true, "x": null}}"#, &path, "");
    assert_eq!(
        doc,
        JsonValue::Object(map(vec![
            ("a", JsonValue::Object(map(vec![("x", JsonValue::Null), ("y", JsonValue::Bool(true))]))),
            ("b", JsonValue::Array(vec![num("1"), num("2.5")])),
            ("path", JsonValue::Object(map(vec![("value", text("7"))]))),
            ("query", JsonValue::Object(JsonMap::new())),
        ]))
    );
    let doc = request_document_from_body(b"not json", &vec![], "q=1");
    assert_eq!(
        doc,
        JsonValue::Object(map(vec![
            ("path", JsonValue::Object(JsonMap::new())),
            ("query", JsonValue::Object(map(vec![("q", text("1"))]))),
        ]))
    );
    let doc = request_document_from_body(b"[1]", &vec![], "");
    assert_eq!(
        doc,
        JsonValue::Object(map(vec![("path", JsonValue::Object(JsonMap::new())), ("query", JsonValue::Object(JsonMap::new()))]))
    );
}

#[test]
fn wasm_replies_are_parsed_then_stored() {
    let runner = WasmContractRunner {
        input_mappings: JsonMap::new(),
        set_store_mappings: Some(map(vec![("ok", text("out(success)"))])),
    };
    let mut store = map(vec![("k", num("1"))]);
    assert_eq!(runner.take_reply("{\"success\": true}", &mut store), Ok(()));
    assert_eq!(store, map(vec![("k", num("1")), ("ok", JsonValue::Bool(true))]));
    let err = runner.take_reply("not json", &mut store).unwrap_err();
    assert!(err.starts_with("WASM Pipeline output extraction failed serialization: "));
    assert_eq!(err, format!("WASM Pipeline output extraction failed serialization: {}", serde_json::from_str::<serde_json::Value>("not json").unwrap_err()));
    assert_eq!(store, map(vec![("k", num("1")), ("ok", JsonValue::Bool(true))]));
    let silent = WasmContractRunner { input_mappings: JsonMap::new(), set_store_mappings: None };
    assert_eq!(silent.take_reply("[]", &mut store), Ok(()));
    assert!(silent.take_reply("{", &mut store).is_err());
}
