use contrax_server::errors::UserError;
use contrax_server::json::{JsonMap, JsonValue};
use contrax_server::manifest::RouteDefinition;
use contrax_server::users::{DynamicGetById, Input};
use contrax_server::validation::{PageNumber, UserId};
use contrax_server::workspace::{determine_route_path, route_method, route_path_of_file, route_verb, wasm_contract_name, DiscoveredRoute, RouteVerb};

#[test]
fn route_files_by_method() {
    assert_eq!(route_method("get", Some("json")), Some("GET".to_string()));
    assert_eq!(route_method("Patch", Some("json")), Some("PATCH".to_string()));
    assert_eq!(route_method("post", Some("yaml")), None);
    assert_eq!(route_method("readme", Some("json")), None);
    assert_eq!(route_method("get", None), None);
    assert_eq!(route_method("head", Some("json")), None);
}

#[test]
fn contract_modules_by_extension() {
    assert_eq!(wasm_contract_name(Some("auth"), Some("wasm")), Some("auth".to_string()));
    assert_eq!(wasm_contract_name(Some("auth"), Some("wat")), None);
    assert_eq!(wasm_contract_name(None, Some("wasm")), None);
    assert_eq!(wasm_contract_name(Some("auth"), None), None);
}

#[test]
fn route_paths() {
    assert_eq!(determine_route_path(""), "/");
    assert_eq!(determine_route_path("users/{value}"), "/users/{value}");
    assert_eq!(determine_route_path("users\\{value}\\posts"), "/users/{value}/posts");
}

#[test]
fn discovered_routes_carry_method_and_path() {
    let def = RouteDefinition {
        name: "user".to_string(),
        path: String::new(),
        method: String::new(),
        contracts: vec![],
        output: JsonMap::new(),
    };
    let r = DiscoveredRoute::new("GET".to_string(), "/users/{value}".to_string(), def);
    assert_eq!(r.method, "GET");
    assert_eq!(r.path, "/users/{value}");
    assert_eq!(r.definition.method, "GET");
    assert_eq!(r.definition.path, "/users/{value}");
    assert_eq!(r.definition.name, "user");
}

#[test]
fn user_input_rule() {
    let c = DynamicGetById;
    assert_eq!(c.validate_pure(&Input { user_id: "abc".to_string() }), Ok(()));
    assert_eq!(c.validate_pure(&Input { user_id: "ééééé".to_string() }), Ok(()));
    assert_eq!(c.validate_pure(&Input { user_id: "1234567".to_string() }), Ok(()));
    assert_eq!(c.validate_pure(&Input { user_id: "é".repeat(36) }), Ok(()));
    assert_eq!(
        c.validate_pure(&Input { user_id: String::new() }),
        Err("Validation failed: user_id: UserId must be between 1 and 36 characters".to_string())
    );
    assert_eq!(
        c.validate_pure(&Input { user_id: "1234567890123456789012345678901234567".to_string() }),
        Err("Validation failed: user_id: UserId must be between 1 and 36 characters".to_string())
    );
}

#[test]
fn user_record() {
    let c = DynamicGetById;
    assert_eq!(c.commit_pure(Input { user_id: "u9".to_string() }), Ok(JsonValue::Str("user_record_for_u9".to_string())));
}

#[test]
fn field_rules() {
    assert_eq!(PageNumber { value: 1 }.validate(), Ok(()));
    assert_eq!(PageNumber { value: 0 }.validate(), Err("value: Page number must be 1 or greater".to_string()));
    assert_eq!(UserId { value: "abcdefghijkl".to_string() }.validate(), Ok(()));
    assert_eq!(UserId { value: "abc".to_string() }.validate(), Err("value: Invalid user id length".to_string()));
}

#[test]
fn user_errors() {
    let e = UserError::NotFound { id: "7".to_string() };
    assert_eq!(e.code(), "USER_NOT_FOUND");
    assert_eq!(e.message(), "User record not found for ID: 7");
    let e = UserError::DatabaseFailure { reason: "dup".to_string() };
    assert_eq!(e.code(), "DATABASE_FAILURE");
    assert_eq!(e.message(), "Database constraint violation: dup");
    let e = UserError::EmailAlreadyExists { email: "a@b".to_string() };
    assert_eq!(e.code(), "EMAIL_ALREADY_EXISTS");
    assert_eq!(e.message(), "The email address 'a@b' is already registered");
}

#[test]
fn route_verbs() {
    assert_eq!(route_verb("GET"), RouteVerb::Get);
    assert_eq!(route_verb("POST"), RouteVerb::Post);
    assert_eq!(route_verb("PUT"), RouteVerb::Put);
    assert_eq!(route_verb("DELETE"), RouteVerb::Delete);
    assert_eq!(route_verb("PATCH"), RouteVerb::Patch);
    assert_eq!(route_verb("post"), RouteVerb::Get);
    assert_eq!(route_verb("HEAD"), RouteVerb::Get);
}

#[test]
fn route_paths_of_files() {
    assert_eq!(route_path_of_file("/ws/routes", "/ws/routes/users/{value}/get.json"), Some("/users/{value}".to_string()));
    assert_eq!(route_path_of_file("/ws/routes", "/ws/routes/get.json"), Some("/".to_string()));
    assert_eq!(route_path_of_file("/ws/routes", "/ws/other/get.json"), None);
    assert_eq!(route_path_of_file("/ws/routes", "/ws/routes2/get.json"), None);
}
