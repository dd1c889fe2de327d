use api_debugger::db::database_file;
use api_debugger::diff::diff_json;
use api_debugger::errors::{AppError, ErrorBody};
use api_debugger::headers::headers_json;
use api_debugger::json::{JsonNumber, JsonValue};
use api_debugger::models::RequestLog;
use api_debugger::replay::{
    compute_diff, hop_header, plan_replay, replay_headers, replay_method, replay_url, replayed_response_log,
};
use api_debugger::text::{i64_to_decimal, index_path, join_path, u64_to_decimal};

fn text(s: &str) -> JsonValue {
    JsonValue::String(s.to_string())
}

fn obj(members: Vec<(&str, JsonValue)>) -> JsonValue {
    JsonValue::Object(members.into_iter().map(|(k, v)| (k.to_string(), v)).collect())
}

#[test]
fn decimal_formatting() {
    assert_eq!(u64_to_decimal(0), "0");
    assert_eq!(u64_to_decimal(42), "42");
    assert_eq!(u64_to_decimal(u64::MAX), u64::MAX.to_string());
    assert_eq!(i64_to_decimal(-7), "-7");
    assert_eq!(i64_to_decimal(i64::MIN), i64::MIN.to_string());
    assert_eq!(i64_to_decimal(1200), "1200");
}

#[test]
fn paths_are_joined() {
    assert_eq!(join_path("", "user"), "user");
    assert_eq!(join_path("user", "name"), "user.name");
    assert_eq!(index_path("", 3), "[3]");
    assert_eq!(index_path("items", 12), "items[12]");
}

#[test]
fn error_status_codes() {
    assert_eq!(AppError::Db("x".to_string()).status_code(), 500);
    assert_eq!(AppError::NotFound(3).status_code(), 404);
    assert_eq!(AppError::ReplayFailed("x".to_string()).status_code(), 502);
    assert_eq!(AppError::BadRequest("x".to_string()).status_code(), 400);
}

#[test]
fn error_messages() {
    assert_eq!(AppError::NotFound(42).message(), "Request 42 not found");
    assert_eq!(AppError::Db("locked".to_string()).message(), "Database error: locked");
    assert_eq!(AppError::ReplayFailed("timeout".to_string()).message(), "Replay failed: timeout");
    assert_eq!(AppError::BadRequest("page".to_string()).message(), "Bad request: page");
}

#[test]
fn error_response_is_json() {
    let reply = AppError::NotFound(9).error_response();
    assert_eq!(reply.status, 404);
    assert_eq!(reply.body, "{\"error\":\"Request 9 not found\"}");
    let reply = AppError::BadRequest("say \"hi\"\n\\".to_string()).error_response();
    assert_eq!(reply.status, 400);
    assert_eq!(reply.body, "{\"error\":\"Bad request: say \\\"hi\\\"\\n\\\\\"}");
    let reply = AppError::Db("\u{1}".to_string()).error_response();
    assert_eq!(reply.body, "{\"error\":\"Database error: \\u0001\"}");
}

#[test]
fn db_error_body() {
    let body = ErrorBody::new("disk full");
    assert_eq!(body.error, "DB error: disk full");
    assert_eq!(body.to_json(), "{\"error\":\"DB error: disk full\"}");
}

#[test]
fn headers_are_sorted_and_last_value_wins() {
    let pairs = vec![
        ("user-agent".to_string(), Some("curl".to_string())),
        ("accept".to_string(), Some("*/*".to_string())),
        ("x-tag".to_string(), Some("one".to_string())),
        ("x-bin".to_string(), None),
        ("x-tag".to_string(), Some("two".to_string())),
    ];
    assert_eq!(
        headers_json(&pairs),
        "{\"accept\":\"*/*\",\"user-agent\":\"curl\",\"x-bin\":\"\",\"x-tag\":\"two\"}"
    );
}

#[test]
fn header_names_order_by_character_and_are_escaped() {
    let pairs = vec![
        ("\u{e9}t\u{e9}".to_string(), Some("a\"b".to_string())),
        ("zeta".to_string(), Some("1".to_string())),
        ("Zeta".to_string(), Some("2".to_string())),
    ];
    assert_eq!(
        headers_json(&pairs),
        "{\"Zeta\":\"2\",\"zeta\":\"1\",\"\u{e9}t\u{e9}\":\"a\\\"b\"}"
    );
}

#[test]
fn no_headers_give_empty_object() {
    assert_eq!(headers_json(&Vec::new()), "{}");
}

#[test]
fn replay_method_falls_back_to_get() {
    assert_eq!(replay_method("POST"), "POST");
    assert_eq!(replay_method("PATCH"), "PATCH");
    assert_eq!(replay_method("CUSTOM-VERB"), "CUSTOM-VERB");
    assert_eq!(replay_method(""), "GET");
    assert_eq!(replay_method("GE T"), "GET");
    assert_eq!(replay_method("GÉT"), "GET");
}

#[test]
fn replay_url_targets_the_local_server() {
    assert_eq!(replay_url("/api/users?x=1"), "http://127.0.0.1:8080/api/users?x=1");
}

#[test]
fn hop_headers() {
    assert!(hop_header(&"host".to_string()));
    assert!(hop_header(&"content-length".to_string()));
    assert!(hop_header(&"transfer-encoding".to_string()));
    assert!(!hop_header(&"accept".to_string()));
    assert!(!hop_header(&"Host".to_string()));
}

#[test]
fn replay_headers_skip_hop_and_non_string_values() {
    let recorded = obj(vec![
        ("Accept", text("*/*")),
        ("Content-Length", text("12")),
        ("HOST", text("example")),
        ("Transfer-Encoding", text("chunked")),
        ("x-count", JsonValue::Number(JsonNumber::PosInt(3))),
        ("x-trace", text("abc")),
    ]);
    let headers = replay_headers(Some(&recorded));
    assert_eq!(
        headers,
        vec![("Accept".to_string(), "*/*".to_string()), ("x-trace".to_string(), "abc".to_string())]
    );
    assert!(replay_headers(None).is_empty());
    assert!(replay_headers(Some(&text("not an object"))).is_empty());
}

#[test]
fn replay_plan_rebuilds_the_request() {
    let stored = RequestLog {
        id: 4,
        method: "DELETE".to_string(),
        path: "/items/4".to_string(),
        headers: Some("{\"accept\":\"*/*\"}".to_string()),
        body: Some("payload".to_string()),
        created_at: "2024-01-01 00:00:00".to_string(),
    };
    let recorded = obj(vec![("accept", text("*/*")), ("host", text("h"))]);
    let plan = plan_replay(&stored, Some(&recorded));
    assert_eq!(plan.url, "http://127.0.0.1:8080/items/4");
    assert_eq!(plan.method, "DELETE");
    assert_eq!(plan.headers, vec![("accept".to_string(), "*/*".to_string())]);
    assert_eq!(plan.body, Some("payload".to_string()));
}

#[test]
fn compute_diff_needs_both_bodies() {
    let a = obj(vec![("k", text("v"))]);
    let b = obj(vec![("k", text("w"))]);
    assert!(compute_diff(None, Some(&b)).is_none());
    assert!(compute_diff(Some(&a), None).is_none());
    assert!(compute_diff(None, None).is_none());
    let d = compute_diff(Some(&a), Some(&b)).unwrap();
    assert!(!d.identical);
    assert_eq!(d.changed[0].path, "k");
    assert_eq!(d.changed.len(), diff_json(&a, &b).changed.len());
}

#[test]
fn compute_diff_of_equal_bodies_is_identical() {
    let a = obj(vec![("k", text("v")), ("m", text("n"))]);
    let b = obj(vec![("m", text("n")), ("k", text("v"))]);
    let d = compute_diff(Some(&a), Some(&b)).unwrap();
    assert!(d.identical);
    assert!(d.added.is_empty() && d.removed.is_empty() && d.changed.is_empty());
}

#[test]
fn replayed_response_record() {
    let log = replayed_response_log(17, 201, "ok".to_string(), "2024-05-06 07:08:09".to_string());
    assert_eq!(log.id, 17);
    assert_eq!(log.request_id, 17);
    assert_eq!(log.status, 201);
    assert_eq!(log.body, Some("ok".to_string()));
    assert_eq!(log.created_at, "2024-05-06 07:08:09");
}

#[test]
fn database_file_strips_the_scheme() {
    assert_eq!(database_file("sqlite:api_debugger.db"), "api_debugger.db");
    assert_eq!(database_file("api_debugger.db"), "api_debugger.db");
    assert_eq!(database_file("sqlite:"), "");
    assert_eq!(database_file("sqlit"), "sqlit");
    assert_eq!(database_file("postgres:x"), "postgres:x");
}
