use mnemosctl::codec::encode_json;
use mnemosctl::config::Config;
use mnemosctl::json::Json;
use mnemosctl::progress::{
    emit_final_progress, emit_progress, is_multiple_of, maybe_emit_progress, progress_interval,
};
use mnemosctl::request::{
    body_failure, create_body, join_url, post_memory, read_answer, read_body, search_body,
    send_failure, Body, CreateRequest, JsonRequestError, Method, SearchRequest,
};
use mnemosctl::{create_memory, get_memory, health, list_peers, search_memories};

fn config() -> Config {
    Config { base_url: "http://h/".to_string(), api_key: "key".to_string() }
}

#[test]
fn one_slash_joins_base_and_path() {
    assert_eq!(join_url("http://h", "/x"), "http://h/x");
    assert_eq!(join_url("http://h//", "//x/"), "http://h/x/");
    assert_eq!(join_url("http://h", "x"), "http://h/x");
    assert_eq!(join_url("", ""), "/");
    assert_eq!(join_url("http://h/", "/x"), join_url("http://h", "x"));
}

#[test]
fn requests_without_a_body() {
    for (request, url, context) in [
        (health(&config()), "http://h/health", "GET /health"),
        (get_memory(&config(), "/a b"), "http://h/v1/memories//a b", "GET /v1/memories/{id}"),
        (list_peers(&config()), "http://h/v1/federation/peers", "GET /v1/federation/peers"),
    ] {
        assert_eq!(request.method, Method::Get);
        assert_eq!(request.url, url);
        assert_eq!(request.bearer, "key");
        assert!(request.query.is_empty());
        assert!(matches!(request.body, Body::Empty));
        assert_eq!(request.context, context);
    }
}

#[test]
fn a_search_carries_its_terms() {
    let request = search_memories(&config(), "project notes", 25, Some("work"), true);
    assert_eq!(request.method, Method::Post);
    assert_eq!(request.url, "http://h/v1/memories/search");
    assert_eq!(request.context, "POST /v1/memories/search");
    assert_eq!(
        request.body.text().unwrap(),
        "{\"limit\":25,\"namespace\":\"work\",\"query\":\"project notes\",\"semantic\":true}"
    );
    let request = search_memories(&config(), "", 10, None, false);
    assert_eq!(
        request.body.text().unwrap(),
        "{\"limit\":10,\"query\":\"\",\"semantic\":false}"
    );
}

#[test]
fn a_search_without_a_namespace_does_not_name_one() {
    let search = |namespace: Option<&str>| {
        search_body(&SearchRequest {
            query: "q".to_string(),
            limit: 3,
            namespace: namespace.map(str::to_string),
            semantic: true,
        })
    };
    let members = |value: &Json| match value {
        Json::Object(members) => members.len(),
        other => panic!("{other:?}"),
    };
    assert!(search(None).get("namespace").is_none());
    assert_eq!(members(&search(None)), 3);
    assert!(matches!(search(Some("")).get("namespace"), Some(Json::Text(name)) if name.is_empty()));
    assert_eq!(members(&search(Some("n"))), 4);
    assert!(matches!(search(None).get("semantic"), Some(Json::Bool(true))));
}

#[test]
fn a_memory_is_created_from_parts_or_from_text() {
    let request = create_memory(&config(), "content", "facts");
    assert_eq!(request.method, Method::Post);
    assert_eq!(request.url, "http://h/v1/memories");
    assert_eq!(request.context, "POST /v1/memories");
    assert_eq!(
        request.body.text().unwrap(),
        "{\"category\":\"facts\",\"content\":\"content\"}"
    );
    let create = CreateRequest { content: "c\"".to_string(), category: String::new() };
    assert_eq!(encode_json(&create_body(&create)), "{\"category\":\"\",\"content\":\"c\\\"\"}");
    let request = post_memory(&config(), "{}".to_string());
    assert_eq!(request.url, "http://h/v1/memories");
    assert_eq!(request.body.text(), Some("{}".to_string()));
    assert!(matches!(request.body, Body::Raw(_)));
    assert_eq!(health(&config()).body.text(), None);
}

#[test]
fn a_successful_answer_is_its_json() {
    let value = read_answer("GET /x", 200, "{\"a\":[1]}").unwrap();
    assert_eq!(encode_json(&value), "{\"a\":[1]}");
    assert_eq!(encode_json(&read_answer("GET /x", 299, " 7 ").unwrap()), "7");
}

#[test]
fn a_blank_answer_is_an_empty_object() {
    for body in ["", " \n", "\u{a0}"] {
        assert_eq!(encode_json(&read_answer("GET /x", 204, body).unwrap()), "{}");
    }
}

#[test]
fn an_answer_that_is_no_json_fails_without_a_status() {
    let error = read_answer("GET /x", 200, "oops").unwrap_err();
    let reason = serde_json::from_str::<serde_json::Value>("oops").unwrap_err();
    assert_eq!(error.message, format!("GET /x returned invalid JSON: {reason}"));
    assert_eq!(error.status, None);
    assert!(!error.is_client_error());
    let error = read_body("GET /x", "x", Err("why".to_string())).unwrap_err();
    assert_eq!(error.message, "GET /x returned invalid JSON: why");
    assert!(matches!(read_body("c", " ", Err("why".to_string())), Ok(Json::Object(m)) if m.is_empty()));
    assert!(matches!(read_body("c", "null", Ok(Json::Null)), Ok(Json::Null)));
}

#[test]
fn a_status_that_is_no_success_fails_with_its_body() {
    for (status, client, conflict) in [
        (100, false, false),
        (199, false, false),
        (300, false, false),
        (399, false, false),
        (400, true, false),
        (409, true, true),
        (499, true, false),
        (500, false, false),
    ] {
        let error = read_answer("POST /x", status, "no").unwrap_err();
        assert_eq!(error.status, Some(status));
        assert_eq!(error.message, format!("POST /x returned HTTP {status}: no"));
        assert_eq!(error.is_client_error(), client);
        assert_eq!(error.is_conflict(), conflict);
    }
}

#[test]
fn failures_without_an_answer() {
    let error = send_failure("GET /x", "refused");
    assert_eq!(error.message, "GET /x request failed: refused");
    assert_eq!(error.status, None);
    let error = body_failure("GET /x", "cut off");
    assert_eq!(error.message, "GET /x response body read failed: cut off");
    let error = JsonRequestError::other("m".to_string());
    assert!(!error.is_conflict() && !error.is_client_error());
    assert_eq!(JsonRequestError::http("c", 404, "b".to_string()).message, "c returned HTTP 404: b");
}

#[test]
fn progress_has_a_default_interval() {
    assert_eq!(progress_interval(None), None);
    assert_eq!(progress_interval(Some(None)), Some(100));
    assert_eq!(progress_interval(Some(Some(500))), Some(500));
}

#[test]
fn progress_lines() {
    assert_eq!(emit_progress(100, Some(5000)), "[progress] 100/5000 rows processed");
    assert_eq!(emit_progress(7, None), "[progress] 7/unknown rows processed");
    assert!(is_multiple_of(0, 3) && is_multiple_of(6, 3) && !is_multiple_of(7, 3));
}

#[test]
fn progress_comes_at_intervals_and_at_the_end() {
    let line = |n: usize, total: &str| Some(format!("[progress] {n}/{total} rows processed"));
    assert_eq!(maybe_emit_progress(100, None, Some(100)), line(100, "unknown"));
    assert_eq!(maybe_emit_progress(99, Some(150), Some(100)), None);
    assert_eq!(maybe_emit_progress(150, Some(150), Some(100)), line(150, "150"));
    assert_eq!(maybe_emit_progress(0, Some(0), Some(100)), None);
    assert_eq!(emit_final_progress(150, Some(160), Some(100)), line(150, "160"));
    assert_eq!(emit_final_progress(150, None, Some(100)), line(150, "150"));
    assert_eq!(emit_final_progress(200, None, Some(100)), None);
    assert_eq!(emit_final_progress(0, None, Some(100)), None);
}

#[test]
fn no_progress_is_reported_unasked() {
    for every in [None, Some(0)] {
        assert_eq!(maybe_emit_progress(100, Some(100), every), None);
        assert_eq!(emit_final_progress(101, Some(100), every), None);
    }
}
