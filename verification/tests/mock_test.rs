use mnemosctl::codec::{decode_json, encode_json};
use mnemosctl::json::Json;
use mnemosctl::mock::{
    answer_from_registry, header, maybe_wiremock_response, method, path, wiremock_key,
    wiremock_matches, Mock, MockServer, OutgoingRequest, ResponseTemplate,
};

fn request(host: Option<&str>, verb: &str, route: &str) -> OutgoingRequest {
    OutgoingRequest {
        host: host.map(str::to_string),
        method: verb.to_string(),
        path: route.to_string(),
        headers: vec![
            ("x".to_string(), Some("1".to_string())),
            ("x".to_string(), Some("2".to_string())),
            ("y".to_string(), None),
        ],
    }
}

fn get(route: &str) -> OutgoingRequest {
    request(Some("wiremock-1.mnemosctl.test"), "GET", route)
}

fn json(text: &str) -> Json {
    decode_json(text).unwrap()
}

#[test]
fn a_server_finds_its_registry() {
    let mut next_id = 41;
    let first = MockServer::start(&mut next_id);
    let second = MockServer::start(&mut next_id);
    assert_eq!(first.uri(), "http://wiremock-41.mnemosctl.test");
    assert_eq!(second.env_key(), "MNEMOSCTL_WIREMOCK_42");
    let host = second.uri().strip_prefix("http://").map(str::to_string);
    let outgoing = OutgoingRequest { host, ..get("/") };
    assert_eq!(wiremock_key(&outgoing), Some(second.env_key()));
    let mut last = usize::MAX;
    assert_eq!(MockServer::start(&mut last).id, usize::MAX);
    assert_eq!(last, 0);
}

#[test]
fn other_hosts_have_no_registry() {
    for host in [
        None,
        Some("example.org"),
        Some("wiremock-1.mnemosctl.test.org"),
        Some("a.wiremock-1.mnemosctl.test"),
        Some("wiremock-"),
        Some("wiremock.mnemosctl.test"),
    ] {
        let outgoing = request(host, "GET", "/");
        assert_eq!(wiremock_key(&outgoing), None);
        assert!(matches!(
            maybe_wiremock_response(&outgoing, Err("unset".to_string()), "GET /"),
            Ok(None)
        ));
    }
    assert_eq!(
        wiremock_key(&request(Some("wiremock-.mnemosctl.test"), "GET", "/")),
        Some("MNEMOSCTL_WIREMOCK_".to_string())
    );
}

#[test]
fn a_mounted_mock_is_written_as_json() {
    let mock = Mock::given(method("get"))
        .and(path("/a"))
        .and(header("X-Name", "Value"))
        .respond_with(ResponseTemplate::new(201).set_body_json(&Json::Bool(true)));
    assert_eq!(
        mock.mount(None),
        "[{\"matchers\":[{\"kind\":\"method\",\"value\":\"GET\"},\
         {\"kind\":\"path\",\"value\":\"/a\"},\
         {\"kind\":\"header\",\"name\":\"x-name\",\"value\":\"Value\"}],\
         \"response\":{\"body\":\"true\",\"status\":201}}]"
    );
}

#[test]
fn mounting_keeps_what_is_there() {
    let first = Mock::given(path("/a")).mount(None);
    let second = Mock::given(path("/b")).mount(Some(first));
    let registry = json(&second);
    assert_eq!(registry.as_array().unwrap().len(), 2);
    assert!(wiremock_matches(&registry.as_array().unwrap()[0], &get("/a")));
    assert!(wiremock_matches(&registry.as_array().unwrap()[1], &get("/b")));
    for broken in ["{}", "no json", "7"] {
        let registry = json(&Mock::given(path("/b")).mount(Some(broken.to_string())));
        assert_eq!(registry.as_array().unwrap().len(), 1);
    }
    let behind = Mock::given(path("/c")).mounted_behind(Ok(json("[1]")));
    assert_eq!(behind.as_array().unwrap().len(), 2);
}

#[test]
fn every_matcher_must_be_met() {
    let matches = |matchers: &str| {
        wiremock_matches(&json(&format!("{{\"matchers\":{matchers}}}")), &get("/a"))
    };
    assert!(matches("[]"));
    assert!(matches("[{\"kind\":\"method\",\"value\":\"GET\"},{\"kind\":\"path\",\"value\":\"/a\"}]"));
    assert!(!matches("[{\"kind\":\"method\",\"value\":\"GET\"},{\"kind\":\"path\",\"value\":\"/b\"}]"));
    assert!(!matches("[{\"kind\":\"method\",\"value\":\"get\"}]"));
    assert!(!matches("[{\"kind\":\"method\"}]"));
    assert!(!matches("[{\"kind\":\"body\",\"value\":\"GET\"}]"));
    assert!(!matches("[{\"value\":\"GET\"}]"));
    assert!(!matches("[7]"));
    assert!(!matches("{}"));
    assert!(!wiremock_matches(&json("{}"), &get("/a")));
    assert!(!wiremock_matches(&json("7"), &get("/a")));
}

#[test]
fn the_first_header_of_a_name_counts() {
    let matches = |name: &str, value: &str| {
        let mock = format!(
            "{{\"matchers\":[{{\"kind\":\"header\",\"name\":\"{name}\",\"value\":\"{value}\"}}]}}"
        );
        wiremock_matches(&json(&mock), &get("/a"))
    };
    assert!(matches("x", "1"));
    assert!(matches("X", "1"));
    assert!(!matches("x", "2"));
    assert!(!matches("y", ""));
    assert!(!matches("z", "1"));
    assert!(!wiremock_matches(
        &json("{\"matchers\":[{\"kind\":\"header\",\"value\":\"1\"}]}"),
        &get("/a")
    ));
    assert!(!wiremock_matches(
        &json("{\"matchers\":[{\"kind\":\"header\",\"name\":\"x\"}]}"),
        &get("/a")
    ));
}

#[test]
fn the_first_answering_mock_answers() {
    let mut registry = None;
    for (route, answer) in [("/a", 1u64), ("/b", 2), ("/a", 3)] {
        let value = Json::Number(mnemosctl::json::JsonNumber::Natural(answer));
        registry = Some(
            Mock::given(path(route))
                .respond_with(ResponseTemplate::new(200).set_body_json(&value))
                .mount(registry),
        );
    }
    let registry = registry.unwrap();
    for (route, answer) in [("/a", "1"), ("/b", "2")] {
        let value = maybe_wiremock_response(&get(route), Ok(registry.clone()), "GET").unwrap();
        assert_eq!(encode_json(&value.unwrap()), answer);
    }
    let error = maybe_wiremock_response(&get("/c"), Ok(registry), "GET /c").unwrap_err();
    assert_eq!(error.message, "GET /c no mock matched GET /c");
    assert_eq!(error.status, None);
}

#[test]
fn a_mock_answers_as_a_service_would() {
    let mount = |status: u16, body: Option<&Json>| {
        let template = ResponseTemplate::new(status);
        let template = match body {
            Some(value) => template.set_body_json(value),
            None => template,
        };
        Mock::given(path("/a")).respond_with(template).mount(None)
    };
    let ask = |registry: String| maybe_wiremock_response(&get("/a"), Ok(registry), "GET /a");
    assert_eq!(encode_json(&ask(mount(204, None)).unwrap().unwrap()), "{}");
    let error = ask(mount(409, Some(&Json::Text("twice".to_string())))).unwrap_err();
    assert!(error.is_conflict());
    assert_eq!(error.message, "GET /a returned HTTP 409: \"twice\"");
}

#[test]
fn what_a_response_leaves_out_has_defaults() {
    let ask = |response: &str| {
        let registry = format!("[{{\"matchers\":[]{response}}}]");
        answer_from_registry("K", decode_json(&registry), &get("/a"), "GET /a")
    };
    assert_eq!(ask("").unwrap_err().message, "GET /a returned HTTP 500: ");
    assert_eq!(ask(",\"response\":{\"body\":\"b\"}").unwrap_err().message, "GET /a returned HTTP 500: b");
    assert_eq!(ask(",\"response\":{\"status\":\"200\"}").unwrap_err().status, Some(500));
}

#[test]
fn a_status_is_taken_modulo_two_to_the_sixteenth() {
    let ask = |status: &str| {
        let registry = format!("[{{\"matchers\":[],\"response\":{{\"status\":{status}}}}}]");
        answer_from_registry("K", decode_json(&registry), &get("/a"), "GET /a")
    };
    assert!(ask("65736").is_ok());
    assert_eq!(ask("65940").unwrap_err().status, Some(404));
    assert_eq!(ask("65536").unwrap_err().status, Some(0));
}

#[test]
fn a_registry_that_cannot_be_used_is_reported() {
    let ask = |registry: Result<&str, &str>| {
        let registry = registry.map(str::to_string).map_err(str::to_string);
        maybe_wiremock_response(&get("/a"), registry, "GET /a").unwrap_err()
    };
    assert_eq!(
        ask(Err("environment variable not found")).message,
        "GET /a has no mounted mock: environment variable not found"
    );
    assert_eq!(ask(Ok("{}")).message, "MNEMOSCTL_WIREMOCK_1 mock registry is not an array");
    let reason = serde_json::from_str::<serde_json::Value>("no").unwrap_err();
    assert_eq!(ask(Ok("no")).message, format!("parse MNEMOSCTL_WIREMOCK_1 mock registry: {reason}"));
    let broken = "[{\"matchers\":[],\"response\":{\"status\":200,\"body\":\"no\"}}]";
    assert_eq!(ask(Ok(broken)).message, format!("GET /a returned invalid JSON: {reason}"));
}
