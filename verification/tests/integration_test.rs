use mnemosctl::config::Config;
use mnemosctl::json::Json;
use mnemosctl::mock::{
    header, maybe_wiremock_response, method, path, wiremock_key, Mock, MockServer, OutgoingRequest,
    ResponseTemplate,
};
use mnemosctl::request::{ApiRequest, JsonRequestError, Method};
use mnemosctl::{
    create_memory, format_peers, get_memory, health, list_peers, pretty_json, search_memories,
};

fn text(value: &str) -> Json {
    Json::Text(value.to_string())
}

fn object(members: Vec<(&str, Json)>) -> Json {
    Json::Object(members.into_iter().map(|(name, value)| (name.to_string(), value)).collect())
}

fn text_in<'a>(value: &'a Json, name: &str) -> &'a str {
    match value.get(name) {
        Some(Json::Text(text)) => text,
        other => panic!("{name} is {other:?}"),
    }
}

/// The request as `reqwest` would send it.
fn outgoing(request: &ApiRequest) -> OutgoingRequest {
    let client = reqwest::Client::new();
    let builder = match request.method {
        Method::Get => client.get(&request.url),
        Method::Post => client.post(&request.url),
    };
    let built = builder
        .bearer_auth(&request.bearer)
        .query(&request.query)
        .build()
        .expect("request can be built");
    OutgoingRequest {
        host: built.url().host_str().map(str::to_string),
        method: built.method().as_str().to_string(),
        path: built.url().path().to_string(),
        headers: built
            .headers()
            .iter()
            .map(|(name, value)| {
                (name.as_str().to_string(), value.to_str().ok().map(str::to_string))
            })
            .collect(),
    }
}

/// Sends a request to a host of stand-ins.
fn send(request: &ApiRequest, registry: &str) -> Result<Json, JsonRequestError> {
    let outgoing = outgoing(request);
    maybe_wiremock_response(&outgoing, Ok(registry.to_string()), &request.context)
        .map(|answer| answer.expect("the host is a host of stand-ins"))
}

#[test]
fn test_health_ok() {
    let mut next_id = 1;
    let server = MockServer::start(&mut next_id);
    let registry = Mock::given(method("GET"))
        .and(path("/health"))
        .and(header("authorization", "Bearer test-key"))
        .respond_with(
            ResponseTemplate::new(200).set_body_json(&object(vec![("status", text("ok"))])),
        )
        .mount(None);

    let config = Config {
        base_url: server.uri(),
        api_key: "test-key".to_string(),
    };

    let request = health(&config);
    assert_eq!(wiremock_key(&outgoing(&request)), Some(server.env_key()));
    let response = send(&request, &registry).expect("health succeeds");

    assert_eq!(text_in(&response, "status"), "ok");
}

#[test]
fn test_search_returns_results() {
    let mut next_id = 1;
    let server = MockServer::start(&mut next_id);
    let registry = Mock::given(method("POST"))
        .and(path("/v1/memories/search"))
        .and(header("authorization", "Bearer test-key"))
        .respond_with(ResponseTemplate::new(200).set_body_json(&object(vec![(
            "results",
            Json::Array(vec![object(vec![("id", text("abc")), ("content", text("hello"))])]),
        )])))
        .mount(None);

    let config = Config {
        base_url: server.uri(),
        api_key: "test-key".to_string(),
    };

    let request = search_memories(&config, "hello", 10, None, false);
    assert_eq!(wiremock_key(&outgoing(&request)), Some(server.env_key()));
    let response = send(&request, &registry).expect("search succeeds");

    assert_eq!(response.get("results").unwrap().as_array().unwrap().len(), 1);
}

#[test]
fn every_request_reaches_the_stand_in_mounted_for_it() {
    let mut next_id = 7;
    let server = MockServer::start(&mut next_id);
    assert_eq!(next_id, 8);
    let config = Config {
        base_url: format!("{}///", server.uri()),
        api_key: "k".to_string(),
    };
    let requests = [
        (health(&config), "GET", "/health"),
        (search_memories(&config, "q", 3, Some("work"), true), "POST", "/v1/memories/search"),
        (create_memory(&config, "c", "facts"), "POST", "/v1/memories"),
        (get_memory(&config, "abc123"), "GET", "/v1/memories/abc123"),
        (list_peers(&config), "GET", "/v1/federation/peers"),
    ];
    let mut registry = None;
    for (_, verb, route) in &requests {
        let template = ResponseTemplate::new(200).set_body_json(&text(route));
        registry = Some(
            Mock::given(method(&verb.to_lowercase()))
                .and(path(route))
                .and(header("AUTHORIZATION", "Bearer k"))
                .respond_with(template)
                .mount(registry),
        );
    }
    let registry = registry.unwrap();
    for (request, _, route) in &requests {
        match send(request, &registry) {
            Ok(Json::Text(answer)) => assert_eq!(&answer, route),
            other => panic!("{route}: {other:?}"),
        }
    }
}

#[test]
fn an_answer_is_printed_for_the_eye() {
    let mut next_id = 1;
    let server = MockServer::start(&mut next_id);
    let registry = Mock::given(path("/health"))
        .respond_with(
            ResponseTemplate::new(200).set_body_json(&object(vec![("status", text("ok"))])),
        )
        .mount(None);
    let config = Config { base_url: server.uri(), api_key: "k".to_string() };
    let answer = send(&health(&config), &registry).unwrap();
    assert_eq!(pretty_json(&answer), Ok("{\n  \"status\": \"ok\"\n}".to_string()));
}

#[test]
fn peers_come_from_the_answer() {
    let mut next_id = 1;
    let server = MockServer::start(&mut next_id);
    let registry = Mock::given(path("/v1/federation/peers"))
        .respond_with(ResponseTemplate::new(200).set_body_json(&object(vec![(
            "peers",
            Json::Array(vec![object(vec![("url", text("http://a")), ("lastSyncAt", text("noon"))])]),
        )])))
        .mount(None);
    let config = Config { base_url: server.uri(), api_key: "k".to_string() };
    let answer = send(&list_peers(&config), &registry).unwrap();
    assert_eq!(format_peers(&answer), vec!["http://a\tnoon".to_string()]);
}
