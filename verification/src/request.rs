//! Requests to the service and what its answers mean.
use vstd::prelude::*;
use vstd::string::StringExecFns;

use crate::codec::{
    decode_json, decoded_of, encode_json, is_text_of, json_compact, json_decoded, plain_within,
    survives,
};
use crate::config::{normalized, Config};
use crate::json::{
    lemma_member_pushed, member, members_tree, Json, JsonNumber, JsonView, NumberView,
};
use crate::text::{
    decimal, decimal_text, end_slashes_alone_are_dropped, lemma_trim_end_stops,
    start_slashes_alone_are_dropped, text_of, trim, trim_end, trim_end_slashes, trim_start,
    trim_start_slashes, trimmed, without_end_slashes, without_start_slashes,
};

verus! {

/// The method of a request.
#[derive(Clone, Copy, Debug, PartialEq, Eq, Structural)]
pub enum Method {
    Get,
    Post,
}

/// What a search asks for.
#[derive(Debug)]
pub struct SearchRequest {
    pub query: String,
    pub limit: usize,
    pub namespace: Option<String>,
    pub semantic: bool,
}

/// What a new memory holds.
#[derive(Debug)]
pub struct CreateRequest {
    pub content: String,
    pub category: String,
}

/// The body of a request.
#[derive(Debug)]
pub enum Body {
    Empty,
    /// A JSON value, sent as its text.
    Value(Json),
    /// JSON text, sent as it is.
    Raw(String),
}

/// A request to the service. `context` names it in messages.
#[derive(Debug)]
pub struct ApiRequest {
    pub method: Method,
    pub url: String,
    pub bearer: String,
    pub query: Vec<(String, usize)>,
    pub body: Body,
    pub context: String,
}

/// A request that did not give a value: the status, if the service answered with
/// one that is no success, and the message.
#[derive(Debug)]
pub struct JsonRequestError {
    pub status: Option<u16>,
    pub message: String,
}

/// The body of a request as a value of the model.
pub enum BodyView {
    Empty,
    Value(JsonView),
    Raw(Seq<char>),
}

/// A request as a value of the model.
pub struct RequestView {
    pub method: Method,
    pub url: Seq<char>,
    pub bearer: Seq<char>,
    pub query: Seq<(Seq<char>, usize)>,
    pub body: BodyView,
    pub context: Seq<char>,
}

/// A failed request as a value of the model.
pub struct FailureView {
    pub status: Option<u16>,
    pub message: Seq<char>,
}

impl View for Body {
    type V = BodyView;

    open spec fn view(&self) -> BodyView {
        match *self {
            Body::Empty => BodyView::Empty,
            Body::Value(value) => BodyView::Value(value@),
            Body::Raw(text) => BodyView::Raw(text@),
        }
    }
}

impl View for ApiRequest {
    type V = RequestView;

    open spec fn view(&self) -> RequestView {
        RequestView {
            method: self.method,
            url: self.url@,
            bearer: self.bearer@,
            query: Seq::new(
                self.query@.len(),
                |i: int| (self.query@[i].0@, self.query@[i].1),
            ),
            body: self.body@,
            context: self.context@,
        }
    }
}

impl View for JsonRequestError {
    type V = FailureView;

    open spec fn view(&self) -> FailureView {
        FailureView { status: self.status, message: self.message@ }
    }
}

/// The outcome of a request as a value of the model.
pub open spec fn reply_of(reply: Result<Json, JsonRequestError>) -> Result<JsonView, FailureView> {
    match reply {
        Ok(value) => Ok(value@),
        Err(error) => Err(error@),
    }
}

/// A base URL and a path with one slash between them, whatever slashes stand at
/// the end of the one and at the start of the other.
pub open spec fn joined(base: Seq<char>, path: Seq<char>) -> Seq<char> {
    without_end_slashes(base) + "/"@ + without_start_slashes(path)
}

/// A request without query parameters.
pub open spec fn plain_request(
    config: crate::config::ConfigView,
    method: Method,
    path: Seq<char>,
    body: BodyView,
    context: Seq<char>,
) -> RequestView {
    RequestView {
        method,
        url: joined(config.base_url, path),
        bearer: config.api_key,
        query: Seq::empty(),
        body,
        context,
    }
}

/// Whether a status says that the request succeeded.
pub open spec fn is_success(status: u16) -> bool {
    200 <= status < 300
}

/// A status that is no success, with the body that came with it.
pub open spec fn http_failure(context: Seq<char>, status: u16, body: Seq<char>) -> FailureView {
    FailureView {
        status: Some(status),
        message: context + " returned HTTP "@ + decimal(status as nat) + ": "@ + body,
    }
}

/// A failure without a status.
pub open spec fn other_failure(message: Seq<char>) -> FailureView {
    FailureView { status: None, message }
}

/// What the body of a successful answer means, given what the JSON reader makes
/// of it.
pub open spec fn body_value(
    context: Seq<char>,
    body: Seq<char>,
    decoded: Result<JsonView, Seq<char>>,
) -> Result<JsonView, FailureView> {
    if trimmed(body).len() == 0 {
        Ok(JsonView::Object(Map::empty()))
    } else {
        match decoded {
            Ok(value) => Ok(value),
            Err(error) => Err(other_failure(context + " returned invalid JSON: "@ + error)),
        }
    }
}

/// What an answer means, given what the JSON reader makes of its body.
pub open spec fn answer_value(
    context: Seq<char>,
    status: u16,
    body: Seq<char>,
    decoded: Result<JsonView, Seq<char>>,
) -> Result<JsonView, FailureView> {
    if !is_success(status) {
        Err(http_failure(context, status, body))
    } else {
        body_value(context, body, decoded)
    }
}

impl JsonRequestError {
    /// The failure of an answer whose status is no success.
    pub fn http(context: &str, status: u16, body: String) -> (r: JsonRequestError)
        ensures
            r@ == http_failure(context@, status, body@),
            r.status == Some(status),
            r.message@ == context@ + " returned HTTP "@ + decimal(status as nat) + ": "@ + body@,
    {
        let message = context.to_owned().concat(" returned HTTP ").concat(
            decimal_text(status as u64).as_str(),
        ).concat(": ").concat(body.as_str());
        JsonRequestError { status: Some(status), message }
    }

    /// Any other failure.
    pub fn other(message: String) -> (r: JsonRequestError)
        ensures
            r@ == other_failure(message@),
            r.status is None,
            r.message@ == message@,
    {
        JsonRequestError { status: None, message }
    }

    /// Whether the service blamed the request.
    pub fn is_client_error(&self) -> (r: bool)
        ensures
            r == client_error(self@),
            r == (self.status is Some && 400 <= self.status->0 <= 499),
    {
        match self.status {
            Some(status) => 400 <= status && status < 500,
            None => false,
        }
    }

    /// Whether the service has the memory already.
    pub fn is_conflict(&self) -> (r: bool)
        ensures
            r == conflict(self@),
            r == (self.status is Some && self.status->0 == 409),
    {
        match self.status {
            Some(status) => status == 409,
            None => false,
        }
    }
}

/// Whether the service blamed the request.
pub open spec fn client_error(failure: FailureView) -> bool {
    failure.status is Some && 400 <= failure.status->0 < 500
}

/// Whether the service has the memory already.
pub open spec fn conflict(failure: FailureView) -> bool {
    failure.status == Some(409u16)
}

/// A base URL and a path with one slash between them.
pub fn join_url(base: &str, path: &str) -> (r: String)
    ensures
        r@ == joined(base@, path@),
{
    trim_end_slashes(base).concat("/").concat(trim_start_slashes(path).as_str())
}

fn authorized(config: &Config, method: Method, path: &str, body: Body, context: &str) -> (r:
    ApiRequest)
    ensures
        r@ == plain_request(config@, method, path@, body@, context@),
        r.method == method,
        r.url@ == joined(config.base_url@, path@),
        r.bearer@ == config.api_key@,
        r.query@.len() == 0,
        r.body == body,
        r.context@ == context@,
{
    let r = ApiRequest {
        method,
        url: join_url(config.base_url.as_str(), path),
        bearer: config.api_key.clone(),
        query: Vec::new(),
        body,
        context: context.to_owned(),
    };
    assert(r@.query =~= Seq::empty());
    r
}

/// The object that a search sends: what is looked for, how many memories are
/// wanted at most, and whether by meaning; the namespace is there only if the
/// search is confined to one.
pub open spec fn search_json(
    query: Seq<char>,
    limit: usize,
    namespace: Option<Seq<char>>,
    semantic: bool,
) -> JsonView {
    let members = Map::empty().insert("query"@, JsonView::Text(query)).insert(
        "limit"@,
        JsonView::Number(NumberView::Natural(limit as u64)),
    ).insert("semantic"@, JsonView::Bool(semantic));
    JsonView::Object(
        match namespace {
            Some(name) => members.insert("namespace"@, JsonView::Text(name)),
            None => members,
        },
    )
}

/// The object that a creation sends.
pub open spec fn create_json(content: Seq<char>, category: Seq<char>) -> JsonView {
    JsonView::Object(
        Map::empty().insert("content"@, JsonView::Text(content)).insert(
            "category"@,
            JsonView::Text(category),
        ),
    )
}

/// The object that a search sends.
pub fn search_body(search: &SearchRequest) -> (r: Json)
    ensures
        r@ == search_json(
            search.query@,
            search.limit,
            text_of(search.namespace),
            search.semantic,
        ),
{
    broadcast use lemma_member_pushed;

    let mut members: Vec<(String, Json)> = Vec::new();
    members.push(("query".to_owned(), Json::Text(search.query.clone())));
    members.push(("limit".to_owned(), Json::Number(JsonNumber::Natural(search.limit as u64))));
    members.push(("semantic".to_owned(), Json::Bool(search.semantic)));
    if let Some(name) = &search.namespace {
        members.push(("namespace".to_owned(), Json::Text(name.clone())));
    }
    assert(members_tree(members@) == search_json(
        search.query@,
        search.limit,
        text_of(search.namespace),
        search.semantic,
    )->Object_0);
    Json::Object(members)
}

/// The object that a creation sends.
pub fn create_body(create: &CreateRequest) -> (r: Json)
    ensures
        r@ == create_json(create.content@, create.category@),
{
    broadcast use lemma_member_pushed;

    let mut members: Vec<(String, Json)> = Vec::new();
    members.push(("content".to_owned(), Json::Text(create.content.clone())));
    members.push(("category".to_owned(), Json::Text(create.category.clone())));
    assert(members_tree(members@) == create_json(create.content@, create.category@)->Object_0);
    Json::Object(members)
}

impl Body {
    /// The JSON text to send, if there is a body.
    pub fn text(&self) -> (r: Option<String>)
        ensures
            match self@ {
                BodyView::Empty => r is None,
                BodyView::Value(value) => r is Some && r->0@ == json_compact(value) && (survives(
                    value,
                ) ==> is_text_of(r->0@, value)),
                BodyView::Raw(text) => r is Some && r->0@ == text,
            },
    {
        match self {
            Body::Empty => None,
            Body::Value(value) => Some(encode_json(value)),
            Body::Raw(text) => Some(text.clone()),
        }
    }
}

/// Asks whether the service is up.
pub fn health(config: &Config) -> (r: ApiRequest)
    ensures
        r.method == Method::Get,
        r.url@ == joined(config.base_url@, "/health"@),
        r.bearer@ == config.api_key@,
        r.query@.len() == 0,
        r.body is Empty,
        r.context@ == "GET /health"@,
        r@ == plain_request(config@, Method::Get, "/health"@, BodyView::Empty, "GET /health"@),
{
    authorized(config, Method::Get, "/health", Body::Empty, "GET /health")
}

/// Searches the memories.
pub fn search_memories(
    config: &Config,
    query: &str,
    limit: usize,
    namespace: Option<&str>,
    semantic: bool,
) -> (r: ApiRequest)
    ensures
        r.method == Method::Post,
        r.url@ == joined(config.base_url@, "/v1/memories/search"@),
        r.bearer@ == config.api_key@,
        r.query@.len() == 0,
        r.body is Value,
        member(r.body->Value_0@, "query"@) == Some(JsonView::Text(query@)),
        member(r.body->Value_0@, "limit"@) == Some(
            JsonView::Number(NumberView::Natural(limit as u64)),
        ),
        member(r.body->Value_0@, "semantic"@) == Some(JsonView::Bool(semantic)),
        namespace is None ==> member(r.body->Value_0@, "namespace"@) is None,
        namespace is Some ==> member(r.body->Value_0@, "namespace"@) == Some(
            JsonView::Text(namespace->0@),
        ),
        forall|key: Seq<char>|
            #[trigger]
            member(r.body->Value_0@, key) is Some ==> key == "query"@ || key == "limit"@ || key
                == "semantic"@ || key == "namespace"@,
        r.context@ == "POST /v1/memories/search"@,
        r@ == plain_request(
            config@,
            Method::Post,
            "/v1/memories/search"@,
            BodyView::Value(
                search_json(
                    query@,
                    limit,
                    match namespace {
                        Some(name) => Some(name@),
                        None => None,
                    },
                    semantic,
                ),
            ),
            "POST /v1/memories/search"@,
        ),
{
    proof {
        search_sends_what_it_asks(
            query@,
            limit,
            match namespace {
                Some(name) => Some(name@),
                None => None,
            },
            semantic,
        );
    }
    let search = SearchRequest {
        query: query.to_owned(),
        limit,
        namespace: match namespace {
            Some(name) => Some(name.to_owned()),
            None => None,
        },
        semantic,
    };
    authorized(
        config,
        Method::Post,
        "/v1/memories/search",
        Body::Value(search_body(&search)),
        "POST /v1/memories/search",
    )
}

/// Creates a memory.
pub fn create_memory(config: &Config, content: &str, category: &str) -> (r: ApiRequest)
    ensures
        r.method == Method::Post,
        r.url@ == joined(config.base_url@, "/v1/memories"@),
        r.bearer@ == config.api_key@,
        r.query@.len() == 0,
        r.body is Value,
        member(r.body->Value_0@, "content"@) == Some(JsonView::Text(content@)),
        member(r.body->Value_0@, "category"@) == Some(JsonView::Text(category@)),
        forall|key: Seq<char>|
            #[trigger]
            member(r.body->Value_0@, key) is Some ==> key == "content"@ || key == "category"@,
        r.context@ == "POST /v1/memories"@,
        r@ == plain_request(
            config@,
            Method::Post,
            "/v1/memories"@,
            BodyView::Value(create_json(content@, category@)),
            "POST /v1/memories"@,
        ),
{
    proof {
        creation_sends_what_it_holds(content@, category@);
    }
    let create = CreateRequest { content: content.to_owned(), category: category.to_owned() };
    authorized(
        config,
        Method::Post,
        "/v1/memories",
        Body::Value(create_body(&create)),
        "POST /v1/memories",
    )
}

/// Fetches one memory.
pub fn get_memory(config: &Config, id: &str) -> (r: ApiRequest)
    ensures
        r.method == Method::Get,
        r.url@ == joined(config.base_url@, "/v1/memories/"@ + id@),
        r.bearer@ == config.api_key@,
        r.query@.len() == 0,
        r.body is Empty,
        r.context@ == "GET /v1/memories/{id}"@,
        r@ == plain_request(
            config@,
            Method::Get,
            "/v1/memories/"@ + id@,
            BodyView::Empty,
            "GET /v1/memories/{id}"@,
        ),
{
    let path = "/v1/memories/".to_owned().concat(id);
    authorized(config, Method::Get, path.as_str(), Body::Empty, "GET /v1/memories/{id}")
}

/// Lists the peers of the federation.
pub fn list_peers(config: &Config) -> (r: ApiRequest)
    ensures
        r.method == Method::Get,
        r.url@ == joined(config.base_url@, "/v1/federation/peers"@),
        r.bearer@ == config.api_key@,
        r.query@.len() == 0,
        r.body is Empty,
        r.context@ == "GET /v1/federation/peers"@,
        r@ == plain_request(
            config@,
            Method::Get,
            "/v1/federation/peers"@,
            BodyView::Empty,
            "GET /v1/federation/peers"@,
        ),
{
    authorized(
        config,
        Method::Get,
        "/v1/federation/peers",
        Body::Empty,
        "GET /v1/federation/peers",
    )
}

/// Creates a memory from JSON text.
pub fn post_memory(config: &Config, text: String) -> (r: ApiRequest)
    ensures
        r.method == Method::Post,
        r.url@ == joined(config.base_url@, "/v1/memories"@),
        r.bearer@ == config.api_key@,
        r.query@.len() == 0,
        r.body is Raw,
        r.body->Raw_0@ == text@,
        r.context@ == "POST /v1/memories"@,
        r@ == plain_request(
            config@,
            Method::Post,
            "/v1/memories"@,
            BodyView::Raw(text@),
            "POST /v1/memories"@,
        ),
{
    authorized(config, Method::Post, "/v1/memories", Body::Raw(text), "POST /v1/memories")
}

/// What the body of a successful answer means, given what the JSON reader made
/// of it.
pub fn read_body(context: &str, body: &str, decoded: Result<Json, String>) -> (r: Result<
    Json,
    JsonRequestError,
>)
    ensures
        reply_of(r) == body_value(context@, body@, decoded_of(decoded)),
        r is Ok <==> trimmed(body@).len() == 0 || decoded is Ok,
        r is Ok && trimmed(body@).len() > 0 ==> r->Ok_0@ == decoded->Ok_0@,
        r is Err ==> r->Err_0.status is None,
        r is Err ==> r->Err_0.message@ == context@ + " returned invalid JSON: "@ + decoded->Err_0@,
{
    if trim(body).as_str().is_empty() {
        let none: Vec<(String, Json)> = Vec::new();
        assert(members_tree(none@) =~= Map::empty());
        return Ok(Json::Object(none));
    }
    match decoded {
        Ok(value) => Ok(value),
        Err(error) => Err(
            JsonRequestError::other(
                context.to_owned().concat(" returned invalid JSON: ").concat(error.as_str()),
            ),
        ),
    }
}

/// What an answer means: the JSON value of a successful one, an empty object if
/// its body is blank, or the failure.
pub fn read_answer(context: &str, status: u16, body: &str) -> (r: Result<Json, JsonRequestError>)
    ensures
        reply_of(r) == answer_value(context@, status, body@, json_decoded(body@)),
        r is Ok <==> 200 <= status <= 299 && (trimmed(body@).len() == 0 || json_decoded(body@) is Ok),
        r is Ok && trimmed(body@).len() > 0 ==> r->Ok_0@ == json_decoded(body@)->Ok_0,
        r is Err ==> (r->Err_0.status is Some <==> !(200 <= status <= 299)),
        r is Err && r->Err_0.status is Some ==> r->Err_0.status->0 == status,
        r is Err && r->Err_0.status is Some ==> r->Err_0.message@ == context@ + " returned HTTP "@
            + decimal(status as nat) + ": "@ + body@,
{
    if !(200 <= status && status < 300) {
        return Err(JsonRequestError::http(context, status, body.to_owned()));
    }
    read_body(context, body, decode_json(body))
}

/// The failure of a request that could not be sent.
pub fn send_failure(context: &str, error: &str) -> (r: JsonRequestError)
    ensures
        r@ == other_failure(context@ + " request failed: "@ + error@),
        r.status is None,
        r.message@ == context@ + " request failed: "@ + error@,
{
    JsonRequestError::other(context.to_owned().concat(" request failed: ").concat(error))
}

/// The failure of an answer whose body could not be read.
pub fn body_failure(context: &str, error: &str) -> (r: JsonRequestError)
    ensures
        r@ == other_failure(context@ + " response body read failed: "@ + error@),
        r.status is None,
        r.message@ == context@ + " response body read failed: "@ + error@,
{
    JsonRequestError::other(
        context.to_owned().concat(" response body read failed: ").concat(error),
    )
}

/// The base URL of a resolved configuration does not end in a slash.
pub proof fn base_url_ends_without_slash(url: Seq<char>)
    ensures
        normalized(url).len() > 0 ==> normalized(url).last() != '/',
{
    lemma_trim_end_stops(trimmed(url), |c: char| c == '/');
}

/// Slashes at the end of the base URL, or at the start of the path, change
/// nothing.
pub proof fn extra_slashes_change_nothing(base: Seq<char>, path: Seq<char>)
    ensures
        joined(base.push('/'), path) == joined(base, path),
        joined(base, seq!['/'] + path) == joined(base, path),
{
    let slash = |c: char| c == '/';
    assert(base.push('/').drop_last() =~= base);
    assert((seq!['/'] + path).drop_first() =~= path);
    assert(trim_end(base.push('/'), slash) == trim_end(base, slash));
    assert(trim_start(seq!['/'] + path, slash) == trim_start(path, slash));
}

/// A search is sent with its query, its limit and its kind, with its namespace
/// exactly if it has one, and with nothing else; the text of it reads back.
pub proof fn search_sends_what_it_asks(
    query: Seq<char>,
    limit: usize,
    namespace: Option<Seq<char>>,
    semantic: bool,
)
    ensures
        ({
            let sent = search_json(query, limit, namespace, semantic);
            &&& member(sent, "query"@) == Some(JsonView::Text(query))
            &&& member(sent, "limit"@) == Some(
                JsonView::Number(NumberView::Natural(limit as u64)),
            )
            &&& member(sent, "semantic"@) == Some(JsonView::Bool(semantic))
            &&& member(sent, "namespace"@) == (match namespace {
                Some(name) => Some(JsonView::Text(name)),
                None => None,
            })
            &&& forall|key: Seq<char>|
                #[trigger]
                member(sent, key) is Some ==> key == "query"@ || key == "limit"@ || key
                    == "semantic"@ || key == "namespace"@
            &&& survives(sent)
        }),
{
    reveal_strlit("query");
    reveal_strlit("limit");
    reveal_strlit("semantic");
    reveal_strlit("namespace");
    assert("query"@[0] != "limit"@[0]);
    assert("semantic"@.len() != "namespace"@.len());
    reveal_with_fuel(plain_within, 2);
}

/// A creation is sent with its content and its category, and with nothing else;
/// the text of it reads back.
pub proof fn creation_sends_what_it_holds(content: Seq<char>, category: Seq<char>)
    ensures
        ({
            let sent = create_json(content, category);
            &&& member(sent, "content"@) == Some(JsonView::Text(content))
            &&& member(sent, "category"@) == Some(JsonView::Text(category))
            &&& forall|key: Seq<char>|
                #[trigger]
                member(sent, key) is Some ==> key == "content"@ || key == "category"@
            &&& survives(sent)
        }),
{
    reveal_strlit("content");
    reveal_strlit("category");
    assert("content"@.len() != "category"@.len());
    reveal_with_fuel(plain_within, 2);
}

/// A URL has all of the base URL but the slashes at its end, one slash, and all of
/// the path but the slashes at its start.
pub proof fn urls_keep_base_and_path(base: Seq<char>, path: Seq<char>)
    ensures
        exists|i: int, j: int|
            {
                &&& 0 <= i <= base.len()
                &&& 0 <= j <= path.len()
                &&& joined(base, path) == #[trigger] base.take(i) + seq!['/'] + #[trigger] path.skip(
                    j,
                )
                &&& forall|k: int| i <= k < base.len() ==> #[trigger] base[k] == '/'
                &&& i > 0 ==> base[i - 1] != '/'
                &&& forall|k: int| 0 <= k < j ==> #[trigger] path[k] == '/'
                &&& j < path.len() ==> path[j] != '/'
            },
{
    reveal_strlit("/");
    end_slashes_alone_are_dropped(base);
    start_slashes_alone_are_dropped(path);
    let i = choose|i: int|
        {
            &&& 0 <= i <= base.len()
            &&& without_end_slashes(base) == #[trigger] base.take(i)
            &&& forall|k: int| i <= k < base.len() ==> #[trigger] base[k] == '/'
            &&& i > 0 ==> base[i - 1] != '/'
        };
    let j = choose|j: int|
        {
            &&& 0 <= j <= path.len()
            &&& without_start_slashes(path) == #[trigger] path.skip(j)
            &&& forall|k: int| 0 <= k < j ==> #[trigger] path[k] == '/'
            &&& j < path.len() ==> path[j] != '/'
        };
    assert(joined(base, path) =~= base.take(i) + seq!['/'] + path.skip(j));
}

/// A request without query parameters goes out with all it was given: the method,
/// the key as the bearer token, the body, and a URL of the base URL and the path.
pub proof fn requests_carry_what_they_are_given(
    config: crate::config::ConfigView,
    method: Method,
    path: Seq<char>,
    body: BodyView,
    context: Seq<char>,
)
    ensures
        ({
            let r = plain_request(config, method, path, body, context);
            &&& r.method == method
            &&& r.url == without_end_slashes(config.base_url) + seq!['/'] + without_start_slashes(
                path,
            )
            &&& r.bearer == config.api_key
            &&& r.query.len() == 0
            &&& r.body == body
            &&& r.context == context
        }),
{
    reveal_strlit("/");
    assert("/"@ =~= seq!['/']);
}

/// What an answer means. A status of success with a blank body is an object
/// without members; with JSON it is that value; with anything else it fails
/// without a status, with the reader's message in full. Any other status is a
/// failure with that status and the body in full.
pub proof fn answers_are_taken_at_their_word(
    context: Seq<char>,
    status: u16,
    body: Seq<char>,
    decoded: Result<JsonView, Seq<char>>,
)
    ensures
        ({
            let r = answer_value(context, status, body, decoded);
            let success = 200 <= status <= 299;
            let blank = trimmed(body).len() == 0;
            &&& success && blank ==> r is Ok && r->Ok_0 is Object && forall|key: Seq<char>|
                #[trigger] member(r->Ok_0, key) is None
            &&& success && !blank && decoded is Ok ==> r is Ok && r->Ok_0 == decoded->Ok_0
            &&& success && !blank && decoded is Err ==> r is Err && r->Err_0.status is None
                && r->Err_0.message == context + " returned invalid JSON: "@ + decoded->Err_0
            &&& !success ==> r is Err && r->Err_0.status == Some(status) && r->Err_0.message
                == context + " returned HTTP "@ + decimal(status as nat) + ": "@ + body
            &&& success ==> r == body_value(context, body, decoded)
        }),
{
}

/// The service blames the request with a status from 400 to 499, and has the memory
/// already with 409; without a status it does neither.
pub proof fn statuses_that_blame_the_request(failure: FailureView)
    ensures
        client_error(failure) <==> failure.status is Some && 400 <= failure.status->0 <= 499,
        conflict(failure) <==> failure.status is Some && failure.status->0 == 409,
        failure.status is Some ==> (is_success(failure.status->0) <==> 200 <= failure.status->0
            <= 299),
{
}

/// Failures have the message they were given.
pub proof fn failures_keep_their_message(context: Seq<char>, status: u16, body: Seq<char>)
    ensures
        http_failure(context, status, body).status == Some(status),
        http_failure(context, status, body).message == context + " returned HTTP "@ + decimal(
            status as nat,
        ) + ": "@ + body,
        other_failure(body).status is None,
        other_failure(body).message == body,
{
}

/// Requests, bodies and failures in the model are what they are, in full.
pub proof fn requests_are_kept(
    request: ApiRequest,
    body: Body,
    error: JsonRequestError,
    reply: Result<Json, JsonRequestError>,
)
    ensures
        request@.method == request.method,
        request@.url == request.url@,
        request@.bearer == request.bearer@,
        request@.body == request.body@,
        request@.context == request.context@,
        request@.query.len() == request.query@.len(),
        forall|i: int|
            0 <= i < request.query@.len() ==> (#[trigger] request@.query[i]).0
                == request.query@[i].0@ && request@.query[i].1 == request.query@[i].1,
        body is Empty <==> body@ is Empty,
        body is Value <==> body@ is Value,
        body is Raw <==> body@ is Raw,
        body is Value ==> body@->Value_0 == body->Value_0@,
        body is Raw ==> body@->Raw_0 == body->Raw_0@,
        error@.status == error.status,
        error@.message == error.message@,
        reply is Ok <==> reply_of(reply) is Ok,
        reply is Ok ==> reply_of(reply)->Ok_0 == reply->Ok_0@,
        reply is Err ==> reply_of(reply)->Err_0 == reply->Err_0@,
{
}

} // verus!
