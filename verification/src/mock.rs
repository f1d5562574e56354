//! Stand-ins for the service: canned answers to requests that go to a host of
//! the form `wiremock-<id>.mnemosctl.test`. The stand-ins of one such host are
//! kept as JSON text, its registry, under a name that the host determines.
use vstd::prelude::*;
use vstd::string::StringExecFns;

use crate::codec::{
    decode_json, decoded_of, encode_json, is_text_of, json_compact, json_decoded, plain_within,
    survives,
};
use crate::json::{
    lemma_array_tree, lemma_member_pushed, member, members_tree, trees, Json, JsonNumber, JsonView,
    NumberView,
};
use crate::request::{
    answer_value, is_success, other_failure, read_answer, reply_of, FailureView, JsonRequestError,
};
use crate::text::{
    affixes_are_cut_off, before, behind, decimal, decimal_text, lower, lower_case, same_text,
    strip_prefix, strip_suffix, text_of, upper, upper_case,
};

verus! {

/// What a request must be like for a stand-in to answer it.
#[derive(Clone, Debug)]
pub enum Matcher {
    Method(String),
    Path(String),
    Header(String, String),
}

/// What a stand-in answers.
#[derive(Clone, Debug)]
pub struct ResponseTemplate {
    pub status: u16,
    pub body: String,
}

/// A stand-in: an answer, and the requests that get it.
#[derive(Debug)]
pub struct Mock {
    pub matchers: Vec<Matcher>,
    pub response: ResponseTemplate,
}

/// A host for stand-ins.
#[derive(Debug)]
pub struct MockServer {
    pub id: usize,
}

/// What the stand-ins see of a request. The names of the headers are in lower
/// case; a header whose value is no text has no value here.
#[derive(Debug)]
pub struct OutgoingRequest {
    pub host: Option<String>,
    pub method: String,
    pub path: String,
    pub headers: Vec<(String, Option<String>)>,
}

/// A matcher as a value of the model.
pub enum MatcherView {
    Method(Seq<char>),
    Path(Seq<char>),
    Header(Seq<char>, Seq<char>),
}

/// A stand-in as a value of the model.
pub struct MockView {
    pub matchers: Seq<MatcherView>,
    pub status: u16,
    pub body: Seq<char>,
}

/// A request as a value of the model.
pub struct OutgoingView {
    pub host: Option<Seq<char>>,
    pub method: Seq<char>,
    pub path: Seq<char>,
    pub headers: Seq<(Seq<char>, Option<Seq<char>>)>,
}

impl View for Matcher {
    type V = MatcherView;

    open spec fn view(&self) -> MatcherView {
        match *self {
            Matcher::Method(value) => MatcherView::Method(value@),
            Matcher::Path(value) => MatcherView::Path(value@),
            Matcher::Header(name, value) => MatcherView::Header(name@, value@),
        }
    }
}

impl View for Mock {
    type V = MockView;

    open spec fn view(&self) -> MockView {
        MockView {
            matchers: Seq::new(self.matchers@.len(), |i: int| self.matchers@[i]@),
            status: self.response.status,
            body: self.response.body@,
        }
    }
}

impl View for OutgoingRequest {
    type V = OutgoingView;

    open spec fn view(&self) -> OutgoingView {
        OutgoingView {
            host: text_of(self.host),
            method: self.method@,
            path: self.path@,
            headers: Seq::new(
                self.headers@.len(),
                |i: int| (self.headers@[i].0@, text_of(self.headers@[i].1)),
            ),
        }
    }
}

/// The object with two members.
pub open spec fn pair_object(
    first: Seq<char>,
    one: JsonView,
    second: Seq<char>,
    two: JsonView,
) -> JsonView {
    JsonView::Object(Map::empty().insert(first, one).insert(second, two))
}

/// A matcher as it stands in a registry.
pub open spec fn matcher_json(matcher: MatcherView) -> JsonView {
    match matcher {
        MatcherView::Method(value) => pair_object(
            "kind"@,
            JsonView::Text("method"@),
            "value"@,
            JsonView::Text(value),
        ),
        MatcherView::Path(value) => pair_object(
            "kind"@,
            JsonView::Text("path"@),
            "value"@,
            JsonView::Text(value),
        ),
        MatcherView::Header(name, value) => JsonView::Object(
            Map::empty().insert("kind"@, JsonView::Text("header"@)).insert(
                "name"@,
                JsonView::Text(name),
            ).insert("value"@, JsonView::Text(value)),
        ),
    }
}

/// A stand-in as it stands in a registry.
pub open spec fn mock_json(mock: MockView) -> JsonView {
    pair_object(
        "matchers"@,
        JsonView::Array(Seq::new(mock.matchers.len(), |i: int| matcher_json(mock.matchers[i]))),
        "response"@,
        pair_object(
            "status"@,
            JsonView::Number(NumberView::Natural(mock.status as u64)),
            "body"@,
            JsonView::Text(mock.body),
        ),
    )
}

/// The stand-ins in a registry, given what the JSON reader makes of its text;
/// none if it is not an array.
pub open spec fn mounted(decoded: Result<JsonView, Seq<char>>) -> Seq<JsonView> {
    match decoded {
        Ok(JsonView::Array(items)) => items,
        _ => Seq::empty(),
    }
}

/// The text of a member that is a string.
pub open spec fn text_under(value: JsonView, key: Seq<char>) -> Option<Seq<char>> {
    match member(value, key) {
        Some(JsonView::Text(text)) => Some(text),
        _ => None,
    }
}

/// The value of the first header of that name, whatever the case of the name.
pub open spec fn header_value(
    headers: Seq<(Seq<char>, Option<Seq<char>>)>,
    name: Seq<char>,
) -> Option<Seq<char>>
    decreases headers.len(),
{
    if headers.len() == 0 {
        None
    } else if headers.first().0 == name.map_values(|c: char| lower(c)) {
        headers.first().1
    } else {
        header_value(headers.drop_first(), name)
    }
}

/// Whether a request meets one matcher of a registry. A matcher of an unknown
/// kind, or without the text it needs, is met by none.
pub open spec fn meets(matcher: JsonView, request: OutgoingView) -> bool {
    let kind = text_under(matcher, "kind"@);
    let value = text_under(matcher, "value"@);
    if kind == Some("method"@) {
        value == Some(request.method)
    } else if kind == Some("path"@) {
        value == Some(request.path)
    } else if kind == Some("header"@) {
        match text_under(matcher, "name"@) {
            Some(name) => value is Some && header_value(request.headers, name) == value,
            None => false,
        }
    } else {
        false
    }
}

/// Whether a request meets every matcher.
pub open spec fn meets_all(matchers: Seq<JsonView>, request: OutgoingView) -> bool {
    forall|i: int| 0 <= i < matchers.len() ==> meets(#[trigger] matchers[i], request)
}

/// Whether a stand-in of a registry answers a request: it has a list of
/// matchers, and the request meets them all.
pub open spec fn answers(mock: JsonView, request: OutgoingView) -> bool {
    match member(mock, "matchers"@) {
        Some(JsonView::Array(matchers)) => meets_all(matchers, request),
        _ => false,
    }
}

/// The first stand-in that answers a request.
pub open spec fn first_answering(mocks: Seq<JsonView>, request: OutgoingView) -> Option<JsonView>
    decreases mocks.len(),
{
    if mocks.len() == 0 {
        None
    } else if answers(mocks.first(), request) {
        Some(mocks.first())
    } else {
        first_answering(mocks.drop_first(), request)
    }
}

/// The status and the body of a stand-in's answer. The status is taken modulo
/// 2^16; it is 500 where none is given, and the body is empty where none is.
pub open spec fn canned(mock: JsonView) -> (u16, Seq<char>) {
    let response = match member(mock, "response"@) {
        Some(response) => response,
        None => JsonView::Null,
    };
    (
        match member(response, "status"@) {
            Some(JsonView::Number(NumberView::Natural(n))) => (n % 0x1_0000) as u16,
            _ => 500u16,
        },
        match text_under(response, "body"@) {
            Some(body) => body,
            None => Seq::empty(),
        },
    )
}

/// The name under which the registry of a host is kept.
pub open spec fn registry_key(host: Option<Seq<char>>) -> Option<Seq<char>> {
    match host {
        Some(host) => match behind(host, "wiremock-"@) {
            Some(rest) => match before(rest, ".mnemosctl.test"@) {
                Some(id) => Some("MNEMOSCTL_WIREMOCK_"@ + id),
                None => None,
            },
            None => None,
        },
        None => None,
    }
}

/// The answer of a registry that was found, given what the JSON reader makes of
/// its text.
pub open spec fn registry_answer(
    key: Seq<char>,
    decoded: Result<JsonView, Seq<char>>,
    request: OutgoingView,
    context: Seq<char>,
) -> Result<JsonView, FailureView> {
    match decoded {
        Err(error) => Err(other_failure("parse "@ + key + " mock registry: "@ + error)),
        Ok(JsonView::Array(mocks)) => match first_answering(mocks, request) {
            Some(mock) => answer_value(
                context,
                canned(mock).0,
                canned(mock).1,
                json_decoded(canned(mock).1),
            ),
            None => Err(
                other_failure(
                    context + " no mock matched "@ + request.method + " "@ + request.path,
                ),
            ),
        },
        Ok(_) => Err(other_failure(key + " mock registry is not an array"@)),
    }
}

/// Matches the method, whatever its case.
pub fn method(value: &str) -> (r: Matcher)
    ensures
        r@ == MatcherView::Method(value@.map_values(|c: char| upper(c))),
{
    Matcher::Method(upper_case(value))
}

/// Matches the path.
pub fn path(value: &str) -> (r: Matcher)
    ensures
        r@ == MatcherView::Path(value@),
{
    Matcher::Path(value.to_owned())
}

/// Matches the value of a header, whatever the case of its name.
pub fn header(name: &str, value: &str) -> (r: Matcher)
    ensures
        r@ == MatcherView::Header(name@.map_values(|c: char| lower(c)), value@),
{
    Matcher::Header(lower_case(name), value.to_owned())
}

impl ResponseTemplate {
    /// An answer with an empty body.
    pub fn new(status: u16) -> (r: ResponseTemplate)
        ensures
            r.status == status,
            r.body@ == Seq::<char>::empty(),
    {
        ResponseTemplate { status, body: String::new() }
    }

    /// The answer with a JSON value for its body.
    pub fn set_body_json(self, value: &Json) -> (r: ResponseTemplate)
        ensures
            r.status == self.status,
            r.body@ == json_compact(value@),
            survives(value@) ==> is_text_of(r.body@, value@),
    {
        ResponseTemplate { status: self.status, body: encode_json(value) }
    }
}

impl Mock {
    /// A stand-in for the requests that meet one matcher. It answers with an
    /// empty success until told otherwise.
    pub fn given(matcher: Matcher) -> (r: Mock)
        ensures
            r@ == (MockView { matchers: seq![matcher@], status: 200, body: Seq::empty() }),
    {
        let mut matchers: Vec<Matcher> = Vec::new();
        matchers.push(matcher);
        let r = Mock { matchers, response: ResponseTemplate::new(200) };
        assert(r@.matchers =~= seq![matcher@]);
        r
    }

    /// The stand-in for those of its requests that meet one more matcher.
    pub fn and(self, matcher: Matcher) -> (r: Mock)
        ensures
            r@ == (MockView { matchers: self@.matchers.push(matcher@), ..self@ }),
    {
        let mut matchers = self.matchers;
        matchers.push(matcher);
        let r = Mock { matchers, response: self.response };
        assert(r@.matchers =~= self@.matchers.push(matcher@));
        r
    }

    /// The stand-in with another answer.
    pub fn respond_with(self, response: ResponseTemplate) -> (r: Mock)
        ensures
            r@ == (MockView { status: response.status, body: response.body@, ..self@ }),
    {
        let r = Mock { matchers: self.matchers, response };
        assert(r@.matchers =~= self@.matchers);
        r
    }

    /// The text of a registry with this stand-in behind the others, given its
    /// text so far.
    pub fn mount(self, registry: Option<String>) -> (r: String)
        ensures
            ({
                let mocks = match registry {
                    Some(text) => mounted(json_decoded(text@)),
                    None => Seq::empty(),
                };
                let all = JsonView::Array(mocks.push(mock_json(self@)));
                &&& r@ == json_compact(all)
                &&& survives(all) ==> is_text_of(r@, all)
            }),
    {
        let decoded = match registry {
            Some(text) => decode_json(text.as_str()),
            None => Err(String::new()),
        };
        encode_json(&self.mounted_behind(decoded))
    }

    /// The registry with this stand-in behind the others, given what the JSON
    /// reader made of its text so far.
    pub fn mounted_behind(self, registry: Result<Json, String>) -> (r: Json)
        ensures
            r@ == JsonView::Array(mounted(decoded_of(registry)).push(mock_json(self@))),
    {
        let ghost mocks = mounted(decoded_of(registry));
        let mut all: Vec<Json> = match registry {
            Ok(Json::Array(items)) => {
                proof {
                    lemma_array_tree(items);
                }
                items
            },
            _ => {
                let none: Vec<Json> = Vec::new();
                none
            },
        };
        assert(trees(all@) =~= mocks);
        let ghost earlier = all@;
        all.push(self.to_json());
        proof {
            lemma_array_tree(all);
            assert(trees(all@) =~= trees(earlier).push(mock_json(self@)));
        }
        Json::Array(all)
    }

    fn to_json(&self) -> (r: Json)
        ensures
            r@ == mock_json(self@),
    {
        let mut matchers: Vec<Json> = Vec::new();
        for i in 0..self.matchers.len()
            invariant
                matchers@.len() == i,
                forall|j: int|
                    0 <= j < i ==> (#[trigger] matchers@[j])@ == matcher_json(self.matchers@[j]@),
        {
            matchers.push(self.matchers[i].to_json());
        }
        proof {
            lemma_array_tree(matchers);
            assert(trees(matchers@) =~= Seq::new(
                self@.matchers.len(),
                |i: int| matcher_json(self@.matchers[i]),
            ));
        }
        pair(
            "matchers",
            Json::Array(matchers),
            "response",
            pair(
                "status",
                Json::Number(JsonNumber::Natural(self.response.status as u64)),
                "body",
                Json::Text(self.response.body.clone()),
            ),
        )
    }
}

impl Matcher {
    fn to_json(&self) -> (r: Json)
        ensures
            r@ == matcher_json(self@),
    {
        match self {
            Matcher::Method(value) => pair(
                "kind",
                Json::Text("method".to_owned()),
                "value",
                Json::Text(value.clone()),
            ),
            Matcher::Path(value) => pair(
                "kind",
                Json::Text("path".to_owned()),
                "value",
                Json::Text(value.clone()),
            ),
            Matcher::Header(name, value) => {
                broadcast use lemma_member_pushed;

                let mut members: Vec<(String, Json)> = Vec::new();
                members.push(("kind".to_owned(), Json::Text("header".to_owned())));
                members.push(("name".to_owned(), Json::Text(name.clone())));
                members.push(("value".to_owned(), Json::Text(value.clone())));
                assert(members_tree(members@) == matcher_json(self@)->Object_0);
                Json::Object(members)
            },
        }
    }
}

fn pair(first: &str, one: Json, second: &str, two: Json) -> (r: Json)
    ensures
        r@ == pair_object(first@, one@, second@, two@),
{
    broadcast use lemma_member_pushed;

    let mut members: Vec<(String, Json)> = Vec::new();
    members.push((first.to_owned(), one));
    members.push((second.to_owned(), two));
    assert(members_tree(members@) == Map::empty().insert(first@, one@).insert(second@, two@));
    Json::Object(members)
}

/// The text in which a host of stand-ins is written.
pub open spec fn server_host(id: usize) -> Seq<char> {
    "wiremock-"@ + decimal(id as nat) + ".mnemosctl.test"@
}

impl MockServer {
    /// A host with the next identifier.
    pub fn start(next_id: &mut usize) -> (r: MockServer)
        ensures
            r.id == *old(next_id),
            *final(next_id) == (if *old(next_id) == usize::MAX {
                0
            } else {
                *old(next_id) + 1
            }),
    {
        let id = *next_id;
        *next_id = id.wrapping_add(1);
        MockServer { id }
    }

    /// The base URL of the host.
    pub fn uri(&self) -> (r: String)
        ensures
            r@ == "http://"@ + server_host(self.id),
    {
        let r = "http://wiremock-".to_owned().concat(decimal_text(self.id as u64).as_str()).concat(
            ".mnemosctl.test",
        );
        proof {
            reveal_strlit("http://wiremock-");
            reveal_strlit("http://");
            reveal_strlit("wiremock-");
            assert("http://wiremock-"@ =~= "http://"@ + "wiremock-"@);
            assert(r@ =~= "http://"@ + server_host(self.id));
        }
        r
    }

    /// The name under which the registry of the host is kept.
    pub fn env_key(&self) -> (r: String)
        ensures
            r@ == "MNEMOSCTL_WIREMOCK_"@ + decimal(self.id as nat),
    {
        "MNEMOSCTL_WIREMOCK_".to_owned().concat(decimal_text(self.id as u64).as_str())
    }
}

fn text_member_of<'a>(value: &'a Json, key: &str) -> (r: Option<&'a String>)
    ensures
        (match r {
            Some(text) => Some(text@),
            None => None,
        }) == text_under(value@, key@),
{
    match value.get(key) {
        Some(Json::Text(text)) => Some(text),
        _ => None,
    }
}

/// Whether the first header of that name, whatever the case of the name, has the
/// value.
fn header_is(headers: &Vec<(String, Option<String>)>, name: &str, value: &str) -> (r: bool)
    ensures
        r == (header_value(
            Seq::new(headers@.len(), |i: int| (headers@[i].0@, text_of(headers@[i].1))),
            name@,
        ) == Some(value@)),
{
    let wanted = lower_case(name);
    let ghost all = Seq::new(headers@.len(), |i: int| (headers@[i].0@, text_of(headers@[i].1)));
    assert(all.skip(0) =~= all);
    for i in 0..headers.len()
        invariant
            all == Seq::new(headers@.len(), |i: int| (headers@[i].0@, text_of(headers@[i].1))),
            wanted@ == name@.map_values(|c: char| lower(c)),
            header_value(all, name@) == header_value(all.skip(i as int), name@),
    {
        assert(all.skip(i as int).drop_first() =~= all.skip(i + 1));
        if headers[i].0 == wanted {
            return match &headers[i].1 {
                Some(text) => same_text(text.as_str(), value),
                None => false,
            };
        }
    }
    false
}

fn matcher_is_met(matcher: &Json, request: &OutgoingRequest) -> (r: bool)
    ensures
        r == meets(matcher@, request@),
{
    proof {
        reveal_strlit("method");
        reveal_strlit("path");
        reveal_strlit("header");
    }
    let kind = match text_member_of(matcher, "kind") {
        Some(kind) => kind.as_str(),
        None => {
            return false;
        },
    };
    let value = match text_member_of(matcher, "value") {
        Some(value) => value.as_str(),
        None => {
            return false;
        },
    };
    if same_text(kind, "method") {
        same_text(request.method.as_str(), value)
    } else if same_text(kind, "path") {
        same_text(request.path.as_str(), value)
    } else if same_text(kind, "header") {
        match text_member_of(matcher, "name") {
            Some(name) => header_is(&request.headers, name.as_str(), value),
            None => false,
        }
    } else {
        false
    }
}

/// Whether a stand-in of a registry answers a request.
pub fn wiremock_matches(mock: &Json, request: &OutgoingRequest) -> (r: bool)
    ensures
        r == answers(mock@, request@),
{
    let matchers = match mock.get("matchers") {
        Some(field) => match field.as_array() {
            Some(matchers) => matchers,
            None => {
                return false;
            },
        },
        None => {
            return false;
        },
    };
    for i in 0..matchers.len()
        invariant
            member(mock@, "matchers"@) == Some(JsonView::Array(trees(matchers@))),
            forall|j: int| 0 <= j < i ==> meets(#[trigger] trees(matchers@)[j], request@),
    {
        assert(trees(matchers@)[i as int] == matchers@[i as int]@);
        if !matcher_is_met(&matchers[i], request) {
            assert(!meets(trees(matchers@)[i as int], request@));
            return false;
        }
    }
    true
}

/// The status and the body of a stand-in's answer.
fn canned_answer(mock: &Json) -> (r: (u16, String))
    ensures
        (r.0, r.1@) == canned(mock@),
{
    let nothing = Json::Null;
    let response = match mock.get("response") {
        Some(response) => response,
        None => &nothing,
    };
    let status: u16 = match response.get("status") {
        Some(Json::Number(JsonNumber::Natural(n))) => (*n % 0x1_0000) as u16,
        _ => 500,
    };
    let body = match text_member_of(response, "body") {
        Some(body) => body.clone(),
        None => String::new(),
    };
    (status, body)
}

/// The name under which the registry that answers a request is kept, if the
/// request goes to a host of stand-ins.
pub fn wiremock_key(request: &OutgoingRequest) -> (r: Option<String>)
    ensures
        text_of(r) == registry_key(request@.host),
{
    let host = match &request.host {
        Some(host) => host.as_str(),
        None => {
            return None;
        },
    };
    match strip_prefix(host, "wiremock-") {
        Some(rest) => match strip_suffix(rest.as_str(), ".mnemosctl.test") {
            Some(id) => Some("MNEMOSCTL_WIREMOCK_".to_owned().concat(id.as_str())),
            None => None,
        },
        None => None,
    }
}

/// The answer of a registry that was found, given what the JSON reader made of
/// its text.
pub fn answer_from_registry(
    key: &str,
    registry: Result<Json, String>,
    request: &OutgoingRequest,
    context: &str,
) -> (r: Result<Json, JsonRequestError>)
    ensures
        reply_of(r) == registry_answer(key@, decoded_of(registry), request@, context@),
{
    let root = match registry {
        Ok(root) => root,
        Err(error) => {
            return Err(
                JsonRequestError::other(
                    "parse ".to_owned().concat(key).concat(" mock registry: ").concat(
                        error.as_str(),
                    ),
                ),
            );
        },
    };
    let mocks = match root.as_array() {
        Some(mocks) => mocks,
        None => {
            return Err(
                JsonRequestError::other(
                    key.to_owned().concat(" mock registry is not an array"),
                ),
            );
        },
    };
    let ghost all = trees(mocks@);
    assert(all.skip(0) =~= all);
    for i in 0..mocks.len()
        invariant
            all == trees(mocks@),
            decoded_of(registry) == Ok::<JsonView, Seq<char>>(JsonView::Array(all)),
            first_answering(all, request@) == first_answering(all.skip(i as int), request@),
    {
        assert(all[i as int] == mocks@[i as int]@);
        assert(all.skip(i as int).drop_first() =~= all.skip(i + 1));
        if wiremock_matches(&mocks[i], request) {
            let (status, body) = canned_answer(&mocks[i]);
            return read_answer(context, status, body.as_str());
        }
    }
    Err(
        JsonRequestError::other(
            context.to_owned().concat(" no mock matched ").concat(request.method.as_str()).concat(
                " ",
            ).concat(request.path.as_str()),
        ),
    )
}

/// The outcome for a request that may go to a host of stand-ins.
pub open spec fn stand_in_outcome(
    request: OutgoingView,
    registry: Result<Seq<char>, Seq<char>>,
    context: Seq<char>,
) -> Result<Option<JsonView>, FailureView> {
    match registry_key(request.host) {
        None => Ok(None),
        Some(key) => match registry {
            Err(error) => Err(other_failure(context + " has no mounted mock: "@ + error)),
            Ok(text) => match registry_answer(key, json_decoded(text), request, context) {
                Ok(value) => Ok(Some(value)),
                Err(failure) => Err(failure),
            },
        },
    }
}

/// The answer to a request that goes to a host of stand-ins, from the text of the
/// registry of that host or the reason why it cannot be had; no answer to any
/// other request.
pub fn maybe_wiremock_response(
    request: &OutgoingRequest,
    registry: Result<String, String>,
    context: &str,
) -> (r: Result<Option<Json>, JsonRequestError>)
    ensures
        (match r {
            Ok(Some(value)) => Ok(Some(value@)),
            Ok(None) => Ok(None),
            Err(error) => Err(error@),
        }) == stand_in_outcome(
            request@,
            match registry {
                Ok(text) => Ok(text@),
                Err(error) => Err(error@),
            },
            context@,
        ),
{
    let key = match wiremock_key(request) {
        Some(key) => key,
        None => {
            return Ok(None);
        },
    };
    match registry {
        Err(error) => Err(
            JsonRequestError::other(
                context.to_owned().concat(" has no mounted mock: ").concat(error.as_str()),
            ),
        ),
        Ok(text) => match answer_from_registry(
            key.as_str(),
            decode_json(text.as_str()),
            request,
            context,
        ) {
            Ok(value) => Ok(Some(value)),
            Err(error) => Err(error),
        },
    }
}

/// Whether a request meets a matcher.
pub open spec fn holds(matcher: MatcherView, request: OutgoingView) -> bool {
    match matcher {
        MatcherView::Method(value) => request.method == value,
        MatcherView::Path(value) => request.path == value,
        MatcherView::Header(name, value) => header_value(request.headers, name) == Some(value),
    }
}

/// Whether a request meets every matcher of a stand-in.
pub open spec fn holds_all(mock: MockView, request: OutgoingView) -> bool {
    forall|i: int| 0 <= i < mock.matchers.len() ==> holds(#[trigger] mock.matchers[i], request)
}

/// A host of stand-ins keeps its registry under the name that its URL leads to.
pub proof fn server_finds_its_registry(id: usize)
    ensures
        registry_key(Some(server_host(id))) == Some("MNEMOSCTL_WIREMOCK_"@ + decimal(id as nat)),
{
    let host = server_host(id);
    let number = decimal(id as nat);
    let rest = number + ".mnemosctl.test"@;
    assert(host =~= "wiremock-"@ + rest);
    assert(host.skip("wiremock-"@.len() as int) =~= rest);
    assert("wiremock-"@ =~= host.subrange(0, "wiremock-"@.len() as int));
    assert(rest.take(rest.len() - ".mnemosctl.test"@.len()) =~= number);
    assert(".mnemosctl.test"@ =~= rest.subrange(number.len() as int, rest.len() as int));
}

/// A matcher means the same in a registry as outside of it.
pub proof fn matcher_keeps_its_meaning(matcher: MatcherView, request: OutgoingView)
    ensures
        meets(matcher_json(matcher), request) == holds(matcher, request),
{
    reveal_strlit("kind");
    reveal_strlit("value");
    reveal_strlit("name");
    reveal_strlit("method");
    reveal_strlit("path");
    reveal_strlit("header");
    assert("kind"@[0] != "name"@[0]);
    assert("method"@[0] != "header"@[0]);
    assert("kind"@.len() != "value"@.len());
    assert("name"@.len() != "value"@.len());
    assert("method"@.len() != "path"@.len());
    assert("header"@.len() != "path"@.len());
}

/// The members of a stand-in's entry in a registry.
proof fn lemma_mock_members(mock: MockView)
    ensures
        member(mock_json(mock), "matchers"@) == Some(
            JsonView::Array(Seq::new(mock.matchers.len(), |i: int| matcher_json(mock.matchers[i]))),
        ),
        canned(mock_json(mock)) == (mock.status, mock.body),
{
    reveal_strlit("matchers");
    reveal_strlit("response");
    reveal_strlit("status");
    reveal_strlit("body");
    assert("matchers"@[0] != "response"@[0]);
    assert("status"@.len() != "body"@.len());
}

/// A stand-in behind others answers, with the status and the body it was given,
/// the requests that meet its matchers and that none of the others answers; it
/// takes no request from them.
pub proof fn mounted_mock_answers(mocks: Seq<JsonView>, mock: MockView, request: OutgoingView)
    ensures
        first_answering(mocks.push(mock_json(mock)), request) == (match first_answering(
            mocks,
            request,
        ) {
            Some(earlier) => Some(earlier),
            None => if holds_all(mock, request) {
                Some(mock_json(mock))
            } else {
                None
            },
        }),
        canned(mock_json(mock)) == (mock.status, mock.body),
    decreases mocks.len(),
{
    lemma_mock_members(mock);
    let all = mocks.push(mock_json(mock));
    if mocks.len() == 0 {
        let matchers = Seq::new(mock.matchers.len(), |i: int| matcher_json(mock.matchers[i]));
        assert forall|i: int| 0 <= i < matchers.len() implies meets(#[trigger] matchers[i], request)
            == holds(mock.matchers[i], request) by {
            matcher_keeps_its_meaning(mock.matchers[i], request);
        }
        if meets_all(matchers, request) {
            assert forall|i: int| 0 <= i < mock.matchers.len() implies holds(
                #[trigger] mock.matchers[i],
                request,
            ) by {
                assert(meets(matchers[i], request));
            }
        } else if holds_all(mock, request) {
            assert forall|i: int| 0 <= i < matchers.len() implies meets(
                #[trigger] matchers[i],
                request,
            ) by {
                assert(holds(mock.matchers[i], request));
            }
        }
        assert(all.first() == mock_json(mock));
        assert(all.drop_first() =~= Seq::empty());
        assert(first_answering(Seq::empty(), request) is None);
    } else {
        assert(all.first() == mocks.first());
        assert(all.drop_first() =~= mocks.drop_first().push(mock_json(mock)));
        mounted_mock_answers(mocks.drop_first(), mock, request);
    }
}

/// A registry whose text comes back unchanged still does so with one stand-in
/// more: mounting loses none.
pub proof fn mounting_keeps_the_registry(mocks: Seq<JsonView>, mock: MockView)
    requires
        survives(JsonView::Array(mocks)),
    ensures
        survives(JsonView::Array(mocks.push(mock_json(mock)))),
{
    assert forall|i: int| 0 <= i < mocks.len() implies plain_within(#[trigger] mocks[i], 126) by {
        assert(JsonView::Array(mocks)->Array_0[i] == mocks[i]);
    }
    reveal_with_fuel(plain_within, 2);
    let all = mocks.push(mock_json(mock));
    let matchers = Seq::new(mock.matchers.len(), |i: int| matcher_json(mock.matchers[i]));
    assert forall|i: int| 0 <= i < matchers.len() implies plain_within(
        #[trigger] matchers[i],
        124,
    ) by {}
    assert(plain_within(JsonView::Array(matchers), 125));
    let entry = mock_json(mock);
    let response = pair_object(
        "status"@,
        JsonView::Number(NumberView::Natural(mock.status as u64)),
        "body"@,
        JsonView::Text(mock.body),
    );
    assert(plain_within(response, 125));
    assert(plain_within(entry, 126));
    assert forall|i: int| 0 <= i < all.len() implies plain_within(#[trigger] all[i], 126) by {
        if i < mocks.len() {
            assert(plain_within(mocks[i], 126));
        }
    }
}

/// What was mounted is served: from the registry that `mount` writes, a request
/// to the host that meets the matchers, and that no earlier stand-in answers,
/// gets the answer it was mounted with.
pub proof fn mounted_mock_is_served(
    id: usize,
    mocks: Seq<JsonView>,
    mock: MockView,
    text: Seq<char>,
    request: OutgoingView,
    context: Seq<char>,
)
    requires
        is_text_of(text, JsonView::Array(mocks.push(mock_json(mock)))),
        request.host == Some(server_host(id)),
        holds_all(mock, request),
        first_answering(mocks, request) is None,
    ensures
        stand_in_outcome(request, Ok(text), context) == (match answer_value(
            context,
            mock.status,
            mock.body,
            json_decoded(mock.body),
        ) {
            Ok(value) => Ok(Some(value)),
            Err(failure) => Err(failure),
        }),
{
    server_finds_its_registry(id);
    mounted_mock_answers(mocks, mock, request);
}

/// The value that was mounted is what the client gets: a stand-in with a status
/// of success, and with the text of a value as `set_body_json` writes it, gives
/// that value to a request that meets its matchers and that no earlier stand-in
/// answers.
pub proof fn mounted_value_is_served(
    id: usize,
    mocks: Seq<JsonView>,
    mock: MockView,
    value: JsonView,
    text: Seq<char>,
    request: OutgoingView,
    context: Seq<char>,
)
    requires
        is_success(mock.status),
        is_text_of(mock.body, value),
        is_text_of(text, JsonView::Array(mocks.push(mock_json(mock)))),
        request.host == Some(server_host(id)),
        holds_all(mock, request),
        first_answering(mocks, request) is None,
    ensures
        stand_in_outcome(request, Ok(text), context) == Ok::<Option<JsonView>, FailureView>(
            Some(value),
        ),
{
    mounted_mock_is_served(id, mocks, mock, text, request, context);
}

/// A request to any other host is left alone, whatever the registry.
pub proof fn other_hosts_are_left_alone(
    request: OutgoingView,
    registry: Result<Seq<char>, Seq<char>>,
    context: Seq<char>,
)
    requires
        registry_key(request.host) is None,
    ensures
        stand_in_outcome(request, registry, context) == Ok::<Option<JsonView>, FailureView>(None),
{
}

/// A header is looked up by its name, whatever the case of ASCII letters in it; the
/// first header of that name counts, with its whole value.
pub proof fn first_header_of_a_name_counts(
    headers: Seq<(Seq<char>, Option<Seq<char>>)>,
    name: Seq<char>,
)
    ensures
        ({
            let wanted = Seq::new(name.len(), |i: int| lower(name[i]));
            &&& forall|i: int|
                #![trigger headers[i]]
                0 <= i < headers.len() && headers[i].0 == wanted && (forall|j: int|
                    0 <= j < i ==> (#[trigger] headers[j]).0 != wanted) ==> header_value(
                    headers,
                    name,
                ) == headers[i].1
            &&& (forall|i: int| 0 <= i < headers.len() ==> (#[trigger] headers[i]).0 != wanted)
                ==> header_value(headers, name) is None
        }),
    decreases headers.len(),
{
    let wanted = Seq::new(name.len(), |i: int| lower(name[i]));
    assert(name.map_values(|c: char| lower(c)) =~= wanted);
    if headers.len() > 0 {
        let rest = headers.drop_first();
        first_header_of_a_name_counts(rest, name);
        assert forall|i: int|
            #![trigger headers[i]]
            0 <= i < headers.len() && headers[i].0 == wanted && (forall|j: int|
                0 <= j < i ==> (#[trigger] headers[j]).0 != wanted) implies header_value(
            headers,
            name,
        ) == headers[i].1 by {
            if i > 0 {
                assert(headers[0].0 != wanted);
                assert(rest[i - 1] == headers[i]);
                assert forall|j: int| 0 <= j < i - 1 implies (#[trigger] rest[j]).0 != wanted by {
                    assert(headers[j + 1].0 != wanted);
                }
            }
        }
        if forall|i: int| 0 <= i < headers.len() ==> (#[trigger] headers[i]).0 != wanted {
            assert(headers[0].0 != wanted);
            assert forall|i: int| 0 <= i < rest.len() implies (#[trigger] rest[i]).0 != wanted by {
                assert(headers[i + 1].0 != wanted);
            }
        }
    }
}

/// A matcher of a registry is met by a request with that method, with that path, or
/// with that value of a header, as its kind says, and by no other; a matcher of
/// another kind, or without a text that it needs, by none.
pub proof fn matchers_are_met_by_what_they_name(matcher: JsonView, request: OutgoingView)
    ensures
        ({
            let kind = member(matcher, "kind"@);
            let value = member(matcher, "value"@);
            let name = member(matcher, "name"@);
            &&& kind == Some(JsonView::Text("method"@)) ==> (meets(matcher, request) <==> value
                == Some(JsonView::Text(request.method)))
            &&& kind == Some(JsonView::Text("path"@)) ==> (meets(matcher, request) <==> value
                == Some(JsonView::Text(request.path)))
            &&& kind == Some(JsonView::Text("header"@)) ==> (meets(matcher, request) <==> (
            name matches Some(JsonView::Text(text)) && header_value(request.headers, text) is Some
                && value == Some(JsonView::Text(header_value(request.headers, text)->0))))
            &&& kind != Some(JsonView::Text("method"@)) && kind != Some(JsonView::Text("path"@))
                && kind != Some(JsonView::Text("header"@)) ==> !meets(matcher, request)
        }),
{
    reveal_strlit("method");
    reveal_strlit("path");
    reveal_strlit("header");
    assert("method"@[0] != "header"@[0]);
    assert("method"@.len() != "path"@.len());
    assert("header"@.len() != "path"@.len());
}

/// A matcher that is made is met by the requests it was made for.
pub proof fn matchers_hold_of_what_they_name(
    value: Seq<char>,
    name: Seq<char>,
    request: OutgoingView,
)
    ensures
        holds(MatcherView::Method(value), request) <==> request.method == value,
        holds(MatcherView::Path(value), request) <==> request.path == value,
        holds(MatcherView::Header(name, value), request) <==> header_value(request.headers, name)
            == Some(value),
{
}

/// A stand-in answers exactly the requests that meet every one of its matchers, and
/// only if it has a list of them.
pub proof fn stand_ins_answer_what_they_match(
    mock: JsonView,
    request: OutgoingView,
    matchers: Seq<JsonView>,
)
    ensures
        member(mock, "matchers"@) == Some(JsonView::Array(matchers)) ==> (answers(mock, request)
            <==> forall|i: int| 0 <= i < matchers.len() ==> meets(#[trigger] matchers[i], request)),
        (member(mock, "matchers"@) is None || !(member(mock, "matchers"@)->0 is Array))
            ==> !answers(mock, request),
{
}

/// Of several stand-ins the first that answers a request does.
pub proof fn first_stand_in_answers(mocks: Seq<JsonView>, request: OutgoingView)
    ensures
        forall|i: int|
            #![trigger mocks[i]]
            0 <= i < mocks.len() && answers(mocks[i], request) && (forall|j: int|
                0 <= j < i ==> !answers(#[trigger] mocks[j], request)) ==> first_answering(
                mocks,
                request,
            ) == Some(mocks[i]),
        (forall|i: int| 0 <= i < mocks.len() ==> !answers(#[trigger] mocks[i], request))
            ==> first_answering(mocks, request) is None,
    decreases mocks.len(),
{
    if mocks.len() > 0 {
        let rest = mocks.drop_first();
        first_stand_in_answers(rest, request);
        assert forall|i: int|
            #![trigger mocks[i]]
            0 <= i < mocks.len() && answers(mocks[i], request) && (forall|j: int|
                0 <= j < i ==> !answers(#[trigger] mocks[j], request)) implies first_answering(
            mocks,
            request,
        ) == Some(mocks[i]) by {
            if i > 0 {
                assert(!answers(mocks[0], request));
                assert(rest[i - 1] == mocks[i]);
                assert forall|j: int| 0 <= j < i - 1 implies !answers(
                    #[trigger] rest[j],
                    request,
                ) by {
                    assert(!answers(mocks[j + 1], request));
                }
            }
        }
        if forall|i: int| 0 <= i < mocks.len() ==> !answers(#[trigger] mocks[i], request) {
            assert(!answers(mocks[0], request));
            assert forall|i: int| 0 <= i < rest.len() implies !answers(
                #[trigger] rest[i],
                request,
            ) by {
                assert(!answers(mocks[i + 1], request));
            }
        }
    }
}

/// The answer of a stand-in has the status and the whole body under `response`: the
/// status modulo 2^16, or 500 if there is none, and no text if there is no body.
pub proof fn canned_answer_is_the_response(mock: JsonView, response: JsonView)
    requires
        member(mock, "response"@) == Some(response),
    ensures
        member(response, "status"@) matches Some(JsonView::Number(NumberView::Natural(n)))
            ==> canned(mock).0 as int == n as int % 0x1_0000,
        !(member(response, "status"@) matches Some(JsonView::Number(NumberView::Natural(_))))
            ==> canned(mock).0 == 500,
        member(response, "body"@) matches Some(JsonView::Text(body)) ==> canned(mock).1 == body,
        !(member(response, "body"@) matches Some(JsonView::Text(_))) ==> canned(mock).1.len() == 0,
{
}

/// A stand-in without a response answers with status 500 and no text.
pub proof fn missing_response_is_an_error(mock: JsonView)
    requires
        member(mock, "response"@) is None,
    ensures
        canned(mock).0 == 500,
        canned(mock).1.len() == 0,
{
}

/// A stand-in is written into a registry with all its matchers, in order, each with
/// its kind and the texts it was made with, and with its status and its body.
pub proof fn stand_ins_are_written_in_full(
    mock: MockView,
    value: Seq<char>,
    name: Seq<char>,
)
    ensures
        ({
            let entry = mock_json(mock);
            &&& member(entry, "matchers"@) is Some && member(entry, "matchers"@)->0 is Array
            &&& member(entry, "matchers"@)->0->Array_0.len() == mock.matchers.len()
            &&& forall|i: int|
                0 <= i < mock.matchers.len() ==> #[trigger] member(
                    entry,
                    "matchers"@,
                )->0->Array_0[i] == matcher_json(mock.matchers[i])
            &&& member(entry, "response"@) is Some
            &&& member(member(entry, "response"@)->0, "status"@) == Some(
                JsonView::Number(NumberView::Natural(mock.status as u64)),
            )
            &&& member(member(entry, "response"@)->0, "body"@) == Some(JsonView::Text(mock.body))
            &&& forall|key: Seq<char>|
                #[trigger]
                member(entry, key) is Some ==> key == "matchers"@ || key == "response"@
            &&& forall|key: Seq<char>|
                #[trigger]
                member(member(entry, "response"@)->0, key) is Some ==> key == "status"@ || key
                    == "body"@
        }),
        forall|matcher: MatcherView, key: Seq<char>|
            #[trigger]
            member(matcher_json(matcher), key) is Some ==> key == "kind"@ || key == "value"@ || (
            matcher is Header && key == "name"@),
        member(matcher_json(MatcherView::Method(value)), "kind"@) == Some(
            JsonView::Text("method"@),
        ),
        member(matcher_json(MatcherView::Method(value)), "value"@) == Some(JsonView::Text(value)),
        member(matcher_json(MatcherView::Path(value)), "kind"@) == Some(JsonView::Text("path"@)),
        member(matcher_json(MatcherView::Path(value)), "value"@) == Some(JsonView::Text(value)),
        member(matcher_json(MatcherView::Header(name, value)), "kind"@) == Some(
            JsonView::Text("header"@),
        ),
        member(matcher_json(MatcherView::Header(name, value)), "name"@) == Some(
            JsonView::Text(name),
        ),
        member(matcher_json(MatcherView::Header(name, value)), "value"@) == Some(
            JsonView::Text(value),
        ),
{
    reveal_strlit("kind");
    reveal_strlit("value");
    reveal_strlit("name");
    reveal_strlit("matchers");
    reveal_strlit("response");
    reveal_strlit("status");
    reveal_strlit("body");
    assert("kind"@[0] != "name"@[0]);
    assert("kind"@.len() != "value"@.len());
    assert("name"@.len() != "value"@.len());
    assert("matchers"@[0] != "response"@[0]);
    assert("status"@.len() != "body"@.len());
}

/// The stand-ins of a registry are all the items of the array that its text is; the
/// text of anything else has none.
pub proof fn registry_is_taken_whole(decoded: Result<JsonView, Seq<char>>)
    ensures
        decoded is Ok && decoded->Ok_0 is Array ==> mounted(decoded) == decoded->Ok_0->Array_0,
        decoded is Err || !(decoded->Ok_0 is Array) ==> mounted(decoded).len() == 0,
{
}

/// The hosts of stand-ins are those of the form `wiremock-<id>.mnemosctl.test`, and
/// the registry of each is kept under `MNEMOSCTL_WIREMOCK_<id>`, with the whole of
/// the identifier.
pub proof fn hosts_lead_to_their_registries(id: Seq<char>, host: Seq<char>)
    ensures
        registry_key(Some("wiremock-"@ + (id + ".mnemosctl.test"@))) == Some(
            "MNEMOSCTL_WIREMOCK_"@ + id,
        ),
        registry_key(Some(host)) is Some ==> exists|part: Seq<char>|
            host == "wiremock-"@ + #[trigger] (part + ".mnemosctl.test"@) && registry_key(Some(host))
                == Some("MNEMOSCTL_WIREMOCK_"@ + part),
        registry_key(None) is None,
{
    affixes_are_cut_off(id + ".mnemosctl.test"@, "wiremock-"@);
    affixes_are_cut_off(id, ".mnemosctl.test"@);
    affixes_are_cut_off(host, "wiremock-"@);
    if registry_key(Some(host)) is Some {
        let rest = behind(host, "wiremock-"@)->0;
        affixes_are_cut_off(rest, ".mnemosctl.test"@);
        let part = before(rest, ".mnemosctl.test"@)->0;
        assert(host == "wiremock-"@ + (part + ".mnemosctl.test"@));
    }
}

/// What comes of a request to a host of stand-ins: the failure that says why there
/// is no registry, or why it cannot be read, or that none of its stand-ins matched;
/// or else what the answer of the first that matched means.
pub proof fn stand_in_outcomes_are_told(
    request: OutgoingView,
    text: Seq<char>,
    error: Seq<char>,
    context: Seq<char>,
    mocks: Seq<JsonView>,
)
    requires
        registry_key(request.host) is Some,
    ensures
        ({
            let key = registry_key(request.host)->0;
            let none = stand_in_outcome(request, Err(error), context);
            let some = stand_in_outcome(request, Ok(text), context);
            let decoded = json_decoded(text);
            &&& none is Err && none->Err_0.status is None && none->Err_0.message == context
                + " has no mounted mock: "@ + error
            &&& decoded is Err ==> some is Err && some->Err_0.status is None
                && some->Err_0.message == "parse "@ + key + " mock registry: "@ + decoded->Err_0
            &&& decoded is Ok && !(decoded->Ok_0 is Array) ==> some is Err
                && some->Err_0.status is None && some->Err_0.message == key
                + " mock registry is not an array"@
            &&& decoded is Ok && decoded->Ok_0 == JsonView::Array(mocks) && first_answering(
                mocks,
                request,
            ) is None ==> some is Err && some->Err_0.status is None && some->Err_0.message
                == context + " no mock matched "@ + request.method + " "@ + request.path
            &&& decoded is Ok && decoded->Ok_0 == JsonView::Array(mocks) && first_answering(
                mocks,
                request,
            ) is Some ==> ({
                let mock = first_answering(mocks, request)->0;
                let answer = answer_value(
                    context,
                    canned(mock).0,
                    canned(mock).1,
                    json_decoded(canned(mock).1),
                );
                &&& answer is Ok ==> some is Ok && some->Ok_0 == Some(answer->Ok_0)
                &&& answer is Err ==> some is Err && some->Err_0 == answer->Err_0
            })
        }),
{
}

/// Matchers, stand-ins and requests in the model are what they are, in full.
pub proof fn stand_ins_are_kept(matcher: Matcher, mock: Mock, request: OutgoingRequest)
    ensures
        matcher matches Matcher::Method(value) ==> matcher@ == MatcherView::Method(value@),
        matcher matches Matcher::Path(value) ==> matcher@ == MatcherView::Path(value@),
        matcher matches Matcher::Header(name, value) ==> matcher@ == MatcherView::Header(
            name@,
            value@,
        ),
        mock@.matchers.len() == mock.matchers@.len(),
        forall|i: int|
            0 <= i < mock.matchers@.len() ==> #[trigger] mock@.matchers[i] == mock.matchers@[i]@,
        mock@.status == mock.response.status,
        mock@.body == mock.response.body@,
        request@.host is Some <==> request.host is Some,
        request.host is Some ==> request@.host->0 == request.host->0@,
        request@.method == request.method@,
        request@.path == request.path@,
        request@.headers.len() == request.headers@.len(),
        forall|i: int|
            #![trigger request@.headers[i]]
            0 <= i < request.headers@.len() ==> {
                &&& request@.headers[i].0 == request.headers@[i].0@
                &&& request@.headers[i].1 is Some <==> request.headers@[i].1 is Some
                &&& request.headers@[i].1 is Some ==> request@.headers[i].1->0
                    == request.headers@[i].1->0@
            },
{
}

/// The text of a host is its identifier in decimal between two fixed parts.
pub proof fn hosts_are_numbered(id: usize)
    ensures
        server_host(id) == "wiremock-"@ + decimal(id as nat) + ".mnemosctl.test"@,
{
}

} // verus!
