//! What clients ask for, and what they are told.
use crate::json::{json_null, json_set, json_text, json_view, Json};
use crate::ping::{host_and_port, result_view, with_port, Failure, PingError};
use crate::text::{decimal, is_digit, law_decimal_round_trip, option_view};
use vstd::prelude::*;

verus! {

/// What a client asks for. `id` is the client's own mark for the request.
#[derive(Debug)]
pub enum Request {
    Ping {
        address: String,
        port: Option<u16>,
        bedrock: bool,
        srv_prefix: Option<String>,
        id: Option<String>,
    },
    Subscribe {
        address: String,
        port: Option<u16>,
        bedrock: bool,
        srv_prefix: Option<String>,
        id: Option<String>,
    },
    Unsubscribe { address: String, port: Option<u16>, bedrock: bool, id: Option<String> },
}

impl Request {
    /// The client's mark for the request.
    pub open spec fn mark(self) -> Option<Seq<char>> {
        match self {
            Request::Ping { id, .. } => option_view(id),
            Request::Subscribe { id, .. } => option_view(id),
            Request::Unsubscribe { id, .. } => option_view(id),
        }
    }
}

/// How many players are on a server, and how many fit.
#[derive(Debug, Clone, Copy, PartialEq, Eq, Structural)]
pub struct Players {
    pub online: i32,
    pub max: i32,
}

/// What one ping of a subscribed server has shown.
#[derive(Debug, Clone)]
pub struct LatencyUpdate {
    pub server: String,
    pub latency: Option<u64>,
    pub players: Option<Players>,
    pub error: Option<String>,
}

/// What a `LatencyUpdate` holds.
pub struct UpdateView {
    pub server: Seq<char>,
    pub latency: Option<u64>,
    pub players: Option<Players>,
    pub error: Option<Seq<char>>,
}

impl View for LatencyUpdate {
    type V = UpdateView;

    open spec fn view(&self) -> UpdateView {
        UpdateView {
            server: self.server@,
            latency: self.latency,
            players: self.players,
            error: option_view(self.error),
        }
    }
}

/// What a client is told, with the mark of the request that it belongs to.
#[derive(Debug)]
pub struct Response {
    pub id: Option<String>,
    pub data: ResponseData,
}

/// What a client is told.
#[derive(Debug)]
pub enum ResponseData {
    Ping { result: serde_json::Value },
    Latency { update: LatencyUpdate },
    Subscribed { subscribed: String },
    Unsubscribed { unsubscribed: String },
    Error { error: String },
}

/// What a `Response` holds.
pub struct ResponseView {
    pub id: Option<Seq<char>>,
    pub data: ResponseDataView,
}

/// What a `ResponseData` holds.
pub enum ResponseDataView {
    Ping { result: Json },
    Latency { update: UpdateView },
    Subscribed { subscribed: Seq<char> },
    Unsubscribed { unsubscribed: Seq<char> },
    Error { error: Seq<char> },
}

impl View for Response {
    type V = ResponseView;

    open spec fn view(&self) -> ResponseView {
        ResponseView { id: option_view(self.id), data: self.data@ }
    }
}

impl View for ResponseData {
    type V = ResponseDataView;

    open spec fn view(&self) -> ResponseDataView {
        match self {
            ResponseData::Ping { result } => ResponseDataView::Ping { result: json_view(*result) },
            ResponseData::Latency { update } => ResponseDataView::Latency { update: update@ },
            ResponseData::Subscribed { subscribed } => ResponseDataView::Subscribed {
                subscribed: subscribed@,
            },
            ResponseData::Unsubscribed { unsubscribed } => ResponseDataView::Unsubscribed {
                unsubscribed: unsubscribed@,
            },
            ResponseData::Error { error } => ResponseDataView::Error { error: error@ },
        }
    }
}

/// The port that a request means: the usual one of the edition where it names none.
pub open spec fn port_meant(port: Option<u16>, bedrock: bool) -> u16 {
    match port {
        Some(port) => port,
        None => if bedrock {
            19132
        } else {
            25565
        },
    }
}

/// The prefix of service records that a request means.
pub open spec fn prefix_meant(srv_prefix: Option<Seq<char>>) -> Seq<char> {
    match srv_prefix {
        Some(prefix) => prefix,
        None => "_minecraft._tcp"@,
    }
}

/// A truth value in words.
pub open spec fn truth(value: bool) -> Seq<char> {
    if value {
        "true"@
    } else {
        "false"@
    }
}

/// The key by which a server is known: its address, port and edition.
pub open spec fn server_key(address: Seq<char>, port: u16, bedrock: bool) -> Seq<char> {
    host_and_port(address, port) + ":"@ + truth(bedrock)
}

/// The port that a request means.
pub fn port_or_default(port: Option<u16>, bedrock: bool) -> (meant: u16)
    ensures
        meant == port_meant(port, bedrock),
{
    match port {
        Some(port) => port,
        None => if bedrock {
            19132
        } else {
            25565
        },
    }
}

/// The prefix of service records that a request means.
pub fn prefix_or_default(srv_prefix: Option<String>) -> (meant: String)
    ensures
        meant@ == prefix_meant(option_view(srv_prefix)),
{
    match srv_prefix {
        Some(prefix) => prefix,
        None => "_minecraft._tcp".to_owned(),
    }
}

/// The key by which a server is known.
pub fn key_of(address: &str, port: u16, bedrock: bool) -> (key: String)
    ensures
        key@ == server_key(address@, port, bedrock),
{
    let key = with_port(address, port).concat(":");
    if bedrock {
        key.concat("true")
    } else {
        key.concat("false")
    }
}

/// The response to a text that is no request, with what is wrong with it.
pub open spec fn invalid_response(problem: Seq<char>) -> ResponseView {
    ResponseView {
        id: None,
        data: ResponseDataView::Error {
            error: "Invalid JSON: "@ + problem
                + ". Expected: {\"action\":\"ping|subscribe|unsubscribe\",\"address\":\"...\",\"port\":25565,\"bedrock\":false,\"id\":\"...(optional)\"}"@,
        },
    }
}

/// The response to a text that is no request, with what is wrong with it.
pub fn invalid_request(problem: &str) -> (response: Response)
    ensures
        response@ == invalid_response(problem@),
        response@ == (ResponseView {
            id: None,
            data: ResponseDataView::Error {
                error: "Invalid JSON: "@ + problem@
                    + ". Expected: {\"action\":\"ping|subscribe|unsubscribe\",\"address\":\"...\",\"port\":25565,\"bedrock\":false,\"id\":\"...(optional)\"}"@,
            },
        }),
{
    let error = "Invalid JSON: ".to_owned().concat(problem).concat(
        ". Expected: {\"action\":\"ping|subscribe|unsubscribe\",\"address\":\"...\",\"port\":25565,\"bedrock\":false,\"id\":\"...(optional)\"}",
    );
    Response { id: None, data: ResponseData::Error { error } }
}

/// What a client is shown of a ping: the document, or one that holds only the failure.
pub open spec fn ping_document(result: Result<Json, Failure>) -> Json {
    match result {
        Ok(document) => document,
        Err(failure) => Json::Object(map!["error"@ => Json::Text(failure.message())]),
    }
}

/// The response to a request for a ping.
pub open spec fn response_to_ping(
    id: Option<Seq<char>>,
    result: Result<Json, Failure>,
) -> ResponseView {
    ResponseView { id, data: ResponseDataView::Ping { result: ping_document(result) } }
}

/// The response to a request for a ping.
pub fn ping_response(id: Option<String>, result: Result<serde_json::Value, PingError>) -> (response:
    Response)
    ensures
        response@ == response_to_ping(option_view(id), result_view(result)),
        response@ == (ResponseView {
            id: option_view(id),
            data: ResponseDataView::Ping { result: ping_document(result_view(result)) },
        }),
{
    let result = match result {
        Ok(document) => document,
        Err(error) => {
            let mut document = json_null();
            json_set(&mut document, "error", json_text(&error.message()));
            document
        },
    };
    Response { id, data: ResponseData::Ping { result } }
}

proof fn lemma_decimal_is_digits(n: nat)
    ensures
        forall|i: int| 0 <= i < decimal(n).len() ==> is_digit(#[trigger] decimal(n)[i]),
{
    law_decimal_round_trip(n);
}

proof fn lemma_host_and_port_injective(a: Seq<char>, p: u16, b: Seq<char>, q: u16)
    requires
        host_and_port(a, p) == host_and_port(b, q),
    ensures
        a == b,
        p == q,
{
    reveal_strlit(":");
    let text = host_and_port(a, p);
    let (dp, dq) = (decimal(p as nat), decimal(q as nat));
    lemma_decimal_is_digits(p as nat);
    lemma_decimal_is_digits(q as nat);
    assert(text.len() == a.len() + 1 + dp.len());
    assert(text.len() == b.len() + 1 + dq.len());
    assert(text[a.len() as int] == ':');
    assert(text[b.len() as int] == ':');
    if dp.len() < dq.len() {
        assert(text[a.len() as int] == dq[a.len() - b.len() - 1]);
    } else if dq.len() < dp.len() {
        assert(text[b.len() as int] == dp[b.len() - a.len() - 1]);
    }
    assert(a =~= text.take(a.len() as int));
    assert(b =~= text.take(b.len() as int));
    assert(dp =~= text.skip(a.len() as int + 1));
    assert(dq =~= text.skip(b.len() as int + 1));
    law_decimal_round_trip(p as nat);
    law_decimal_round_trip(q as nat);
}

/// Two servers have the same key only if they are the same: address, port and edition.
pub proof fn law_key_names_one_server(
    a: Seq<char>,
    p: u16,
    a_bedrock: bool,
    b: Seq<char>,
    q: u16,
    b_bedrock: bool,
)
    requires
        server_key(a, p, a_bedrock) == server_key(b, q, b_bedrock),
    ensures
        a == b,
        p == q,
        a_bedrock == b_bedrock,
{
    reveal_strlit(":");
    reveal_strlit("true");
    reveal_strlit("false");
    let key = server_key(a, p, a_bedrock);
    let (head_a, head_b) = (host_and_port(a, p), host_and_port(b, q));
    let n = key.len() as int;
    assert(a_bedrock ==> key[n - 5] == ':');
    assert(!a_bedrock ==> key[n - 5] == 'f');
    assert(b_bedrock ==> key[n - 5] == ':');
    assert(!b_bedrock ==> key[n - 5] == 'f');
    assert(head_a =~= key.take(n - 1 - truth(a_bedrock).len()));
    assert(head_b =~= key.take(n - 1 - truth(b_bedrock).len()));
    lemma_host_and_port_injective(a, p, b, q);
}

/// A port that a request names is the one it means; one that names none means 19132 for a server of
/// the Bedrock edition and 25565 for one of the Java edition.
pub proof fn law_port_meant(port: u16)
    ensures
        port_meant(Some(port), true) == port,
        port_meant(Some(port), false) == port,
        port_meant(None, true) == 19132,
        port_meant(None, false) == 25565,
{
}

/// A prefix that a request names is the one it means, and the usual one otherwise.
pub proof fn law_prefix_meant(prefix: Seq<char>)
    ensures
        prefix_meant(Some(prefix)) == prefix,
        prefix_meant(None) == "_minecraft._tcp"@,
{
}

/// The key of a server is its address, its port in decimal and whether it is of the Bedrock
/// edition, with colons between them.
pub proof fn law_server_key(address: Seq<char>, port: u16)
    ensures
        server_key(address, port, true) == address + ":"@ + decimal(port as nat) + ":"@ + "true"@,
        server_key(address, port, false) == address + ":"@ + decimal(port as nat) + ":"@ + "false"@,
{
}

/// Who sends something that is no request is told what is wrong with it and what was expected, under
/// no mark.
pub proof fn law_invalid_request(problem: Seq<char>)
    ensures
        invalid_response(problem).id is None,
        invalid_response(problem).data is Error,
        invalid_response(problem).data->error == "Invalid JSON: "@ + problem
            + ". Expected: {\"action\":\"ping|subscribe|unsubscribe\",\"address\":\"...\",\"port\":25565,\"bedrock\":false,\"id\":\"...(optional)\"}"@,
{
}

/// The response to a ping carries the mark of its request, and the document where there is one;
/// where the ping failed, an object whose only member says why.
pub proof fn law_ping_is_answered(
    id: Option<Seq<char>>,
    result: Result<Json, Failure>,
    key: Seq<char>,
)
    ensures
        response_to_ping(id, result).id == id,
        response_to_ping(id, result).data is Ping,
        ({
            let shown = response_to_ping(id, result).data->result;
            match result {
                Ok(document) => shown == document,
                Err(failure) => shown is Object && shown.member("error"@) == Some(
                    Json::Text(failure.message()),
                ) && (key != "error"@ ==> shown.member(key) is None),
            }
        }),
{
}

} // verus!
