use vstd::prelude::*;
use vstd::string::StringExecFns;

use crate::merge::lookup;
use crate::tree::{entries_model, items_model, lemma_array_view, lemma_object_view, Json, Tree};

verus! {

broadcast use {vstd::std_specs::vec::group_vec_axioms, vstd::seq::group_seq_axioms};

/// Why one attempt at a session with the upstream feed failed.
#[derive(Debug, PartialEq, Eq, Structural)]
pub enum ClientError {
    /// The negotiate call failed, its body held no token, or no cookie came back.
    Negotiation,
    /// The WebSocket handshake failed.
    Connect,
    /// The stream closed before a response to the subscription arrived.
    NoResponse,
    /// The response to the subscription carried no result.
    NoResult,
}

/// The body of a negotiate response.
pub struct NegotiationResponse {
    pub connection_token: String,
}

/// What a successful negotiation hands on to the connect step.
pub struct Negotiation {
    pub token: String,
    pub cookie: String,
}

/// One decoded item of a push frame.
pub struct UpdateArgs {
    pub topic: String,
    pub data: Json,
    pub timestamp: String,
}

impl View for UpdateArgs {
    type V = (Seq<char>, Tree, Seq<char>);

    open spec fn view(&self) -> (Seq<char>, Tree, Seq<char>) {
        (self.topic@, self.data@, self.timestamp@)
    }
}

/// A response frame: the invocation id it answers and its result, if any.
pub struct Response {
    pub i: String,
    pub r: Option<Json>,
}

/// A subscribe request: its fresh invocation id and the frame to send.
pub struct SubscribeRequest {
    pub id: String,
    pub frame: Json,
}

/// Where the wait for the subscription response stands after one frame.
pub enum SubscribeStep {
    /// The frame does not answer the request: keep reading.
    Pending,
    /// The answer arrived, with the initial state.
    Subscribed(Json),
    /// The answer arrived without a result.
    Failed(ClientError),
}

pub open spec fn updates_model(us: Seq<UpdateArgs>) -> Seq<(Seq<char>, Tree, Seq<char>)> {
    Seq::new(us.len(), |i: int| us[i]@)
}

/// The query value naming the hub: `[{"name": hub}]`.
pub open spec fn connection_data_model(hub: Seq<char>) -> Tree {
    Tree::Array(seq![Tree::Object(seq![("name"@, Tree::Str(hub))])])
}

/// The invoke frame that subscribes to `topics` on `hub`.
pub open spec fn invoke_model(hub: Seq<char>, topics: Seq<Seq<char>>, id: Seq<char>) -> Tree {
    Tree::Object(
        seq![
            ("H"@, Tree::Str(hub)),
            ("M"@, Tree::Str("Subscribe"@)),
            ("A"@, Tree::Array(seq![Tree::Array(Seq::new(topics.len(), |i: int| Tree::Str(topics[i])))])),
            ("I"@, Tree::Str(id)),
        ],
    )
}

/// The invocation id and result of a response frame, when the frame is one:
/// an object whose `I` is a string. A null result counts as none.
pub open spec fn response_model(t: Tree) -> Option<(Seq<char>, Option<Tree>)> {
    match lookup(t, "I"@) {
        Some(Tree::Str(id)) => Some(
            (
                id,
                match lookup(t, "R"@) {
                    Some(Tree::Null) => None,
                    Some(v) => Some(v),
                    None => None,
                },
            ),
        ),
        _ => None,
    }
}

/// One item of a push frame: an object whose `A` is `[topic, payload, timestamp]`
/// with string topic and timestamp.
pub open spec fn args_model(t: Tree) -> Option<(Seq<char>, Tree, Seq<char>)> {
    match lookup(t, "A"@) {
        Some(Tree::Array(xs)) => if xs.len() == 3 && xs[0] is Str && xs[2] is Str {
            Some((xs[0]->Str_0, xs[1], xs[2]->Str_0))
        } else {
            None
        },
        _ => None,
    }
}

/// The items of a push frame: an object whose `M` is an array of items. A
/// frame with one malformed item is not a push frame.
pub open spec fn update_model(t: Tree) -> Option<Seq<(Seq<char>, Tree, Seq<char>)>> {
    match lookup(t, "M"@) {
        Some(Tree::Array(xs)) => if forall|i: int| 0 <= i < xs.len() ==> #[trigger] args_model(xs[i]) is Some {
            Some(Seq::new(xs.len(), |i: int| args_model(xs[i])->0))
        } else {
            None
        },
        _ => None,
    }
}

/// Relies on uuid's `Uuid::new_v4` for a random id, written in the
/// hyphenated form of 36 characters by its `Display` impl.
#[verifier::external_body]
fn new_invocation_id() -> (r: String)
    ensures
        r@.len() == 36,
{
    uuid::Uuid::new_v4().to_string()
}

/// What `base` becomes, written out, once parsed as an absolute URL with the
/// `params` appended to its query; `None` when `base` is no absolute URL.
pub uninterp spec fn url_with_params(base: Seq<char>, params: Seq<(Seq<char>, Seq<char>)>) -> Option<Seq<char>>;

pub open spec fn pairs_model(ps: Seq<(String, String)>) -> Seq<(Seq<char>, Seq<char>)> {
    Seq::new(ps.len(), |i: int| (ps[i].0@, ps[i].1@))
}

/// Relies on url's `Url::parse_with_params`, as re-exported by reqwest: it
/// parses `base` and appends the pairs, form-encoded, to its query, or fails
/// when `base` is no absolute URL. The result depends on the arguments alone.
#[verifier::external_body]
fn parse_with_params(base: &str, params: &Vec<(String, String)>) -> (r: Option<String>)
    ensures
        match url_with_params(base@, pairs_model(params@)) {
            Some(u) => r is Some && r->0@ == u,
            None => r is None,
        },
{
    reqwest::Url::parse_with_params(base, params.iter()).ok().map(|u| u.to_string())
}

/// The address of the negotiate endpoint on `host`.
pub open spec fn negotiate_base(host: Seq<char>) -> Seq<char> {
    "https://"@ + host + "/negotiate"@
}

/// The address of the connect endpoint on `host`.
pub open spec fn connect_base(host: Seq<char>) -> Seq<char> {
    "wss://"@ + host + "/connect"@
}

fn endpoint(scheme: &str, host: &str, path: &str) -> (r: String)
    ensures
        r@ == scheme@ + host@ + path@,
{
    let mut b = scheme.to_string();
    b.append(host);
    b.append(path);
    b
}

/// The negotiate URL for `host`, with the protocol version and the
/// `connectionData` text naming the hub as its query.
pub fn negotiate_url(host: &str, connection_data_text: &str) -> (r: Option<String>)
    ensures
        match url_with_params(
            negotiate_base(host@),
            seq![("clientProtocol"@, "1.5"@), ("connectionData"@, connection_data_text@)],
        ) {
            Some(u) => r is Some && r->0@ == u,
            None => r is None,
        },
{
    let base = endpoint("https://", host, "/negotiate");
    let mut params: Vec<(String, String)> = Vec::new();
    params.push(("clientProtocol".to_string(), "1.5".to_string()));
    params.push(("connectionData".to_string(), connection_data_text.to_string()));
    assert(pairs_model(params@) =~= seq![("clientProtocol"@, "1.5"@), ("connectionData"@, connection_data_text@)]);
    parse_with_params(base.as_str(), &params)
}

/// The WebSocket connect URL for `host`, with the protocol version, the
/// transport and the negotiated token as its query.
pub fn connect_url(host: &str, token: &str) -> (r: Option<String>)
    ensures
        match url_with_params(
            connect_base(host@),
            seq![("clientProtocol"@, "1.5"@), ("transport"@, "webSockets"@), ("connectionToken"@, token@)],
        ) {
            Some(u) => r is Some && r->0@ == u,
            None => r is None,
        },
{
    let base = endpoint("wss://", host, "/connect");
    let mut params: Vec<(String, String)> = Vec::new();
    params.push(("clientProtocol".to_string(), "1.5".to_string()));
    params.push(("transport".to_string(), "webSockets".to_string()));
    params.push(("connectionToken".to_string(), token.to_string()));
    assert(pairs_model(params@) =~= seq![
        ("clientProtocol"@, "1.5"@),
        ("transport"@, "webSockets"@),
        ("connectionToken"@, token@),
    ]);
    parse_with_params(base.as_str(), &params)
}

fn str_node(s: &str) -> (r: Json)
    ensures
        r@ == Tree::Str(s@),
{
    Json::Str(s.to_string())
}

fn object_of(es: Vec<(String, Json)>) -> (r: Json)
    ensures
        r@ == Tree::Object(entries_model(es@)),
{
    proof {
        lemma_object_view(es);
    }
    Json::Object(es)
}

fn array_of(xs: Vec<Json>) -> (r: Json)
    ensures
        r@ == Tree::Array(items_model(xs@)),
{
    proof {
        lemma_array_view(xs);
    }
    Json::Array(xs)
}

/// The `connectionData` query value of the negotiate call.
pub fn connection_data(hub: &str) -> (r: Json)
    ensures
        r@ == connection_data_model(hub@),
{
    let mut entry: Vec<(String, Json)> = Vec::new();
    entry.push(("name".to_string(), str_node(hub)));
    let obj = object_of(entry);
    assert(entries_model(entry@) =~= seq![("name"@, Tree::Str(hub@))]);
    let mut xs: Vec<Json> = Vec::new();
    xs.push(obj);
    let r = array_of(xs);
    assert(items_model(xs@) =~= seq![Tree::Object(seq![("name"@, Tree::Str(hub@))])]);
    r
}

/// The invoke frame that subscribes to `topics` on `hub` under invocation `id`.
pub fn invoke_message(hub: &str, topics: &Vec<String>, id: &str) -> (r: Json)
    ensures
        r@ == invoke_model(hub@, Seq::new(topics@.len(), |i: int| topics@[i]@), id@),
{
    let ghost ts = Seq::new(topics@.len(), |i: int| topics@[i]@);
    let mut names: Vec<Json> = Vec::new();
    let mut i: usize = 0;
    while i < topics.len()
        invariant
            i <= topics.len(),
            names@.len() == i,
            forall|j: int| 0 <= j < i ==> #[trigger] names@[j]@ == Tree::Str(topics@[j]@),
        decreases topics.len() - i,
    {
        names.push(Json::Str(topics[i].clone()));
        i = i + 1;
    }
    let inner = array_of(names);
    assert(items_model(names@) =~= Seq::new(ts.len(), |i: int| Tree::Str(ts[i])));
    let mut outer: Vec<Json> = Vec::new();
    outer.push(inner);
    let args = array_of(outer);
    assert(items_model(outer@) =~= seq![inner@]);
    let mut es: Vec<(String, Json)> = Vec::new();
    es.push(("H".to_string(), str_node(hub)));
    es.push(("M".to_string(), str_node("Subscribe")));
    es.push(("A".to_string(), args));
    es.push(("I".to_string(), str_node(id)));
    let r = object_of(es);
    assert(entries_model(es@) =~= invoke_model(hub@, ts, id@)->Object_0);
    r
}

/// A subscribe request for `topics` on `hub`, under a fresh random invocation id.
pub fn subscribe_request(hub: &str, topics: &Vec<String>) -> (r: SubscribeRequest)
    ensures
        r.id@.len() == 36,
        r.frame@ == invoke_model(hub@, Seq::new(topics@.len(), |i: int| topics@[i]@), r.id@),
{
    let id = new_invocation_id();
    let frame = invoke_message(hub, topics, id.as_str());
    SubscribeRequest { id, frame }
}

/// Reads a frame as a response envelope.
pub fn decode_response(frame: &Json) -> (r: Option<Response>)
    ensures
        match response_model(frame@) {
            Some((id, res)) => r is Some && r->0.i@ == id && match res {
                Some(v) => r->0.r is Some && r->0.r->0@ == v,
                None => r->0.r is None,
            },
            None => r is None,
        },
{
    match frame.get("I") {
        Some(Json::Str(id)) => {
            let res = match frame.get("R") {
                Some(Json::Null) => None,
                Some(v) => Some(v.deep_clone()),
                None => None,
            };
            Some(Response { i: id.clone(), r: res })
        },
        _ => None,
    }
}

/// Decides what one inbound frame means while waiting for the answer to the
/// subscribe request `expected_id`. Frames that are no response, or (when
/// `check_id` holds) answer another invocation, are passed over.
pub fn on_subscribe_frame(expected_id: &String, frame: &Json, check_id: bool) -> (r: SubscribeStep)
    ensures
        match response_model(frame@) {
            None => r is Pending,
            Some((id, res)) => if check_id && id != expected_id@ {
                r is Pending
            } else {
                match res {
                    Some(v) => r is Subscribed && r->Subscribed_0@ == v,
                    None => r == SubscribeStep::Failed(ClientError::NoResult),
                }
            },
        },
{
    match decode_response(frame) {
        None => SubscribeStep::Pending,
        Some(resp) => {
            if check_id && resp.i != *expected_id {
                SubscribeStep::Pending
            } else {
                match resp.r {
                    Some(v) => SubscribeStep::Subscribed(v),
                    None => SubscribeStep::Failed(ClientError::NoResult),
                }
            }
        },
    }
}

/// Reads one item of a push frame.
pub fn decode_args(item: &Json) -> (r: Option<UpdateArgs>)
    ensures
        match args_model(item@) {
            Some(m) => r is Some && r->0@ == m,
            None => r is None,
        },
{
    match item.get("A") {
        Some(Json::Array(xs)) => {
            proof {
                lemma_array_view(*xs);
            }
            if xs.len() == 3 {
                match (&xs[0], &xs[2]) {
                    (Json::Str(topic), Json::Str(timestamp)) => Some(
                        UpdateArgs {
                            topic: topic.clone(),
                            data: xs[1].deep_clone(),
                            timestamp: timestamp.clone(),
                        },
                    ),
                    _ => None,
                }
            } else {
                None
            }
        },
        _ => None,
    }
}

/// Reads a push frame into its items, in order.
pub fn decode_update(frame: &Json) -> (r: Option<Vec<UpdateArgs>>)
    ensures
        match update_model(frame@) {
            Some(s) => r is Some && updates_model(r->0@) == s,
            None => r is None,
        },
{
    match frame.get("M") {
        Some(Json::Array(xs)) => {
            proof {
                lemma_array_view(*xs);
            }
            let ghost m = items_model(xs@);
            assert(lookup(frame@, "M"@) == Some(Tree::Array(m)));
            let mut out: Vec<UpdateArgs> = Vec::new();
            let mut i: usize = 0;
            while i < xs.len()
                invariant
                    i <= xs.len(),
                    m == items_model(xs@),
                    lookup(frame@, "M"@) == Some(Tree::Array(m)),
                    out@.len() == i,
                    forall|j: int| 0 <= j < i ==> #[trigger] args_model(m[j]) is Some,
                    forall|j: int| 0 <= j < i ==> #[trigger] out@[j]@ == args_model(m[j])->0,
                decreases xs.len() - i,
            {
                assert(m[i as int] == xs@[i as int]@);
                match decode_args(&xs[i]) {
                    Some(a) => {
                        let ghost before = out@;
                        out.push(a);
                        assert(out@[i as int]@ == args_model(m[i as int])->0);
                        assert(forall|j: int| 0 <= j < i ==> out@[j] == #[trigger] before[j]);
                    },
                    None => {
                        assert(args_model(m[i as int]) is None);
                        assert(!(forall|j: int| 0 <= j < m.len() ==> #[trigger] args_model(m[j]) is Some));
                        return None;
                    },
                }
                i = i + 1;
            }
            assert(forall|j: int| 0 <= j < m.len() ==> #[trigger] args_model(m[j]) is Some);
            assert(updates_model(out@) =~= Seq::new(m.len(), |j: int| args_model(m[j])->0));
            Some(out)
        },
        _ => None,
    }
}

/// Reads the body of a negotiate response: its connection token.
pub fn negotiation_response(body: &Json) -> (r: Option<NegotiationResponse>)
    ensures
        match lookup(body@, "ConnectionToken"@) {
            Some(Tree::Str(t)) => r is Some && r->0.connection_token@ == t,
            _ => r is None,
        },
{
    match body.get("ConnectionToken") {
        Some(Json::Str(t)) => Some(NegotiationResponse { connection_token: t.clone() }),
        _ => None,
    }
}

/// Completes a negotiation from what the call returned: the body as parsed
/// (`None` when the call or the parse failed) and the cookie header.
pub fn negotiation_from(body: Option<Json>, cookie: Option<String>) -> (r: Result<Negotiation, ClientError>)
    ensures
        match (body, cookie) {
            (Some(b), Some(c)) => match lookup(b@, "ConnectionToken"@) {
                Some(Tree::Str(t)) => r is Ok && r->Ok_0.token@ == t && r->Ok_0.cookie@ == c@,
                _ => r == Err::<Negotiation, ClientError>(ClientError::Negotiation),
            },
            _ => r == Err::<Negotiation, ClientError>(ClientError::Negotiation),
        },
{
    match body {
        None => Err(ClientError::Negotiation),
        Some(b) => match negotiation_response(&b) {
            None => Err(ClientError::Negotiation),
            Some(res) => match cookie {
                None => Err(ClientError::Negotiation),
                Some(c) => Ok(Negotiation { token: res.connection_token, cookie: c }),
            },
        },
    }
}

} // verus!
