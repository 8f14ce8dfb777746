use realtime::signalr::{
    connection_data, decode_response, decode_update, invoke_message, negotiation_from,
    negotiation_response, on_subscribe_frame, subscribe_request, ClientError, SubscribeStep,
};
use realtime::tree::Json;

fn s(x: &str) -> Json {
    Json::Str(x.to_string())
}

fn obj(entries: Vec<(&str, Json)>) -> Json {
    Json::Object(entries.into_iter().map(|(k, v)| (k.to_string(), v)).collect())
}

#[test]
fn connection_data_names_hub() {
    assert_eq!(connection_data("Streaming"), Json::Array(vec![obj(vec![("name", s("Streaming"))])]));
}

#[test]
fn invoke_message_layout() {
    let topics = vec!["Heartbeat".to_string(), "TimingData".to_string()];
    let m = invoke_message("Streaming", &topics, "id-1");
    assert_eq!(
        m,
        obj(vec![
            ("H", s("Streaming")),
            ("M", s("Subscribe")),
            ("A", Json::Array(vec![Json::Array(vec![s("Heartbeat"), s("TimingData")])])),
            ("I", s("id-1")),
        ])
    );
}

#[test]
fn subscribe_request_uses_fresh_ids() {
    let topics = vec!["Heartbeat".to_string()];
    let a = subscribe_request("Streaming", &topics);
    let b = subscribe_request("Streaming", &topics);
    assert_eq!(a.id.chars().count(), 36);
    assert_ne!(a.id, b.id);
    assert_eq!(a.frame, invoke_message("Streaming", &topics, &a.id));
}

#[test]
fn subscribe_waits_for_matching_response() {
    let id = "abc".to_string();
    let push = obj(vec![("M", Json::Array(vec![]))]);
    assert!(matches!(on_subscribe_frame(&id, &push, true), SubscribeStep::Pending));
    let other = obj(vec![("I", s("zzz")), ("R", obj(vec![]))]);
    assert!(matches!(on_subscribe_frame(&id, &other, true), SubscribeStep::Pending));
    let bad_id = obj(vec![("I", Json::Number("1".to_string())), ("R", obj(vec![]))]);
    assert!(matches!(on_subscribe_frame(&id, &bad_id, true), SubscribeStep::Pending));
    let answer = obj(vec![("R", obj(vec![("Heartbeat", s("x"))])), ("I", s("abc"))]);
    match on_subscribe_frame(&id, &answer, true) {
        SubscribeStep::Subscribed(state) => assert_eq!(state, obj(vec![("Heartbeat", s("x"))])),
        _ => panic!("expected the initial state"),
    }
}

#[test]
fn subscribe_relaxed_accepts_any_id() {
    let id = "abc".to_string();
    let other = obj(vec![("I", s("zzz")), ("R", s("state"))]);
    assert!(matches!(on_subscribe_frame(&id, &other, false), SubscribeStep::Subscribed(_)));
}

#[test]
fn subscribe_without_result_fails() {
    let id = "abc".to_string();
    let no_result = obj(vec![("I", s("abc"))]);
    assert!(matches!(
        on_subscribe_frame(&id, &no_result, true),
        SubscribeStep::Failed(ClientError::NoResult)
    ));
    let null_result = obj(vec![("I", s("abc")), ("R", Json::Null)]);
    assert!(matches!(
        on_subscribe_frame(&id, &null_result, true),
        SubscribeStep::Failed(ClientError::NoResult)
    ));
}

#[test]
fn decode_response_reads_fields() {
    let r = decode_response(&obj(vec![("I", s("7")), ("R", Json::Bool(true))])).unwrap();
    assert_eq!(r.i, "7");
    assert_eq!(r.r, Some(Json::Bool(true)));
    assert!(decode_response(&Json::Array(vec![])).is_none());
}

#[test]
fn decode_update_reads_items_in_order() {
    let frame = obj(vec![(
        "M",
        Json::Array(vec![
            obj(vec![("H", s("Streaming")), ("A", Json::Array(vec![s("TrackStatus"), obj(vec![("Status", s("2"))]), s("t1")]))]),
            obj(vec![("A", Json::Array(vec![s("LapCount"), Json::Number("5".to_string()), s("t2")]))]),
        ]),
    )]);
    let items = decode_update(&frame).unwrap();
    assert_eq!(items.len(), 2);
    assert_eq!(items[0].topic, "TrackStatus");
    assert_eq!(items[0].data, obj(vec![("Status", s("2"))]));
    assert_eq!(items[0].timestamp, "t1");
    assert_eq!(items[1].topic, "LapCount");
    assert_eq!(items[1].timestamp, "t2");
}

#[test]
fn decode_update_rejects_malformed_frames() {
    assert!(decode_update(&obj(vec![])).is_none());
    assert!(decode_update(&obj(vec![("I", s("1")), ("R", obj(vec![]))])).is_none());
    let short = obj(vec![("M", Json::Array(vec![obj(vec![("A", Json::Array(vec![s("T"), s("x")]))])]))]);
    assert!(decode_update(&short).is_none());
    let bad_topic = obj(vec![(
        "M",
        Json::Array(vec![obj(vec![("A", Json::Array(vec![Json::Null, s("x"), s("t")]))])]),
    )]);
    assert!(decode_update(&bad_topic).is_none());
    let empty = obj(vec![("M", Json::Array(vec![]))]);
    assert_eq!(decode_update(&empty).unwrap().len(), 0);
}

#[test]
fn negotiation_needs_token_and_cookie() {
    let body = obj(vec![("ConnectionToken", s("tok")), ("Url", s("/signalr"))]);
    assert_eq!(negotiation_response(&body).unwrap().connection_token, "tok");
    let ok = negotiation_from(Some(body), Some("GCLB=1".to_string())).unwrap();
    assert_eq!(ok.token, "tok");
    assert_eq!(ok.cookie, "GCLB=1");
    let no_cookie = negotiation_from(Some(obj(vec![("ConnectionToken", s("tok"))])), None);
    assert!(matches!(no_cookie, Err(ClientError::Negotiation)));
    let no_body = negotiation_from(None, Some("c".to_string()));
    assert!(matches!(no_body, Err(ClientError::Negotiation)));
    let no_token = negotiation_from(Some(obj(vec![("Token", s("tok"))])), Some("c".to_string()));
    assert!(matches!(no_token, Err(ClientError::Negotiation)));
}

#[test]
fn negotiate_url_encodes_query() {
    let url = realtime::signalr::negotiate_url("livetiming.formula1.com/signalr", "[{\"name\":\"Streaming\"}]");
    assert_eq!(
        url.unwrap(),
        "https://livetiming.formula1.com/signalr/negotiate?clientProtocol=1.5&connectionData=%5B%7B%22name%22%3A%22Streaming%22%7D%5D"
    );
    assert!(realtime::signalr::negotiate_url("bad host", "x").is_none());
}

#[test]
fn connect_url_carries_token() {
    let url = realtime::signalr::connect_url("example.com/signalr", "a b+c");
    assert_eq!(
        url.unwrap(),
        "wss://example.com/signalr/connect?clientProtocol=1.5&transport=webSockets&connectionToken=a+b%2Bc"
    );
}
