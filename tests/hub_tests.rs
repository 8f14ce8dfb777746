use realtime::hub::{is_session_end, Hub, StreamEvent};
use realtime::signalr::UpdateArgs;
use realtime::tree::Json;

fn s(x: &str) -> Json {
    Json::Str(x.to_string())
}

fn obj(entries: Vec<(&str, Json)>) -> Json {
    Json::Object(entries.into_iter().map(|(k, v)| (k.to_string(), v)).collect())
}

fn item(topic: &str, data: Json) -> UpdateArgs {
    UpdateArgs { topic: topic.to_string(), data, timestamp: "2024-01-01T00:00:00Z".to_string() }
}

#[test]
fn subscriber_gets_snapshot_then_every_update() {
    let mut hub = Hub::new(16);
    hub.set_state(obj(vec![("A", obj(vec![("x", s("1"))]))]));
    hub.apply("A".to_string(), obj(vec![("y", s("0"))]));
    let id = hub.subscribe().unwrap();
    assert_eq!(hub.connections(), 1);
    hub.apply("A".to_string(), obj(vec![("y", s("2"))]));
    hub.apply("B".to_string(), s("3"));
    let events = hub.take(id).unwrap();
    assert_eq!(events.len(), 3);
    match &events[0] {
        StreamEvent::Initial(st) => {
            assert_eq!(*st, obj(vec![("A", obj(vec![("x", s("1")), ("y", s("0"))]))]))
        }
        _ => panic!("the first event must be the snapshot"),
    }
    match &events[1] {
        StreamEvent::Update(p) => assert_eq!(*p, obj(vec![("A", obj(vec![("y", s("2"))]))])),
        _ => panic!("expected an update"),
    }
    match &events[2] {
        StreamEvent::Update(p) => assert_eq!(*p, obj(vec![("B", s("3"))])),
        _ => panic!("expected an update"),
    }
    assert_eq!(hub.take(id).unwrap().len(), 0);
    hub.apply("C".to_string(), s("4"));
    assert_eq!(hub.take(id).unwrap().len(), 1);
}

#[test]
fn lagging_subscriber_is_dropped_alone() {
    let mut hub = Hub::new(2);
    let slow = hub.subscribe().unwrap();
    let fast = hub.subscribe().unwrap();
    assert_ne!(slow, fast);
    hub.apply("T".to_string(), s("1"));
    assert_eq!(hub.take(fast).unwrap().len(), 2);
    hub.apply("T".to_string(), s("2"));
    assert!(hub.take(slow).is_none());
    assert_eq!(hub.take(fast).unwrap().len(), 1);
    hub.unsubscribe(slow);
    assert_eq!(hub.connections(), 1);
    assert!(hub.take(slow).is_none());
    assert_eq!(hub.snapshot(), obj(vec![("T", s("2"))]));
}

#[test]
fn unknown_subscriber_has_nothing() {
    let mut hub = Hub::new(4);
    assert!(hub.take(9).is_none());
    assert_eq!(hub.connections(), 0);
}

#[test]
fn session_info_with_name_ends_ingestion() {
    let mut hub = Hub::new(16);
    let id = hub.subscribe().unwrap();
    let batch = vec![
        item("LapCount", obj(vec![("CurrentLap", s("3"))])),
        item("SessionInfo", obj(vec![("Name", s("Race"))])),
        item("LapCount", obj(vec![("CurrentLap", s("4"))])),
    ];
    assert!(hub.ingest(batch));
    assert_eq!(hub.snapshot(), obj(vec![("LapCount", obj(vec![("CurrentLap", s("3"))]))]));
    assert_eq!(hub.take(id).unwrap().len(), 2);
}

#[test]
fn ingestion_applies_whole_batch_in_order() {
    let mut hub = Hub::new(16);
    let batch = vec![
        item("SessionInfo", obj(vec![("Meeting", s("x"))])),
        item("L", Json::Array(vec![s("a")])),
        item("L", obj(vec![("1", s("b"))])),
    ];
    assert!(!hub.ingest(batch));
    assert_eq!(
        hub.snapshot(),
        obj(vec![("SessionInfo", obj(vec![("Meeting", s("x"))])), ("L", Json::Array(vec![s("a"), s("b")]))])
    );
}

#[test]
fn session_end_detection() {
    assert!(is_session_end(&"SessionInfo".to_string(), &obj(vec![("Name", s("Qualifying"))])));
    assert!(!is_session_end(&"SessionInfo".to_string(), &obj(vec![("Type", s("Race"))])));
    assert!(!is_session_end(&"SessionData".to_string(), &obj(vec![("Name", s("Race"))])));
    assert!(!is_session_end(&"SessionInfo".to_string(), &Json::Array(vec![s("Name")])));
}
