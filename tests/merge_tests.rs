use realtime::index::parse_index;
use realtime::merge::merge;
use realtime::state_service::{make_patch, StateService};
use realtime::tree::Json;

fn s(x: &str) -> Json {
    Json::Str(x.to_string())
}

fn n(x: &str) -> Json {
    Json::Number(x.to_string())
}

fn obj(entries: Vec<(&str, Json)>) -> Json {
    Json::Object(entries.into_iter().map(|(k, v)| (k.to_string(), v)).collect())
}

#[test]
fn object_merge_adds_key() {
    let mut state = obj(vec![("A", obj(vec![("x", n("1"))]))]);
    merge(&mut state, obj(vec![("A", obj(vec![("y", n("2"))]))]));
    assert_eq!(state, obj(vec![("A", obj(vec![("x", n("1")), ("y", n("2"))]))]));
}

#[test]
fn array_update_and_append() {
    let mut state = obj(vec![("L", Json::Array(vec![s("a"), s("b")]))]);
    merge(&mut state, obj(vec![("L", obj(vec![("1", s("B")), ("2", s("c"))]))]));
    assert_eq!(state, obj(vec![("L", Json::Array(vec![s("a"), s("B"), s("c")]))]));
}

#[test]
fn index_past_end_is_ignored() {
    let mut state = obj(vec![("L", Json::Array(vec![s("a")]))]);
    merge(&mut state, obj(vec![("L", obj(vec![("5", s("z"))]))]));
    assert_eq!(state, obj(vec![("L", Json::Array(vec![s("a")]))]));
}

#[test]
fn untouched_keys_are_kept() {
    let mut state = obj(vec![("a", n("1")), ("b", obj(vec![("c", Json::Bool(true))])), ("d", Json::Null)]);
    merge(&mut state, obj(vec![("d", s("new"))]));
    assert_eq!(
        state,
        obj(vec![("a", n("1")), ("b", obj(vec![("c", Json::Bool(true))])), ("d", s("new"))])
    );
}

#[test]
fn leaf_patch_twice_equals_once() {
    let base = || obj(vec![("A", obj(vec![("x", n("1"))])), ("B", n("3"))]);
    let patch = || obj(vec![("B", n("4")), ("C", s("k"))]);
    let mut once = base();
    merge(&mut once, patch());
    let mut twice = base();
    merge(&mut twice, patch());
    merge(&mut twice, patch());
    assert_eq!(once, twice);
    assert_eq!(once, obj(vec![("A", obj(vec![("x", n("1"))])), ("B", n("4")), ("C", s("k"))]));
}

#[test]
fn append_reapplied_merges_into_appended_element() {
    let mut state = Json::Array(vec![s("a")]);
    merge(&mut state, obj(vec![("1", s("b"))]));
    assert_eq!(state, Json::Array(vec![s("a"), s("b")]));
    merge(&mut state, obj(vec![("1", s("b"))]));
    assert_eq!(state, Json::Array(vec![s("a"), s("b")]));
    merge(&mut state, obj(vec![("2", s("b"))]));
    assert_eq!(state, Json::Array(vec![s("a"), s("b"), s("b")]));
}

#[test]
fn array_in_bounds_merges_recursively() {
    let mut state = Json::Array(vec![obj(vec![("x", n("1"))]), s("b")]);
    merge(&mut state, obj(vec![("0", obj(vec![("y", n("2"))]))]));
    assert_eq!(state, Json::Array(vec![obj(vec![("x", n("1")), ("y", n("2"))]), s("b")]));
}

#[test]
fn array_non_index_keys_are_ignored() {
    let mut state = Json::Array(vec![s("a")]);
    merge(&mut state, obj(vec![("x", s("z")), ("-0", s("z")), ("", s("z"))]));
    assert_eq!(state, Json::Array(vec![s("a")]));
}

#[test]
fn mismatched_kinds_replace() {
    let mut state = obj(vec![("a", n("1"))]);
    merge(&mut state, Json::Array(vec![n("2")]));
    assert_eq!(state, Json::Array(vec![n("2")]));
    let mut leaf = s("x");
    merge(&mut leaf, obj(vec![("k", n("1"))]));
    assert_eq!(leaf, obj(vec![("k", n("1"))]));
    let mut arr = Json::Array(vec![s("a")]);
    merge(&mut arr, Json::Array(vec![]));
    assert_eq!(arr, Json::Array(vec![]));
}

#[test]
fn missing_key_gets_patch_value() {
    let mut state = obj(vec![]);
    merge(&mut state, obj(vec![("A", obj(vec![("x", n("1"))]))]));
    assert_eq!(state, obj(vec![("A", obj(vec![("x", n("1"))]))]));
}

#[test]
fn parse_index_reads_decimal_keys() {
    assert_eq!(parse_index("0"), Some(0));
    assert_eq!(parse_index("17"), Some(17));
    assert_eq!(parse_index("+3"), Some(3));
    assert_eq!(parse_index("007"), Some(7));
    assert_eq!(parse_index(""), None);
    assert_eq!(parse_index("+"), None);
    assert_eq!(parse_index("-1"), None);
    assert_eq!(parse_index("1a"), None);
    assert_eq!(parse_index(" 1"), None);
    assert_eq!(parse_index("18446744073709551615"), Some(usize::MAX));
    assert_eq!(parse_index("18446744073709551616"), None);
}

#[test]
fn state_service_set_apply_snapshot() {
    let mut svc = StateService::new();
    assert_eq!(svc.get_state(), obj(vec![]));
    svc.set_state(obj(vec![("TrackStatus", obj(vec![("Status", s("1"))]))]));
    let patch = svc.apply("TrackStatus".to_string(), obj(vec![("Message", s("AllClear"))]));
    assert_eq!(patch, obj(vec![("TrackStatus", obj(vec![("Message", s("AllClear"))]))]));
    assert_eq!(
        svc.get_state(),
        obj(vec![("TrackStatus", obj(vec![("Status", s("1")), ("Message", s("AllClear"))]))])
    );
    svc.update_state(obj(vec![("LapCount", n("3"))]));
    assert_eq!(svc.get_state().get("LapCount"), Some(&n("3")));
}

#[test]
fn make_patch_wraps_under_topic() {
    assert_eq!(make_patch("T".to_string(), n("1")), obj(vec![("T", n("1"))]));
}

#[test]
fn deep_clone_and_get() {
    let t = obj(vec![("a", Json::Array(vec![n("1"), obj(vec![("b", Json::Null)])])), ("a", s("second"))]);
    assert_eq!(t.deep_clone(), t);
    assert_eq!(t.get("a"), Some(&Json::Array(vec![n("1"), obj(vec![("b", Json::Null)])])));
    assert_eq!(t.get("z"), None);
    assert_eq!(s("a").get("a"), None);
}
