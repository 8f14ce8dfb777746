use realtime::commands::{get_command, Command};
use realtime::drivers::{drivers, map_to_vec};
use realtime::logging::tracing_subscriber;
use realtime::replay::{AppState, ReplayStep, REPLAY_DELAY_MS};
use realtime::supervisor::{next_step, session_end, Action, Phase, SessionEnd, Signal, BACKOFF_MS};
use realtime::tree::Json;

fn s(x: &str) -> Json {
    Json::Str(x.to_string())
}

fn obj(entries: Vec<(&str, Json)>) -> Json {
    Json::Object(entries.into_iter().map(|(k, v)| (k.to_string(), v)).collect())
}

#[test]
fn replay_three_lines_paced_then_closed() {
    let state = AppState {
        lines: vec!["{\"snapshot\":1}".to_string(), "{\"M\":[1]}".to_string(), "{\"M\":[2]}".to_string()],
    };
    let plan = state.replay_plan();
    assert_eq!(plan.len(), 7);
    let mut sent = Vec::new();
    for (i, step) in plan.iter().enumerate() {
        match step {
            ReplayStep::Send(line) => {
                assert_eq!(i % 2, 0);
                sent.push(line.clone());
            }
            ReplayStep::Wait(ms) => {
                assert_eq!(i % 2, 1);
                assert_eq!(*ms, 100);
            }
            ReplayStep::Close => assert_eq!(i, 6),
        }
    }
    assert_eq!(sent, state.lines);
    assert_eq!(REPLAY_DELAY_MS, 100);
}

#[test]
fn replay_of_nothing_just_closes() {
    let state = AppState { lines: vec![] };
    let plan = state.replay_plan();
    assert_eq!(plan.len(), 1);
    assert!(matches!(plan[0], ReplayStep::Close));
}

#[test]
fn session_end_leads_to_backoff_then_reconnect() {
    assert_eq!(next_step(Phase::Connecting, Signal::Succeeded), (Phase::Subscribing, Action::Subscribe));
    assert_eq!(next_step(Phase::Subscribing, Signal::Succeeded), (Phase::Listening, Action::Listen));
    let after_end = next_step(Phase::Listening, Signal::SessionEnded);
    assert_eq!(after_end, (Phase::Backoff, Action::Sleep(2000)));
    assert_eq!(session_end(Signal::SessionEnded), SessionEnd::NewSession);
    assert_eq!(next_step(Phase::Backoff, Signal::Waited), (Phase::Connecting, Action::Connect));
    assert_eq!(BACKOFF_MS, 2000);
}

#[test]
fn every_failure_backs_off() {
    for p in [Phase::Connecting, Phase::Subscribing, Phase::Listening, Phase::Backoff] {
        assert_eq!(next_step(p, Signal::Failed), (Phase::Backoff, Action::Sleep(BACKOFF_MS)));
    }
    assert_eq!(next_step(Phase::Listening, Signal::StreamClosed), (Phase::Backoff, Action::Sleep(BACKOFF_MS)));
    assert_eq!(session_end(Signal::Failed), SessionEnd::Fault);
    assert_eq!(next_step(Phase::Listening, Signal::Waited), (Phase::Listening, Action::Listen));
}

#[test]
fn command_words() {
    assert_eq!(get_command(Some("save".to_string())), Some(Command::Save));
    assert_eq!(get_command(Some("replay".to_string())), Some(Command::Replay));
    assert_eq!(get_command(Some("other".to_string())), None);
    assert_eq!(get_command(None), None);
}

#[test]
fn log_directive_default() {
    assert_eq!(tracing_subscriber(None), "error");
    assert_eq!(tracing_subscriber(Some(String::new())), "error");
    assert_eq!(tracing_subscriber(Some("debug".to_string())), "debug");
}

#[test]
fn driver_list_members() {
    let list = obj(vec![
        ("1", obj(vec![("RacingNumber", s("1"))])),
        ("_kf", Json::Bool(true)),
        ("44", obj(vec![("RacingNumber", s("44"))])),
    ]);
    assert_eq!(
        map_to_vec(list.deep_clone()),
        vec![obj(vec![("RacingNumber", s("1"))]), obj(vec![("RacingNumber", s("44"))])]
    );
    assert_eq!(map_to_vec(Json::Array(vec![obj(vec![])])), vec![]);
    let state = obj(vec![("DriverList", list)]);
    assert_eq!(drivers(&state).unwrap().len(), 2);
    assert!(drivers(&obj(vec![])).is_none());
}
