use vstd::prelude::*;

verus! {

/// Delay before a new session is attempted, in milliseconds.
pub const BACKOFF_MS: u64 = 2000;

/// Where the ingestion of the upstream feed stands.
#[derive(Debug, Clone, Copy, PartialEq, Eq, Structural)]
pub enum Phase {
    Connecting,
    Subscribing,
    Listening,
    Backoff,
}

/// What the last action came to.
#[derive(Debug, Clone, Copy, PartialEq, Eq, Structural)]
pub enum Signal {
    /// The step succeeded.
    Succeeded,
    /// The step failed.
    Failed,
    /// A push frame announced a new live session.
    SessionEnded,
    /// The stream of frames ended.
    StreamClosed,
    /// The backoff delay has passed.
    Waited,
}

/// What to do next.
#[derive(Debug, Clone, Copy, PartialEq, Eq, Structural)]
pub enum Action {
    /// Negotiate and open the WebSocket.
    Connect,
    /// Send the subscribe request and wait for the initial state.
    Subscribe,
    /// Apply and publish the frames as they come.
    Listen,
    /// Wait this many milliseconds.
    Sleep(u64),
}

/// Why a session ended, for the log: a new live session is no fault.
#[derive(Debug, Clone, Copy, PartialEq, Eq, Structural)]
pub enum SessionEnd {
    NewSession,
    Fault,
}

/// The next phase and action after `signal` in `phase`. Every failure, and
/// every end of a session, leads to the backoff delay and then to a new
/// connection; nothing ends the loop. A signal that does not belong to the
/// phase repeats the phase's action.
pub fn next_step(phase: Phase, signal: Signal) -> (r: (Phase, Action))
    ensures
        signal == Signal::Failed ==> r == (Phase::Backoff, Action::Sleep(BACKOFF_MS)),
        phase == Phase::Connecting && signal == Signal::Succeeded ==> r == (Phase::Subscribing, Action::Subscribe),
        phase == Phase::Subscribing && signal == Signal::Succeeded ==> r == (Phase::Listening, Action::Listen),
        phase == Phase::Listening && (signal == Signal::SessionEnded || signal == Signal::StreamClosed)
            ==> r == (Phase::Backoff, Action::Sleep(BACKOFF_MS)),
        phase == Phase::Backoff && signal == Signal::Waited ==> r == (Phase::Connecting, Action::Connect),
        signal != Signal::Failed && !(phase == Phase::Connecting && signal == Signal::Succeeded)
            && !(phase == Phase::Subscribing && signal == Signal::Succeeded)
            && !(phase == Phase::Listening && (signal == Signal::SessionEnded || signal == Signal::StreamClosed))
            && !(phase == Phase::Backoff && signal == Signal::Waited) ==> r.0 == phase && r.1 == action_of(phase),
{
    match (phase, signal) {
        (_, Signal::Failed) => (Phase::Backoff, Action::Sleep(BACKOFF_MS)),
        (Phase::Connecting, Signal::Succeeded) => (Phase::Subscribing, Action::Subscribe),
        (Phase::Subscribing, Signal::Succeeded) => (Phase::Listening, Action::Listen),
        (Phase::Listening, Signal::SessionEnded) => (Phase::Backoff, Action::Sleep(BACKOFF_MS)),
        (Phase::Listening, Signal::StreamClosed) => (Phase::Backoff, Action::Sleep(BACKOFF_MS)),
        (Phase::Backoff, Signal::Waited) => (Phase::Connecting, Action::Connect),
        (p, _) => {
            let a = phase_action(&p);
            (p, a)
        },
    }
}

/// The action that a phase performs.
pub open spec fn action_of(p: Phase) -> Action {
    match p {
        Phase::Connecting => Action::Connect,
        Phase::Subscribing => Action::Subscribe,
        Phase::Listening => Action::Listen,
        Phase::Backoff => Action::Sleep(BACKOFF_MS),
    }
}

fn phase_action(p: &Phase) -> (r: Action)
    ensures
        r == action_of(*p),
{
    match p {
        Phase::Connecting => Action::Connect,
        Phase::Subscribing => Action::Subscribe,
        Phase::Listening => Action::Listen,
        Phase::Backoff => Action::Sleep(BACKOFF_MS),
    }
}

/// How a session that ended is reported.
pub fn session_end(signal: Signal) -> (r: SessionEnd)
    ensures
        r == (if signal == Signal::SessionEnded { SessionEnd::NewSession } else { SessionEnd::Fault }),
{
    match signal {
        Signal::SessionEnded => SessionEnd::NewSession,
        _ => SessionEnd::Fault,
    }
}

} // verus!
