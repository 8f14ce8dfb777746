use vstd::prelude::*;

verus! {

/// Pause after each replayed line, in milliseconds.
pub const REPLAY_DELAY_MS: u64 = 100;

/// The recorded lines that the replay server sends to each client.
pub struct AppState {
    pub lines: Vec<String>,
}

/// One step of replaying a recording to a client.
pub enum ReplayStep {
    /// Send this line as a text frame.
    Send(String),
    /// Wait this many milliseconds.
    Wait(u64),
    /// Send a close frame.
    Close,
}

/// The model of a [`ReplayStep`].
pub enum StepModel {
    Send(Seq<char>),
    Wait(u64),
    Close,
}

impl View for ReplayStep {
    type V = StepModel;

    open spec fn view(&self) -> StepModel {
        match self {
            ReplayStep::Send(s) => StepModel::Send(s@),
            ReplayStep::Wait(ms) => StepModel::Wait(*ms),
            ReplayStep::Close => StepModel::Close,
        }
    }
}

/// Each line in order, each followed by the pacing delay, then a close.
pub open spec fn plan_model(lines: Seq<Seq<char>>) -> Seq<StepModel> {
    Seq::new(
        2 * lines.len() + 1,
        |i: int|
            if i == 2 * lines.len() {
                StepModel::Close
            } else if i % 2 == 0 {
                StepModel::Send(lines[i / 2])
            } else {
                StepModel::Wait(REPLAY_DELAY_MS)
            },
    )
}

impl AppState {
    /// What to send to one connecting client: every line in order, the pacing
    /// delay after each, and a close at the end.
    pub fn replay_plan(&self) -> (r: Vec<ReplayStep>)
        requires
            2 * self.lines@.len() + 1 <= usize::MAX,
        ensures
            Seq::new(r@.len(), |i: int| r@[i]@) == plan_model(Seq::new(self.lines@.len(), |i: int| self.lines@[i]@)),
    {
        let ghost ls = Seq::new(self.lines@.len(), |i: int| self.lines@[i]@);
        let ghost target = plan_model(ls);
        let mut out: Vec<ReplayStep> = Vec::new();
        let mut i: usize = 0;
        while i < self.lines.len()
            invariant
                i <= self.lines@.len(),
                ls == Seq::new(self.lines@.len(), |i: int| self.lines@[i]@),
                target == plan_model(ls),
                out@.len() == 2 * i,
                forall|j: int| 0 <= j < 2 * i ==> #[trigger] out@[j]@ == target[j],
            decreases self.lines@.len() - i,
        {
            out.push(ReplayStep::Send(self.lines[i].clone()));
            out.push(ReplayStep::Wait(REPLAY_DELAY_MS));
            assert((2 * i) % 2 == 0 && (2 * i) / 2 == i) by (nonlinear_arith);
            assert((2 * i + 1) % 2 == 1) by (nonlinear_arith);
            i = i + 1;
        }
        out.push(ReplayStep::Close);
        assert(Seq::new(out@.len(), |i: int| out@[i]@) =~= target);
        out
    }
}

} // verus!
