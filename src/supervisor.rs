//! Supervision of one run: the stdin feeder, the output drain and the wait
//! for exit race one deadline.
//!
//! The caller performs the three activities and the timer, reports each
//! completion as an [`Event`], and carries out the [`Action`] it gets back.
use vstd::prelude::*;

verus! {

/// Seconds from spawn until the run is cut short.
pub const DEADLINE_SECS: u64 = 10;

/// Something that happened to a running child.
#[derive(Clone, Copy, Debug, PartialEq, Eq, Structural)]
pub enum Event {
    /// All of stdin was written and the pipe closed.
    InputClosed,
    /// Both output streams are drained, or the output ceiling was reached.
    OutputDrained,
    /// The child exited, with its exit code if it has one.
    Exited(Option<i32>),
    /// The deadline passed.
    DeadlineElapsed,
    /// Writing, reading or waiting failed.
    IoFailed,
}

/// What the caller does next.
#[derive(Clone, Copy, Debug, PartialEq, Eq, Structural)]
pub enum Action {
    /// Keep waiting for the remaining activities.
    Wait,
    /// Stop every activity, then terminate and reap the child.
    Kill,
    /// Everything finished; the child has already exited.
    Finish,
}

#[derive(Clone, Copy, Debug, PartialEq, Eq, Structural)]
pub enum Stage {
    Running,
    Completed,
    TimedOut,
    Failed,
}

/// Progress of one run.
#[derive(Clone, Copy, Debug, PartialEq, Eq, Structural)]
pub struct Supervisor {
    pub phase: Stage,
    pub input_closed: bool,
    pub drained: bool,
    /// `Some` once the child has exited, with its exit code if it has one.
    pub exit: Option<Option<i32>>,
}

/// The three activities have all finished.
pub open spec fn all_done(s: Supervisor) -> bool {
    s.input_closed && s.drained && s.exit is Some
}

/// A running state whose activities are all done becomes completed.
pub open spec fn settle(s: Supervisor) -> Supervisor {
    if all_done(s) {
        Supervisor { phase: Stage::Completed, ..s }
    } else {
        s
    }
}

/// The state after an event; a finished run ignores further events.
pub open spec fn next(s: Supervisor, e: Event) -> Supervisor {
    if s.phase != Stage::Running {
        s
    } else {
        match e {
            Event::InputClosed => settle(Supervisor { input_closed: true, ..s }),
            Event::OutputDrained => settle(Supervisor { drained: true, ..s }),
            Event::Exited(code) => settle(Supervisor { exit: Some(code), ..s }),
            Event::DeadlineElapsed => Supervisor { phase: Stage::TimedOut, ..s },
            Event::IoFailed => Supervisor { phase: Stage::Failed, ..s },
        }
    }
}

/// What the caller does in a given state.
pub open spec fn action_of(s: Supervisor) -> Action {
    match s.phase {
        Stage::Running => Action::Wait,
        Stage::Completed => Action::Finish,
        Stage::TimedOut => Action::Kill,
        Stage::Failed => Action::Kill,
    }
}

/// The status a finished run reports: the exit code if it completed, none
/// if the deadline cut it short.
pub open spec fn status_of(s: Supervisor) -> Option<i32> {
    match s.phase {
        Stage::Completed => match s.exit {
            Some(code) => code,
            None => None,
        },
        _ => None,
    }
}

pub open spec fn start() -> Supervisor {
    Supervisor { phase: Stage::Running, input_closed: false, drained: false, exit: None }
}

/// The state after a series of events, from the start.
pub open spec fn run_events(evs: Seq<Event>) -> Supervisor
    decreases evs.len(),
{
    if evs.len() == 0 {
        start()
    } else {
        next(run_events(evs.drop_last()), evs.last())
    }
}

/// The outcome of a run that was not aborted by an I/O failure.
pub struct ExecutionResult {
    /// Absent when the deadline passed first.
    pub status: Option<i32>,
    /// The merged output captured until the run ended.
    pub output: Vec<u8>,
}

/// A run aborted by an I/O failure before the deadline.
#[derive(Clone, Copy, Debug, PartialEq, Eq, Structural)]
pub struct RunFailed;

impl Supervisor {
    pub fn new() -> (r: Supervisor)
        ensures
            r == start(),
    {
        Supervisor { phase: Stage::Running, input_closed: false, drained: false, exit: None }
    }

    pub fn is_running(&self) -> (r: bool)
        ensures
            r == (self.phase == Stage::Running),
    {
        self.phase == Stage::Running
    }

    /// Records an event and says what to do next.
    pub fn step(&mut self, e: Event) -> (a: Action)
        requires
            old(self).phase == Stage::Running,
        ensures
            *final(self) == next(*old(self), e),
            a == action_of(*final(self)),
    {
        match e {
            Event::InputClosed => self.input_closed = true,
            Event::OutputDrained => self.drained = true,
            Event::Exited(code) => self.exit = Some(code),
            Event::DeadlineElapsed => self.phase = Stage::TimedOut,
            Event::IoFailed => self.phase = Stage::Failed,
        }
        if self.phase == Stage::Running && self.input_closed && self.drained && self.exit.is_some() {
            self.phase = Stage::Completed;
        }
        match self.phase {
            Stage::Running => Action::Wait,
            Stage::Completed => Action::Finish,
            _ => Action::Kill,
        }
    }

    /// The result of a finished run: the captured output is handed back as
    /// it is, whether the run completed or timed out.
    pub fn conclude(&self, output: Vec<u8>) -> (r: Result<ExecutionResult, RunFailed>)
        requires
            self.phase != Stage::Running,
        ensures
            self.phase == Stage::Failed <==> r is Err,
            r matches Ok(res) ==> res.status == status_of(*self) && res.output@ == output@,
    {
        match self.phase {
            Stage::Completed => {
                let status = match self.exit {
                    Some(code) => code,
                    None => None,
                };
                Ok(ExecutionResult { status, output })
            },
            Stage::Failed => Err(RunFailed),
            _ => Ok(ExecutionResult { status: None, output }),
        }
    }
}

/// Events that neither end the run early nor report an exit.
pub open spec fn quiet(evs: Seq<Event>) -> bool {
    forall|i: int|
        0 <= i < evs.len() ==> !(#[trigger] evs[i] is Exited) && evs[i] != Event::DeadlineElapsed
            && evs[i] != Event::IoFailed
}

/// Without an exit, a deadline or a failure, the run is still going.
pub proof fn lemma_quiet_running(evs: Seq<Event>)
    requires
        quiet(evs),
    ensures
        run_events(evs).phase == Stage::Running,
        run_events(evs).exit is None,
    decreases evs.len(),
{
    if evs.len() > 0 {
        let prev = evs.drop_last();
        assert forall|i: int| 0 <= i < prev.len() implies !(#[trigger] prev[i] is Exited)
            && prev[i] != Event::DeadlineElapsed && prev[i] != Event::IoFailed by {
            assert(prev[i] == evs[i]);
        }
        lemma_quiet_running(prev);
        assert(evs[evs.len() - 1] == evs.last());
    }
}

/// A child still running when the deadline passes is killed, and the run
/// reports no status.
pub proof fn lemma_deadline_kills(evs: Seq<Event>, k: int)
    requires
        0 <= k < evs.len(),
        evs[k] == Event::DeadlineElapsed,
        quiet(evs.take(k)),
    ensures
        run_events(evs).phase == Stage::TimedOut,
        action_of(run_events(evs)) == Action::Kill,
        status_of(run_events(evs)) is None,
    decreases evs.len(),
{
    let prev = evs.drop_last();
    if k == evs.len() - 1 {
        assert(prev =~= evs.take(k));
        lemma_quiet_running(prev);
    } else {
        assert(prev.take(k) =~= evs.take(k));
        lemma_deadline_kills(prev, k);
    }
}

/// Events that report no failure, no deadline, and no exit code but `code`.
pub open spec fn clean_exit(evs: Seq<Event>, code: Option<i32>) -> bool {
    forall|i: int|
        0 <= i < evs.len() ==> (#[trigger] evs[i] is Exited ==> evs[i] == Event::Exited(code))
            && evs[i] != Event::DeadlineElapsed && evs[i] != Event::IoFailed
}

proof fn lemma_clean_exit_state(evs: Seq<Event>, code: Option<i32>)
    requires
        clean_exit(evs, code),
    ensures
        ({
            let s = run_events(evs);
            &&& s.phase == Stage::Running ==> !all_done(s)
            &&& s.phase == Stage::Running || s.phase == Stage::Completed
            &&& s.phase == Stage::Completed ==> all_done(s)
            &&& s.exit is None || s.exit == Some(code)
            &&& evs.contains(Event::InputClosed) ==> s.input_closed
            &&& evs.contains(Event::OutputDrained) ==> s.drained
            &&& evs.contains(Event::Exited(code)) ==> s.exit is Some
        }),
    decreases evs.len(),
{
    if evs.len() > 0 {
        let prev = evs.drop_last();
        assert forall|i: int| 0 <= i < prev.len() implies (#[trigger] prev[i] is Exited
            ==> prev[i] == Event::Exited(code)) && prev[i] != Event::DeadlineElapsed && prev[i]
            != Event::IoFailed by {
            assert(prev[i] == evs[i]);
        }
        lemma_clean_exit_state(prev, code);
        let last = evs.last();
        assert(evs[evs.len() - 1] == last);
        assert forall|e: Event| evs.contains(e) && e != last implies prev.contains(e) by {
            let i = choose|i: int| 0 <= i < evs.len() && evs[i] == e;
            assert(i < prev.len());
            assert(prev[i] == e);
        }
    }
}

/// A child that exits with `code` before the deadline, once its input is
/// fed and its output drained and with no I/O failure, completes with
/// status `code`.
pub proof fn lemma_exit_status_reported(evs: Seq<Event>, code: Option<i32>)
    requires
        clean_exit(evs, code),
        evs.contains(Event::InputClosed),
        evs.contains(Event::OutputDrained),
        evs.contains(Event::Exited(code)),
    ensures
        run_events(evs).phase == Stage::Completed,
        action_of(run_events(evs)) == Action::Finish,
        status_of(run_events(evs)) == code,
{
    lemma_clean_exit_state(evs, code);
}

} // verus!
