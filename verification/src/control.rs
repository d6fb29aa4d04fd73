//! The control loop: the state machine that drives the agent from start-up
//! to its stop.
//!
//! The loop waits for nothing and runs nothing itself. Each step takes the
//! event that its caller has seen and answers with the action that the
//! caller is to perform next. The caller reports what came of an action and
//! nothing else, but for the request to stop, which may come at any time:
//! settled files are held back until the loop waits for one.

use vstd::prelude::*;

verus! {

/// The time, in milliseconds, that the loop waits for an event before it
/// looks for the shutdown signal again, unless told otherwise.
pub const DEFAULT_POLL_INTERVAL_MS: u64 = 1000;

/// The life cycle of the control loop.
#[derive(Debug, Clone, Copy, PartialEq, Eq, Structural)]
pub enum ControlState {
    /// The watch is being established.
    Starting,
    /// Settled files are being relocated.
    Running,
    /// The shutdown signal has been seen; what is in flight may finish.
    Stopping,
    /// The end. Nothing follows.
    Stopped,
}

/// The status that the host's service manager is told.
#[derive(Debug, Clone, Copy, PartialEq, Eq, Structural)]
pub enum ServiceState {
    Running,
    StopPending,
    Stopped,
}

/// What went wrong around the loop.
#[derive(Debug, Clone, Copy, PartialEq, Eq, Structural)]
pub enum ControlError {
    /// The watch could not be established. The agent does not run without
    /// one.
    WatchInitError,
    /// The source of the shutdown signal was lost. The agent stops as if
    /// the signal had been given.
    ShutdownSignalError,
}

/// Where the loop is. `Idle` and `Relocating` are the two halves of
/// `ControlState::Running`.
#[derive(Debug, Clone, Copy, PartialEq, Eq, Structural)]
pub enum LoopPhase {
    Starting,
    /// Running, with no relocation in flight.
    Idle,
    /// Running, with one relocation in flight.
    Relocating,
    Stopping,
    Stopped,
}

/// What the caller has seen.
#[derive(Debug, Clone, PartialEq, Eq)]
pub enum LoopEvent {
    /// The watch on the root directory stands.
    WatchEstablished,
    /// The watch could not be established.
    WatchFailed,
    /// The file at `path` has settled.
    Settled { path: String },
    /// The wait ended without an event.
    PollElapsed,
    /// The relocation that was asked for has its outcome.
    RelocationFinished,
    /// Nothing is in flight any more.
    Drained,
    /// The shutdown signal was given.
    ShutdownRequested,
    /// The source of the shutdown signal was lost.
    ShutdownSignalLost,
}

/// What the caller is to do next.
#[derive(Debug, Clone, PartialEq, Eq)]
pub enum LoopAction {
    /// Establish the watch, then report `WatchEstablished` or `WatchFailed`.
    EstablishWatch,
    /// Wait for the next settled file or the shutdown signal, for at most
    /// `timeout_ms` milliseconds, then report what came, or `PollElapsed`.
    Await { timeout_ms: u64 },
    /// Relocate the file at `path`, then report `RelocationFinished`.
    Relocate { path: String },
    /// Start nothing new. Let the relocation in flight finish, if there is
    /// one, then report `Drained`.
    Drain,
    /// Go on with what the last action asked for: the event changed nothing.
    Continue,
    /// Stop. The loop has ended.
    Halt,
}

/// The model of a [`LoopEvent`].
pub enum LoopEventView {
    WatchEstablished,
    WatchFailed,
    Settled { path: Seq<char> },
    PollElapsed,
    RelocationFinished,
    Drained,
    ShutdownRequested,
    ShutdownSignalLost,
}

/// The model of a [`LoopAction`].
pub enum LoopActionView {
    EstablishWatch,
    Await { timeout_ms: u64 },
    Relocate { path: Seq<char> },
    Drain,
    Continue,
    Halt,
}

/// The model of a [`ControlLoop`].
pub struct ControlView {
    pub phase: LoopPhase,
    pub poll_interval_ms: u64,
    pub error: Option<ControlError>,
}

impl View for LoopEvent {
    type V = LoopEventView;

    open spec fn view(&self) -> LoopEventView {
        match self {
            LoopEvent::WatchEstablished => LoopEventView::WatchEstablished,
            LoopEvent::WatchFailed => LoopEventView::WatchFailed,
            LoopEvent::Settled { path } => LoopEventView::Settled { path: path@ },
            LoopEvent::PollElapsed => LoopEventView::PollElapsed,
            LoopEvent::RelocationFinished => LoopEventView::RelocationFinished,
            LoopEvent::Drained => LoopEventView::Drained,
            LoopEvent::ShutdownRequested => LoopEventView::ShutdownRequested,
            LoopEvent::ShutdownSignalLost => LoopEventView::ShutdownSignalLost,
        }
    }
}

impl View for LoopAction {
    type V = LoopActionView;

    open spec fn view(&self) -> LoopActionView {
        match self {
            LoopAction::EstablishWatch => LoopActionView::EstablishWatch,
            LoopAction::Await { timeout_ms } => LoopActionView::Await { timeout_ms: *timeout_ms },
            LoopAction::Relocate { path } => LoopActionView::Relocate { path: path@ },
            LoopAction::Drain => LoopActionView::Drain,
            LoopAction::Continue => LoopActionView::Continue,
            LoopAction::Halt => LoopActionView::Halt,
        }
    }
}

impl LoopEventView {
    /// Whether the event asks the loop to stop: the shutdown signal, or the
    /// loss of its source.
    pub open spec fn asks_to_stop(self) -> bool {
        self is ShutdownRequested || self is ShutdownSignalLost
    }
}

impl ControlView {
    /// The loop at its start.
    pub open spec fn initial(poll_interval_ms: u64) -> ControlView {
        ControlView { phase: LoopPhase::Starting, poll_interval_ms, error: None }
    }

    /// The state of the life cycle that the loop is in.
    pub open spec fn state(self) -> ControlState {
        match self.phase {
            LoopPhase::Starting => ControlState::Starting,
            LoopPhase::Idle => ControlState::Running,
            LoopPhase::Relocating => ControlState::Running,
            LoopPhase::Stopping => ControlState::Stopping,
            LoopPhase::Stopped => ControlState::Stopped,
        }
    }

    /// The status to tell the service manager, once there is one.
    pub open spec fn service_state(self) -> Option<ServiceState> {
        match self.phase {
            LoopPhase::Starting => None,
            LoopPhase::Idle => Some(ServiceState::Running),
            LoopPhase::Relocating => Some(ServiceState::Running),
            LoopPhase::Stopping => Some(ServiceState::StopPending),
            LoopPhase::Stopped => Some(ServiceState::Stopped),
        }
    }

    /// The loop in another phase.
    pub open spec fn at(self, phase: LoopPhase) -> ControlView {
        ControlView { phase, poll_interval_ms: self.poll_interval_ms, error: self.error }
    }

    /// The loop with `error` on record, unless an earlier one is.
    pub open spec fn failed(self, error: ControlError) -> ControlView {
        ControlView {
            phase: self.phase,
            poll_interval_ms: self.poll_interval_ms,
            error: if self.error is None {
                Some(error)
            } else {
                self.error
            },
        }
    }

    /// The wait of one poll interval.
    pub open spec fn wait(self) -> LoopActionView {
        LoopActionView::Await { timeout_ms: self.poll_interval_ms }
    }

    /// The loop after a request to stop, and the action that goes with it:
    /// nothing new is started, and what is in flight may finish.
    pub open spec fn stopping(self, event: LoopEventView) -> (ControlView, LoopActionView) {
        if event is ShutdownSignalLost {
            (self.failed(ControlError::ShutdownSignalError).at(LoopPhase::Stopping), LoopActionView::Drain)
        } else {
            (self.at(LoopPhase::Stopping), LoopActionView::Drain)
        }
    }

    /// The loop after `event`, and the action that the caller is to perform.
    ///
    /// Starting: with the watch established the loop runs and waits; if the
    /// watch failed the loop is stopped, with that error on record. Running
    /// with nothing in flight: a settled file is relocated, an empty wait is
    /// followed by another. Running with a relocation in flight: its end
    /// leads back to waiting. In each of these a request to stop leads to
    /// stopping. Stopping: once nothing is in flight any more the loop is
    /// stopped. Stopped: the loop stays so. An event for which the phase has
    /// no use changes nothing.
    pub open spec fn step(self, event: LoopEventView) -> (ControlView, LoopActionView) {
        match self.phase {
            LoopPhase::Starting => match event {
                LoopEventView::WatchEstablished => (self.at(LoopPhase::Idle), self.wait()),
                LoopEventView::WatchFailed => (
                    self.failed(ControlError::WatchInitError).at(LoopPhase::Stopped),
                    LoopActionView::Halt,
                ),
                LoopEventView::ShutdownRequested => self.stopping(event),
                LoopEventView::ShutdownSignalLost => self.stopping(event),
                _ => (self, LoopActionView::Continue),
            },
            LoopPhase::Idle => match event {
                LoopEventView::Settled { path } => (
                    self.at(LoopPhase::Relocating),
                    LoopActionView::Relocate { path },
                ),
                LoopEventView::PollElapsed => (self, self.wait()),
                LoopEventView::ShutdownRequested => self.stopping(event),
                LoopEventView::ShutdownSignalLost => self.stopping(event),
                _ => (self, LoopActionView::Continue),
            },
            LoopPhase::Relocating => match event {
                LoopEventView::RelocationFinished => (self.at(LoopPhase::Idle), self.wait()),
                LoopEventView::ShutdownRequested => self.stopping(event),
                LoopEventView::ShutdownSignalLost => self.stopping(event),
                _ => (self, LoopActionView::Continue),
            },
            LoopPhase::Stopping => match event {
                LoopEventView::RelocationFinished => (
                    self.at(LoopPhase::Stopped),
                    LoopActionView::Halt,
                ),
                LoopEventView::Drained => (self.at(LoopPhase::Stopped), LoopActionView::Halt),
                _ => (self, LoopActionView::Continue),
            },
            LoopPhase::Stopped => (self, LoopActionView::Halt),
        }
    }

    /// The loop after all of `events`, and the actions that it answered
    /// with, one for each event.
    pub open spec fn run(self, events: Seq<LoopEventView>) -> (ControlView, Seq<LoopActionView>)
        decreases events.len(),
    {
        if events.len() == 0 {
            (self, Seq::empty())
        } else {
            let (before, actions) = self.run(events.drop_last());
            let (after, action) = before.step(events.last());
            (after, actions.push(action))
        }
    }
}

/// The control loop of the agent.
#[derive(Debug, Clone, PartialEq, Eq)]
pub struct ControlLoop {
    phase: LoopPhase,
    poll_interval_ms: u64,
    error: Option<ControlError>,
}

impl View for ControlLoop {
    type V = ControlView;

    closed spec fn view(&self) -> ControlView {
        ControlView {
            phase: self.phase,
            poll_interval_ms: self.poll_interval_ms,
            error: self.error,
        }
    }
}

impl ControlLoop {
    /// A loop at its start, which waits `poll_interval_ms` milliseconds at a
    /// time. The first thing for its caller to do is to establish the watch.
    pub fn start(poll_interval_ms: u64) -> (started: (ControlLoop, LoopAction))
        ensures
            started.0@ == ControlView::initial(poll_interval_ms),
            started.1@ == LoopActionView::EstablishWatch,
    {
        (
            ControlLoop { phase: LoopPhase::Starting, poll_interval_ms, error: None },
            LoopAction::EstablishWatch,
        )
    }

    /// The state of the life cycle that the loop is in.
    pub fn state(&self) -> (state: ControlState)
        ensures
            state == self@.state(),
    {
        match self.phase {
            LoopPhase::Starting => ControlState::Starting,
            LoopPhase::Idle => ControlState::Running,
            LoopPhase::Relocating => ControlState::Running,
            LoopPhase::Stopping => ControlState::Stopping,
            LoopPhase::Stopped => ControlState::Stopped,
        }
    }

    /// The status to tell the service manager, once there is one.
    pub fn service_state(&self) -> (status: Option<ServiceState>)
        ensures
            status == self@.service_state(),
    {
        match self.phase {
            LoopPhase::Starting => None,
            LoopPhase::Idle => Some(ServiceState::Running),
            LoopPhase::Relocating => Some(ServiceState::Running),
            LoopPhase::Stopping => Some(ServiceState::StopPending),
            LoopPhase::Stopped => Some(ServiceState::Stopped),
        }
    }

    /// The error on record, if any.
    pub fn error(&self) -> (error: Option<ControlError>)
        ensures
            error == self@.error,
    {
        self.error
    }

    /// The longest time, in milliseconds, that the loop waits at a time.
    pub fn poll_interval_ms(&self) -> (interval: u64)
        ensures
            interval == self@.poll_interval_ms,
    {
        self.poll_interval_ms
    }

    /// Takes in `event` and answers with the action to perform next.
    pub fn step(&mut self, event: LoopEvent) -> (action: LoopAction)
        ensures
            (final(self)@, action@) == old(self)@.step(event@),
    {
        match self.phase {
            LoopPhase::Starting => match event {
                LoopEvent::WatchEstablished => {
                    self.phase = LoopPhase::Idle;
                    LoopAction::Await { timeout_ms: self.poll_interval_ms }
                },
                LoopEvent::WatchFailed => {
                    self.record(ControlError::WatchInitError);
                    self.phase = LoopPhase::Stopped;
                    LoopAction::Halt
                },
                LoopEvent::ShutdownRequested => self.stop(false),
                LoopEvent::ShutdownSignalLost => self.stop(true),
                _ => LoopAction::Continue,
            },
            LoopPhase::Idle => match event {
                LoopEvent::Settled { path } => {
                    self.phase = LoopPhase::Relocating;
                    LoopAction::Relocate { path }
                },
                LoopEvent::PollElapsed => LoopAction::Await { timeout_ms: self.poll_interval_ms },
                LoopEvent::ShutdownRequested => self.stop(false),
                LoopEvent::ShutdownSignalLost => self.stop(true),
                _ => LoopAction::Continue,
            },
            LoopPhase::Relocating => match event {
                LoopEvent::RelocationFinished => {
                    self.phase = LoopPhase::Idle;
                    LoopAction::Await { timeout_ms: self.poll_interval_ms }
                },
                LoopEvent::ShutdownRequested => self.stop(false),
                LoopEvent::ShutdownSignalLost => self.stop(true),
                _ => LoopAction::Continue,
            },
            LoopPhase::Stopping => match event {
                LoopEvent::RelocationFinished => {
                    self.phase = LoopPhase::Stopped;
                    LoopAction::Halt
                },
                LoopEvent::Drained => {
                    self.phase = LoopPhase::Stopped;
                    LoopAction::Halt
                },
                _ => LoopAction::Continue,
            },
            LoopPhase::Stopped => LoopAction::Halt,
        }
    }

    /// Puts `error` on record, unless an earlier one is.
    fn record(&mut self, error: ControlError)
        ensures
            final(self)@ == old(self)@.failed(error),
    {
        if self.error.is_none() {
            self.error = Some(error);
        }
    }

    /// Enters the stopping phase, after the loss of the signal's source if
    /// `lost`.
    fn stop(&mut self, lost: bool) -> (action: LoopAction)
        ensures
            lost ==> (final(self)@, action@) == old(self)@.stopping(
                LoopEventView::ShutdownSignalLost,
            ),
            !lost ==> (final(self)@, action@) == old(self)@.stopping(
                LoopEventView::ShutdownRequested,
            ),
    {
        if lost {
            self.record(ControlError::ShutdownSignalError);
        }
        self.phase = LoopPhase::Stopping;
        LoopAction::Drain
    }
}

/// How far through its life cycle a state is.
pub open spec fn progress(state: ControlState) -> nat {
    match state {
        ControlState::Starting => 0,
        ControlState::Running => 1,
        ControlState::Stopping => 2,
        ControlState::Stopped => 3,
    }
}

/// The life cycle runs one way: no event takes the loop back to a state
/// that it has left, and the stopped loop stays stopped and asks for
/// nothing but the halt.
pub proof fn lemma_life_cycle_runs_forward(state: ControlView, event: LoopEventView)
    ensures
        progress(state.state()) <= progress(state.step(event).0.state()),
        state.phase is Stopped ==> state.step(event) == (state, LoopActionView::Halt),
        state.step(event).0.poll_interval_ms == state.poll_interval_ms,
{
}

/// Bounded waiting: every wait that the loop asks for lasts one poll
/// interval, so a shutdown signal raised during a wait is seen within one
/// poll interval.
pub proof fn lemma_waits_are_bounded(state: ControlView, event: LoopEventView)
    ensures
        state.step(event).1 matches LoopActionView::Await { timeout_ms } ==> timeout_ms
            == state.poll_interval_ms,
{
}

/// One relocation at a time, in the order of arrival: a relocation is asked
/// for only when none is in flight, it is for the file whose settling was
/// just reported, and while it is in flight no other is asked for.
pub proof fn lemma_one_relocation_at_a_time(state: ControlView, event: LoopEventView)
    ensures
        state.step(event).1 matches LoopActionView::Relocate { path } ==> state.phase is Idle
            && event == (LoopEventView::Settled { path }) && state.step(event).0.phase
            is Relocating,
        state.phase is Relocating ==> !(state.step(event).1 is Relocate),
{
}

/// A request to stop is obeyed at once and is idempotent: the loop, unless
/// stopped already, is stopping after it, a loop that was starting or
/// running is told to let what is in flight finish, and a second request
/// changes nothing.
pub proof fn lemma_shutdown_is_idempotent(
    state: ControlView,
    first: LoopEventView,
    second: LoopEventView,
)
    requires
        first.asks_to_stop(),
        second.asks_to_stop(),
    ensures
        !(state.phase is Stopped) ==> state.step(first).0.phase is Stopping,
        state.phase is Stopped ==> state.step(first).0.phase is Stopped,
        state.state() is Starting || state.state() is Running ==> state.step(first).1 is Drain,
        state.step(first).0.step(second).0 == state.step(first).0,
{
}

/// After a request to stop the loop is stopped as soon as it hears that
/// nothing is in flight any more, be it that the relocation in flight has
/// finished or that there was none.
pub proof fn lemma_stopping_ends_when_drained(
    state: ControlView,
    request: LoopEventView,
    done: LoopEventView,
)
    requires
        request.asks_to_stop(),
        done is RelocationFinished || done is Drained,
    ensures
        state.step(request).0.step(done).0.phase is Stopped,
        state.step(request).0.step(done).1 is Halt,
{
}

/// Once the loop is stopping or stopped, no run of events makes it ask for
/// a relocation, and it stays stopping or stopped.
proof fn lemma_no_relocation_once_stopping(state: ControlView, events: Seq<LoopEventView>)
    requires
        state.phase is Stopping || state.phase is Stopped,
    ensures
        state.run(events).0.phase is Stopping || state.run(events).0.phase is Stopped,
        state.run(events).1.len() == events.len(),
        forall|i: int| 0 <= i < events.len() ==> !(#[trigger] state.run(events).1[i] is Relocate),
    decreases events.len(),
{
    if events.len() > 0 {
        lemma_no_relocation_once_stopping(state, events.drop_last());
    }
}

/// No new relocation after the signal: from the request to stop onwards,
/// whatever events follow, the loop never asks for a relocation again.
pub proof fn lemma_no_relocation_after_shutdown(
    state: ControlView,
    request: LoopEventView,
    events: Seq<LoopEventView>,
)
    requires
        request.asks_to_stop(),
    ensures
        !(state.step(request).1 is Relocate),
        state.step(request).0.run(events).1.len() == events.len(),
        forall|i: int|
            0 <= i < events.len() ==> !(#[trigger] state.step(request).0.run(events).1[i]
                is Relocate),
{
    lemma_no_relocation_once_stopping(state.step(request).0, events);
}

} // verus!
