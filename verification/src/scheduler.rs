//! The push schedule: when to collect and send, and what to do when a push
//! has finished.
//!
//! The scheduler decides; the caller acts. It is told that the timer fired
//! or that a push finished, and answers with the next thing to do. A failed
//! push is logged and nothing else: the next push is due one interval later,
//! exactly as after a push that was delivered.
use vstd::prelude::*;

verus! {

/// Where the scheduler is in its cycle.
#[derive(Clone, Copy, Debug, PartialEq, Eq, Structural)]
pub enum SchedulerState {
    /// Between two ticks.
    Idle,
    /// Collecting and sending.
    InFlight,
}

/// How a push ended.
#[derive(Debug)]
pub enum PushOutcome {
    /// The endpoint accepted the snapshot.
    Delivered,
    /// The snapshot was not encoded, not sent, or not accepted; the reason
    /// is given in words.
    Failed(String),
}

/// What the scheduler is told.
#[derive(Debug)]
pub enum Event {
    /// The interval has passed.
    TimerFired,
    /// Collecting and sending has ended.
    PushFinished(PushOutcome),
}

/// How loud a log line is.
#[derive(Clone, Copy, Debug, PartialEq, Eq, Structural)]
pub enum LogLevel {
    Info,
    Error,
}

/// What the caller is to do next.
#[derive(Debug)]
pub enum Action {
    /// Collect a snapshot and push it, then report how it ended.
    CollectAndSend,
    /// Write the log line, sleep for the interval, then report that the
    /// timer fired.
    LogAndSleep { level: LogLevel, message: String, seconds: u64 },
    /// The event does not belong to the state: do nothing.
    Ignore,
}

/// The log line for a push that was delivered.
pub open spec fn delivered_message() -> Seq<char> {
    "Metrics collected and sent"@
}

/// The log line for a push that failed for `reason`.
pub open spec fn failed_message(reason: Seq<char>) -> Seq<char> {
    "Metrics collection failed: "@ + reason
}

/// The schedule of one exporter.
#[derive(Debug)]
pub struct Scheduler {
    state: SchedulerState,
    interval_seconds: u64,
}

/// A scheduler as the contracts see it.
pub struct SchedulerView {
    pub state: SchedulerState,
    pub interval_seconds: u64,
}

/// An action as the contracts see it.
pub enum ActionView {
    CollectAndSend,
    LogAndSleep { level: LogLevel, message: Seq<char>, seconds: u64 },
    Ignore,
}

impl View for Action {
    type V = ActionView;

    open spec fn view(&self) -> ActionView {
        match *self {
            Action::CollectAndSend => ActionView::CollectAndSend,
            Action::LogAndSleep { level, message, seconds } => ActionView::LogAndSleep {
                level,
                message: message@,
                seconds,
            },
            Action::Ignore => ActionView::Ignore,
        }
    }
}

impl SchedulerView {
    /// The state after an event.
    pub open spec fn next_state(self, event: Event) -> SchedulerState {
        match (self.state, event) {
            (SchedulerState::Idle, Event::TimerFired) => SchedulerState::InFlight,
            (SchedulerState::InFlight, Event::PushFinished(_)) => SchedulerState::Idle,
            _ => self.state,
        }
    }

    /// What is to be done after an event.
    pub open spec fn next_action(self, event: Event) -> ActionView {
        match (self.state, event) {
            (SchedulerState::Idle, Event::TimerFired) => ActionView::CollectAndSend,
            (SchedulerState::InFlight, Event::PushFinished(PushOutcome::Delivered)) => ActionView::LogAndSleep {
                level: LogLevel::Info,
                message: delivered_message(),
                seconds: self.interval_seconds,
            },
            (
                SchedulerState::InFlight,
                Event::PushFinished(PushOutcome::Failed(reason)),
            ) => ActionView::LogAndSleep {
                level: LogLevel::Error,
                message: failed_message(reason@),
                seconds: self.interval_seconds,
            },
            _ => ActionView::Ignore,
        }
    }

    /// The scheduler after an event.
    pub open spec fn after(self, event: Event) -> SchedulerView {
        SchedulerView { state: self.next_state(event), ..self }
    }
}

impl View for Scheduler {
    type V = SchedulerView;

    closed spec fn view(&self) -> SchedulerView {
        SchedulerView { state: self.state, interval_seconds: self.interval_seconds }
    }
}

impl Scheduler {
    /// A scheduler between ticks, for the given interval.
    pub fn new(interval_seconds: u64) -> (scheduler: Self)
        ensures
            scheduler@ == (SchedulerView { state: SchedulerState::Idle, interval_seconds }),
    {
        Scheduler { state: SchedulerState::Idle, interval_seconds }
    }

    /// Where the scheduler is in its cycle.
    pub fn state(&self) -> (state: SchedulerState)
        ensures
            state == self@.state,
    {
        self.state
    }

    /// The interval between two pushes, in seconds.
    pub fn interval_seconds(&self) -> (seconds: u64)
        ensures
            seconds == self@.interval_seconds,
    {
        self.interval_seconds
    }

    /// Takes an event and says what to do next.
    ///
    /// When the timer fires between ticks, a push starts. When a push
    /// finishes, however it ended, the scheduler is between ticks again and
    /// the caller sleeps for one interval. The interval never changes.
    pub fn step(&mut self, event: Event) -> (action: Action)
        ensures
            final(self)@ == old(self)@.after(event),
            action@ == old(self)@.next_action(event),
    {
        match self.state {
            SchedulerState::Idle => match event {
                Event::TimerFired => {
                    self.state = SchedulerState::InFlight;
                    Action::CollectAndSend
                },
                Event::PushFinished(_) => Action::Ignore,
            },
            SchedulerState::InFlight => match event {
                Event::TimerFired => Action::Ignore,
                Event::PushFinished(outcome) => {
                    self.state = SchedulerState::Idle;
                    match outcome {
                        PushOutcome::Delivered => Action::LogAndSleep {
                            level: LogLevel::Info,
                            message: String::from_str("Metrics collected and sent"),
                            seconds: self.interval_seconds,
                        },
                        PushOutcome::Failed(reason) => Action::LogAndSleep {
                            level: LogLevel::Error,
                            message: String::from_str("Metrics collection failed: ").concat(
                                reason.as_str(),
                            ),
                            seconds: self.interval_seconds,
                        },
                    }
                },
            },
        }
    }
}

/// A push that fails does not end the schedule: whatever the outcome, the
/// scheduler is idle afterwards, the caller sleeps for exactly one interval,
/// and the timer that fires then starts the next push.
pub proof fn law_failed_push_continues(scheduler: SchedulerView, outcome: PushOutcome)
    requires
        scheduler.state == SchedulerState::InFlight,
    ensures
        scheduler.after(Event::PushFinished(outcome)).state == SchedulerState::Idle,
        scheduler.after(Event::PushFinished(outcome)).interval_seconds == scheduler.interval_seconds,
        scheduler.next_action(Event::PushFinished(outcome)) matches ActionView::LogAndSleep { seconds, .. }
            && seconds == scheduler.interval_seconds,
        scheduler.after(Event::PushFinished(outcome)).next_action(Event::TimerFired)
            == ActionView::CollectAndSend,
        scheduler.after(Event::PushFinished(outcome)).after(Event::TimerFired).state
            == SchedulerState::InFlight,
{
}

/// There is no final state: from either state some event leads on, and the
/// two states are all there is.
pub proof fn law_schedule_never_ends(scheduler: SchedulerView)
    ensures
        scheduler.state == SchedulerState::Idle ==> scheduler.after(Event::TimerFired).state
            == SchedulerState::InFlight,
        scheduler.state == SchedulerState::InFlight ==> forall|outcome: PushOutcome|
            (#[trigger] scheduler.after(Event::PushFinished(outcome))).state == SchedulerState::Idle,
{
}

} // verus!
