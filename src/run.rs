//! The trigger, queue-resolution and execution-watching phases of one run,
//! as a state machine: the caller performs each action and hands back what
//! the server answered.
use vstd::prelude::*;
use crate::urls::{queue_url, execution_url, trigger_url, queue_url_of, execution_url_of, trigger_url_of};
use crate::form::{encode_form, enc_pairs, param_bytes};

verus! {

/// Seconds to wait after an inconclusive poll.
pub const POLL_DELAY_SECS: u64 = 3;

/// What a run needs to know of its target.
pub struct JobConfig {
    /// Base address of the server.
    pub url: String,
    pub user: String,
    pub token: String,
    pub view: String,
    pub job: String,
    /// Parameters of the job, keys unique, in the order given.
    pub params: Vec<(String, String)>,
    /// Largest number of inconclusive polls in one phase; `None` polls forever.
    pub max_polls: Option<u64>,
}

/// The fields of a queue item that the resolver reads.
pub struct QueueItem {
    /// `None` while no execution is assigned.
    pub executable: Option<Executable>,
}

/// The `executable` object of a queue item.
pub struct Executable {
    /// The execution number; `None` when missing or not a non-negative integer.
    pub number: Option<u64>,
}

/// The fields of an execution's status that the watcher reads.
pub struct BuildStatus {
    /// The `result` field when it is a string; `None` when absent, null or of another kind.
    pub result: Option<String>,
}

/// The request that starts the job: a form body posted to `url`.
pub struct TriggerRequest {
    pub url: String,
    pub body: Vec<u8>,
}

/// How a `result` string classifies an execution.
#[derive(Debug, Clone, Copy, PartialEq, Eq, Structural)]
pub enum Outcome {
    Running,
    Success,
    Failure,
    Aborted,
}

/// Why a run ends without success.
#[derive(Debug, Clone, PartialEq, Eq)]
pub enum RunError {
    /// A request failed on the way.
    Transport { message: String },
    /// The trigger response carried no location to follow.
    MissingLocation,
    /// A response lacked a field that was required, or had one of the wrong kind.
    MalformedResponse,
    /// The execution ended with `FAILURE`.
    RemoteJobFailed,
    /// The execution ended with `ABORTED`.
    RemoteJobAborted,
    /// The poll ceiling was reached in a phase.
    PollTimeout,
}

/// Where a run stands.
#[derive(Debug, Clone, PartialEq, Eq)]
pub enum State {
    /// The trigger request is out.
    Triggering,
    /// Waiting for the queue item at `location`; `polls` inconclusive polls so far.
    Queued { location: String, polls: u64 },
    /// Watching execution `number`; `polls` inconclusive polls so far.
    Watching { number: u64, polls: u64 },
    Succeeded,
    Failed(RunError),
}

/// What the server answered to the last action.
pub enum Event {
    /// The trigger response, with its `Location` header if it had one.
    Triggered { location: Option<String> },
    /// A queue item was fetched.
    QueuePolled(QueueItem),
    /// An execution's status was fetched.
    BuildPolled(BuildStatus),
    /// The last request failed.
    TransportFailed { message: String },
}

/// What the caller does next.
#[derive(Debug, Clone, PartialEq, Eq)]
pub enum Action {
    /// Fetch `url` now.
    Poll { url: String },
    /// Wait the poll delay, then fetch `url`.
    PollAfterDelay { url: String },
    /// The run is over; the state says how it ended.
    Stop,
}

pub open spec fn is_terminal(s: State) -> bool {
    s is Succeeded || s is Failed
}

/// Classification of a `result` field.
pub open spec fn outcome_of(result: Option<Seq<char>>) -> Outcome {
    match result {
        Some(r) => if r == "SUCCESS"@ {
            Outcome::Success
        } else if r == "FAILURE"@ {
            Outcome::Failure
        } else if r == "ABORTED"@ {
            Outcome::Aborted
        } else {
            Outcome::Running
        },
        None => Outcome::Running,
    }
}

pub open spec fn result_view(result: Option<String>) -> Option<Seq<char>> {
    match result {
        Some(r) => Some(r@),
        None => None,
    }
}

/// The poll count after one more inconclusive poll, held at `u64::MAX`.
pub open spec fn bumped(polls: u64) -> u64 {
    if polls == u64::MAX { polls } else { (polls + 1) as u64 }
}

/// Whether `polls` inconclusive polls exhaust the ceiling.
pub open spec fn exhausted(max_polls: Option<u64>, polls: int) -> bool {
    match max_polls {
        Some(m) => polls >= m,
        None => false,
    }
}

fn str_eq(a: &str, b: &str) -> (r: bool)
    ensures
        r == (a@ == b@),
{
    let n = a.unicode_len();
    if n != b.unicode_len() {
        return false;
    }
    let mut i: usize = 0;
    while i < n
        invariant
            n == a@.len() == b@.len(),
            i <= n,
            forall|j: int| 0 <= j < i ==> a@[j] == b@[j],
        decreases n - i,
    {
        if a.get_char(i) != b.get_char(i) {
            return false;
        }
        i = i + 1;
    }
    assert(a@ =~= b@);
    true
}

/// Classifies the `result` field of an execution's status: `SUCCESS`,
/// `FAILURE` and `ABORTED` are terminal, anything else (or nothing) means the
/// execution is still running.
pub fn classify_result(result: &Option<String>) -> (r: Outcome)
    ensures
        r == outcome_of(result_view(*result)),
{
    match result {
        Some(s) => {
            if str_eq(s.as_str(), "SUCCESS") {
                Outcome::Success
            } else if str_eq(s.as_str(), "FAILURE") {
                Outcome::Failure
            } else if str_eq(s.as_str(), "ABORTED") {
                Outcome::Aborted
            } else {
                Outcome::Running
            }
        },
        None => Outcome::Running,
    }
}

fn inconclusive(max_polls: Option<u64>, polls: u64) -> (r: Option<u64>)
    ensures
        match r {
            Some(p) => !exhausted(max_polls, polls + 1) && p == bumped(polls),
            None => exhausted(max_polls, polls + 1),
        },
{
    match max_polls {
        Some(m) => {
            if polls >= m || m - polls <= 1 {
                None
            } else {
                Some(polls + 1)
            }
        },
        None => {
            if polls == u64::MAX {
                Some(polls)
            } else {
                Some(polls + 1)
            }
        },
    }
}

/// What one step of a run does: the next state and action for `state` after `event`.
pub open spec fn transition(conf: JobConfig, state: State, event: Event, r: (State, Action)) -> bool {
    &&& is_terminal(state) ==> r.0 == state && r.1 is Stop
    &&& !is_terminal(state) ==> match event {
        Event::TransportFailed { message } => r.0 == State::Failed(
            RunError::Transport { message },
        ) && r.1 is Stop,
        Event::Triggered { location } => match state {
            State::Triggering => match location {
                None => r.0 == State::Failed(RunError::MissingLocation) && r.1 is Stop,
                Some(loc) => r.0 == (State::Queued { location: loc, polls: 0 }) && (
                r.1 matches Action::Poll { url } && url@ == queue_url_of(loc@)),
            },
            _ => r.0 == State::Failed(RunError::MalformedResponse) && r.1 is Stop,
        },
        Event::QueuePolled(item) => match state {
            State::Queued { location, polls } => match item.executable {
                None => if exhausted(conf.max_polls, polls + 1) {
                    r.0 == State::Failed(RunError::PollTimeout) && r.1 is Stop
                } else {
                    r.0 == (State::Queued { location, polls: bumped(polls) }) && (
                    r.1 matches Action::PollAfterDelay { url } && url@ == queue_url_of(
                        location@,
                    ))
                },
                Some(e) => match e.number {
                    Some(n) => r.0 == (State::Watching { number: n, polls: 0 }) && (
                    r.1 matches Action::Poll { url } && url@ == execution_url_of(
                        conf.url@,
                        conf.job@,
                        n as nat,
                    )),
                    None => r.0 == State::Failed(RunError::MalformedResponse) && r.1 is Stop,
                },
            },
            _ => r.0 == State::Failed(RunError::MalformedResponse) && r.1 is Stop,
        },
        Event::BuildPolled(status) => match state {
            State::Watching { number, polls } => match outcome_of(
                result_view(status.result),
            ) {
                Outcome::Success => r.0 == State::Succeeded && r.1 is Stop,
                Outcome::Failure => r.0 == State::Failed(RunError::RemoteJobFailed)
                    && r.1 is Stop,
                Outcome::Aborted => r.0 == State::Failed(RunError::RemoteJobAborted)
                    && r.1 is Stop,
                Outcome::Running => if exhausted(conf.max_polls, polls + 1) {
                    r.0 == State::Failed(RunError::PollTimeout) && r.1 is Stop
                } else {
                    r.0 == (State::Watching { number, polls: bumped(polls) }) && (
                    r.1 matches Action::PollAfterDelay { url } && url@ == execution_url_of(
                        conf.url@,
                        conf.job@,
                        number as nat,
                    ))
                },
            },
            _ => r.0 == State::Failed(RunError::MalformedResponse) && r.1 is Stop,
        },
    }
}

/// Advances a run by what the server answered to its last action.
///
/// A finished run stays as it is. A failed request ends the run with a
/// transport error. The trigger response must carry a location, which is then
/// polled; a queue item without `executable` is polled again after the delay,
/// one with a numeric `number` starts the watch of that execution; an
/// execution's status is polled again after the delay until its `result`
/// is terminal. An answer that does not belong to the phase is malformed.
/// With a poll ceiling, the poll that reaches it ends the run.
pub fn next(conf: &JobConfig, state: State, event: Event) -> (r: (State, Action))
    ensures
        transition(*conf, state, event, r),
{
    match state {
        State::Succeeded => (State::Succeeded, Action::Stop),
        State::Failed(e) => (State::Failed(e), Action::Stop),
        State::Triggering => match event {
            Event::TransportFailed { message } => (
                State::Failed(RunError::Transport { message }),
                Action::Stop,
            ),
            Event::Triggered { location } => match location {
                None => (State::Failed(RunError::MissingLocation), Action::Stop),
                Some(loc) => {
                    let url = queue_url(loc.as_str());
                    (State::Queued { location: loc, polls: 0 }, Action::Poll { url })
                },
            },
            _ => (State::Failed(RunError::MalformedResponse), Action::Stop),
        },
        State::Queued { location, polls } => match event {
            Event::TransportFailed { message } => (
                State::Failed(RunError::Transport { message }),
                Action::Stop,
            ),
            Event::QueuePolled(item) => match item.executable {
                None => match inconclusive(conf.max_polls, polls) {
                    None => (State::Failed(RunError::PollTimeout), Action::Stop),
                    Some(p) => {
                        let url = queue_url(location.as_str());
                        (State::Queued { location, polls: p }, Action::PollAfterDelay { url })
                    },
                },
                Some(e) => match e.number {
                    Some(n) => {
                        let url = execution_url(conf.url.as_str(), conf.job.as_str(), n);
                        (State::Watching { number: n, polls: 0 }, Action::Poll { url })
                    },
                    None => (State::Failed(RunError::MalformedResponse), Action::Stop),
                },
            },
            _ => (State::Failed(RunError::MalformedResponse), Action::Stop),
        },
        State::Watching { number, polls } => match event {
            Event::TransportFailed { message } => (
                State::Failed(RunError::Transport { message }),
                Action::Stop,
            ),
            Event::BuildPolled(status) => match classify_result(&status.result) {
                Outcome::Success => (State::Succeeded, Action::Stop),
                Outcome::Failure => (State::Failed(RunError::RemoteJobFailed), Action::Stop),
                Outcome::Aborted => (State::Failed(RunError::RemoteJobAborted), Action::Stop),
                Outcome::Running => match inconclusive(conf.max_polls, polls) {
                    None => (State::Failed(RunError::PollTimeout), Action::Stop),
                    Some(p) => {
                        let url = execution_url(conf.url.as_str(), conf.job.as_str(), number);
                        (State::Watching { number, polls: p }, Action::PollAfterDelay { url })
                    },
                },
            },
            _ => (State::Failed(RunError::MalformedResponse), Action::Stop),
        },
    }
}

/// The request that starts a run, which then stands in `State::Triggering`.
pub fn trigger_request(conf: &JobConfig) -> (r: TriggerRequest)
    ensures
        r.url@ == trigger_url_of(conf.url@, conf.view@, conf.job@),
        r.body@ == enc_pairs(param_bytes(conf.params@)),
{
    TriggerRequest {
        url: trigger_url(conf.url.as_str(), conf.view.as_str(), conf.job.as_str()),
        body: encode_form(&conf.params),
    }
}

/// Order of the phases: trigger, queue, watch, end.
pub open spec fn phase_rank(s: State) -> nat {
    match s {
        State::Triggering => 0,
        State::Queued { .. } => 1,
        State::Watching { .. } => 2,
        State::Succeeded => 3,
        State::Failed(_) => 3,
    }
}

/// A run only moves forward: no step returns to an earlier phase.
pub proof fn lemma_forward_only(conf: JobConfig, state: State, event: Event, r: (State, Action))
    requires
        transition(conf, state, event, r),
    ensures
        phase_rank(r.0) >= phase_rank(state),
{
}

/// A trigger response without a location ends the run with
/// `MissingLocation`, and nothing is polled.
pub proof fn lemma_missing_location_stops(conf: JobConfig, r: (State, Action))
    requires
        transition(conf, State::Triggering, Event::Triggered { location: None }, r),
    ensures
        r.0 == State::Failed(RunError::MissingLocation),
        r.1 is Stop,
{
}

/// A queue item without `executable` keeps the run in the queue phase and
/// polls the same item again after the delay.
pub proof fn lemma_unassigned_item_polls_again(
    conf: JobConfig,
    location: String,
    polls: u64,
    r: (State, Action),
)
    requires
        transition(
            conf,
            State::Queued { location, polls },
            Event::QueuePolled(QueueItem { executable: None }),
            r,
        ),
        !exhausted(conf.max_polls, polls + 1),
    ensures
        r.0 == (State::Queued { location, polls: bumped(polls) }),
        r.1 matches Action::PollAfterDelay { url } && url@ == queue_url_of(location@),
{
}

/// A queue item whose `executable` has number `n` starts the watch of
/// execution `n`, which is polled at once.
pub proof fn lemma_assigned_item_starts_watch(
    conf: JobConfig,
    location: String,
    polls: u64,
    n: u64,
    r: (State, Action),
)
    requires
        transition(
            conf,
            State::Queued { location, polls },
            Event::QueuePolled(QueueItem { executable: Some(Executable { number: Some(n) }) }),
            r,
        ),
    ensures
        r.0 == (State::Watching { number: n, polls: 0 }),
        r.1 matches Action::Poll { url } && url@ == execution_url_of(conf.url@, conf.job@, n as nat),
{
}

/// Once watching, a run keeps its execution number until it ends: the queue
/// is never resolved a second time.
pub proof fn lemma_watch_keeps_number(
    conf: JobConfig,
    number: u64,
    polls: u64,
    event: Event,
    r: (State, Action),
)
    requires
        transition(conf, State::Watching { number, polls }, event, r),
    ensures
        r.0 is Watching || is_terminal(r.0),
        r.0 is Watching ==> r.0->number == number,
{
}

/// A `result` other than `SUCCESS`, `FAILURE` and `ABORTED` is not terminal:
/// the same execution is polled again after the delay.
pub proof fn lemma_unrecognized_result_polls_again(
    conf: JobConfig,
    number: u64,
    polls: u64,
    result: String,
    r: (State, Action),
)
    requires
        result@ != "SUCCESS"@,
        result@ != "FAILURE"@,
        result@ != "ABORTED"@,
        transition(
            conf,
            State::Watching { number, polls },
            Event::BuildPolled(BuildStatus { result: Some(result) }),
            r,
        ),
        !exhausted(conf.max_polls, polls + 1),
    ensures
        r.0 == (State::Watching { number, polls: bumped(polls) }),
        r.1 matches Action::PollAfterDelay { url } && url@ == execution_url_of(
            conf.url@,
            conf.job@,
            number as nat,
        ),
{
}

} // verus!
