use jenkins_trigger::run::{
    classify_result, next, trigger_request, Action, BuildStatus, Event, Executable, JobConfig,
    Outcome, QueueItem, RunError, State, POLL_DELAY_SECS,
};

fn conf(max_polls: Option<u64>) -> JobConfig {
    JobConfig {
        url: "https://ci.example.org".to_string(),
        user: "builder".to_string(),
        token: "SECRET-REDACTED".to_string(),
        view: "nightly".to_string(),
        job: "deploy".to_string(),
        params: vec![("BRANCH".to_string(), "main".to_string())],
        max_polls,
    }
}

fn status(result: Option<&str>) -> Event {
    Event::BuildPolled(BuildStatus { result: result.map(|r| r.to_string()) })
}

fn watching(number: u64, polls: u64) -> State {
    State::Watching { number, polls }
}

const LOCATION: &str = "https://ci.example.org/queue/item/9";
const EXEC_URL: &str = "https://ci.example.org/job/deploy/42/api/json";

#[test]
fn trigger_request_targets_job_with_form_body() {
    let r = trigger_request(&conf(None));
    assert_eq!(r.url, "https://ci.example.org/view/nightly/job/deploy/buildWithParameters");
    assert_eq!(r.body, b"BRANCH=main".to_vec());
    assert_eq!(POLL_DELAY_SECS, 3);
}

#[test]
fn location_starts_queue_polling() {
    let (s, a) = next(
        &conf(None),
        State::Triggering,
        Event::Triggered { location: Some(LOCATION.to_string()) },
    );
    assert_eq!(s, State::Queued { location: LOCATION.to_string(), polls: 0 });
    assert_eq!(a, Action::Poll { url: format!("{LOCATION}/api/json") });
}

#[test]
fn missing_location_stops_without_polling() {
    let (s, a) = next(&conf(None), State::Triggering, Event::Triggered { location: None });
    assert_eq!(s, State::Failed(RunError::MissingLocation));
    assert_eq!(a, Action::Stop);
}

#[test]
fn unassigned_queue_item_polls_again_after_delay() {
    let start = State::Queued { location: LOCATION.to_string(), polls: 0 };
    let (s, a) = next(&conf(None), start, Event::QueuePolled(QueueItem { executable: None }));
    assert_eq!(s, State::Queued { location: LOCATION.to_string(), polls: 1 });
    assert_eq!(a, Action::PollAfterDelay { url: format!("{LOCATION}/api/json") });
}

#[test]
fn assigned_queue_item_yields_number_and_watches() {
    let start = State::Queued { location: LOCATION.to_string(), polls: 5 };
    let item = QueueItem { executable: Some(Executable { number: Some(42) }) };
    let (s, a) = next(&conf(None), start, Event::QueuePolled(item));
    assert_eq!(s, watching(42, 0));
    assert_eq!(a, Action::Poll { url: EXEC_URL.to_string() });
    // Any later answer keeps the same number or ends the run.
    let (s2, _) = next(&conf(None), s, status(None));
    assert_eq!(s2, watching(42, 1));
}

#[test]
fn executable_without_number_is_malformed() {
    let start = State::Queued { location: LOCATION.to_string(), polls: 0 };
    let item = QueueItem { executable: Some(Executable { number: None }) };
    let (s, a) = next(&conf(None), start, Event::QueuePolled(item));
    assert_eq!(s, State::Failed(RunError::MalformedResponse));
    assert_eq!(a, Action::Stop);
}

#[test]
fn three_polls_then_success() {
    let c = conf(None);
    let mut s = watching(42, 0);
    let mut polls = 0;
    for (i, result) in [None, None, Some("SUCCESS")].into_iter().enumerate() {
        let (s2, a) = next(&c, s, status(result));
        polls += 1;
        s = s2;
        if i < 2 {
            assert_eq!(a, Action::PollAfterDelay { url: EXEC_URL.to_string() });
        } else {
            assert_eq!(a, Action::Stop);
        }
    }
    assert_eq!(polls, 3);
    assert_eq!(s, State::Succeeded);
}

#[test]
fn failure_result_fails_the_run() {
    let (s, a) = next(&conf(None), watching(42, 0), status(Some("FAILURE")));
    assert_eq!(s, State::Failed(RunError::RemoteJobFailed));
    assert_eq!(a, Action::Stop);
}

#[test]
fn aborted_result_fails_the_run() {
    let (s, a) = next(&conf(None), watching(42, 0), status(Some("ABORTED")));
    assert_eq!(s, State::Failed(RunError::RemoteJobAborted));
    assert_eq!(a, Action::Stop);
}

#[test]
fn unrecognized_result_keeps_polling() {
    for r in ["UNSTABLE", "NOT_BUILT", "success", ""] {
        let (s, a) = next(&conf(None), watching(42, 2), status(Some(r)));
        assert_eq!(s, watching(42, 3));
        assert_eq!(a, Action::PollAfterDelay { url: EXEC_URL.to_string() });
    }
}

#[test]
fn classification_of_results() {
    assert_eq!(classify_result(&Some("SUCCESS".to_string())), Outcome::Success);
    assert_eq!(classify_result(&Some("FAILURE".to_string())), Outcome::Failure);
    assert_eq!(classify_result(&Some("ABORTED".to_string())), Outcome::Aborted);
    assert_eq!(classify_result(&Some("UNSTABLE".to_string())), Outcome::Running);
    assert_eq!(classify_result(&None), Outcome::Running);
}

#[test]
fn poll_ceiling_ends_each_phase() {
    let c = conf(Some(2));
    let q = State::Queued { location: LOCATION.to_string(), polls: 0 };
    let (q1, _) = next(&c, q, Event::QueuePolled(QueueItem { executable: None }));
    assert_eq!(q1, State::Queued { location: LOCATION.to_string(), polls: 1 });
    let (q2, a) = next(&c, q1, Event::QueuePolled(QueueItem { executable: None }));
    assert_eq!(q2, State::Failed(RunError::PollTimeout));
    assert_eq!(a, Action::Stop);
    let (w, a) = next(&c, watching(42, 1), status(Some("UNSTABLE")));
    assert_eq!(w, State::Failed(RunError::PollTimeout));
    assert_eq!(a, Action::Stop);
}

#[test]
fn no_ceiling_saturates_count() {
    let (s, _) = next(&conf(None), watching(42, u64::MAX), status(None));
    assert_eq!(s, watching(42, u64::MAX));
}

#[test]
fn transport_failure_ends_the_run() {
    let (s, a) = next(
        &conf(None),
        watching(42, 0),
        Event::TransportFailed { message: "connection refused".to_string() },
    );
    assert_eq!(s, State::Failed(RunError::Transport { message: "connection refused".to_string() }));
    assert_eq!(a, Action::Stop);
}

#[test]
fn answer_of_another_phase_is_malformed() {
    let (s, a) = next(&conf(None), State::Triggering, status(Some("SUCCESS")));
    assert_eq!(s, State::Failed(RunError::MalformedResponse));
    assert_eq!(a, Action::Stop);
}

#[test]
fn finished_run_stays_finished() {
    let (s, a) = next(&conf(None), State::Succeeded, status(Some("FAILURE")));
    assert_eq!(s, State::Succeeded);
    assert_eq!(a, Action::Stop);
    let (s, a) = next(
        &conf(None),
        State::Failed(RunError::RemoteJobAborted),
        Event::Triggered { location: None },
    );
    assert_eq!(s, State::Failed(RunError::RemoteJobAborted));
    assert_eq!(a, Action::Stop);
}
