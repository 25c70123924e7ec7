use tswift::session::{
    on_cancel_poll, on_disposition, on_start, parse_i64, same_ignoring_ascii_case, DriverStep,
    ResumeStep, TaskLifecycle, TaskState, Transfer, TransportEvent,
};

fn headers(pairs: &[(&str, &str)]) -> Vec<(String, String)> {
    pairs.iter().map(|(a, b)| (a.to_string(), b.to_string())).collect()
}

#[test]
fn fresh_task_is_suspended_and_resume_drives_it() {
    let mut t = TaskLifecycle::new();
    assert_eq!(t.state, TaskState::Suspended);
    assert!(!t.cancelled);
    assert_eq!(t.resume(), ResumeStep::Drive);
    assert_eq!(t.state, TaskState::Running);
    // Resuming a running task does nothing.
    assert_eq!(t.resume(), ResumeStep::Ignore);
    t.complete();
    assert_eq!(t.state, TaskState::Completed);
    assert_eq!(t.resume(), ResumeStep::Ignore);
}

#[test]
fn cancel_marks_the_task_canceling_once() {
    let mut t = TaskLifecycle::new();
    t.cancel();
    assert_eq!(t, TaskLifecycle { state: TaskState::Canceling, cancelled: true });
    t.cancel();
    assert_eq!(t, TaskLifecycle { state: TaskState::Canceling, cancelled: true });
}

#[test]
fn resume_after_cancel_delivers_the_cancellation() {
    let mut t = TaskLifecycle::new();
    t.cancel();
    assert_eq!(t.resume(), ResumeStep::DeliverCancelled);
    assert_eq!(t.state, TaskState::Completed);
    // A completed task ignores a later cancel.
    t.cancel();
    assert_eq!(t, TaskLifecycle { state: TaskState::Completed, cancelled: true });
}

#[test]
fn task_state_names_and_raw_values() {
    assert_eq!(TaskState::Running.raw_value(), 0);
    assert_eq!(TaskState::Suspended.raw_value(), 1);
    assert_eq!(TaskState::Canceling.raw_value(), 2);
    assert_eq!(TaskState::Completed.raw_value(), 3);
    assert_eq!(TaskState::Canceling.name(), "canceling");
    assert_eq!(TaskState::Suspended.name(), "suspended");
}

#[test]
fn parse_i64_agrees_with_std() {
    for s in [
        "42", "+7", "-15", "0", "-0", "9223372036854775807", "-9223372036854775808",
        "9223372036854775808", "-9223372036854775809", "", "-", "+", " 1", "1 ", "1x", "x1",
        "00012", "++1", "٣",
    ] {
        assert_eq!(parse_i64(s), s.parse::<i64>().ok(), "{s:?}");
    }
}

#[test]
fn header_names_compare_ignoring_ascii_case() {
    assert!(same_ignoring_ascii_case("Content-Length", "content-length"));
    assert!(same_ignoring_ascii_case("CONTENT-LENGTH", "content-length"));
    assert!(!same_ignoring_ascii_case("content-lengths", "content-length"));
    assert!(!same_ignoring_ascii_case("content_length", "content-length"));
    assert!(same_ignoring_ascii_case("", ""));
}

#[test]
fn well_formed_stream_finishes_with_the_chunks() {
    let mut tr = Transfer::new();
    let step = tr.on_event(
        TransportEvent::Response { status: 200, headers: headers(&[("Content-Length", "5")]) },
        true,
    );
    assert_eq!(step, DriverStep::AskDisposition);
    assert_eq!(on_disposition(true), DriverStep::Continue);
    assert_eq!(tr.on_event(TransportEvent::Chunk(b"he".to_vec()), true), DriverStep::ReportData);
    assert_eq!(tr.on_event(TransportEvent::Chunk(b"llo".to_vec()), false), DriverStep::Continue);
    assert_eq!(tr.on_event(TransportEvent::Done, true), DriverStep::Finish);
    let out = tr.outcome();
    assert_eq!(out.body, b"hello".to_vec());
    assert_eq!(out.status, 200);
    assert_eq!(out.bytes_received, 5);
    assert_eq!(out.bytes_expected, 5);
    assert_eq!(out.headers, headers(&[("Content-Length", "5")]));
}

#[test]
fn malformed_streams_are_bad_server_responses() {
    let bad = DriverStep::Abort("badServerResponse".to_string());
    let mut tr = Transfer::new();
    assert_eq!(tr.on_event(TransportEvent::Chunk(vec![1]), false), bad);
    assert_eq!(tr.on_event(TransportEvent::Done, false), DriverStep::Fail("badServerResponse".to_string()));
    assert_eq!(
        tr.on_event(TransportEvent::Response { status: 204, headers: Vec::new() }, false),
        DriverStep::Continue
    );
    assert_eq!(
        tr.on_event(TransportEvent::Response { status: 500, headers: Vec::new() }, false),
        bad
    );
    // The second response changed nothing.
    assert_eq!(tr.status, 204);
    assert_eq!(tr.bytes_expected, -1);
}

#[test]
fn transport_failure_is_reported_with_its_code() {
    let mut tr = Transfer::new();
    assert_eq!(
        tr.on_event(TransportEvent::Failed { code: "timedOut".to_string() }, true),
        DriverStep::NotifyThenFail("timedOut".to_string())
    );
}

#[test]
fn content_length_takes_the_last_valid_header() {
    let mut tr = Transfer::new();
    tr.on_event(
        TransportEvent::Response {
            status: 200,
            headers: headers(&[("content-length", "10"), ("X-Other", "3"), ("CONTENT-LENGTH", "12"), ("Content-Length", "n/a")]),
        },
        false,
    );
    assert_eq!(tr.bytes_expected, 12);
    let mut none = Transfer::new();
    none.on_event(TransportEvent::Response { status: 200, headers: headers(&[("Content-Length", "-")]) }, false);
    assert_eq!(none.bytes_expected, -1);
}

#[test]
fn cancellation_and_dispositions_end_the_transfer() {
    assert_eq!(on_cancel_poll(false), DriverStep::Continue);
    assert_eq!(on_cancel_poll(true), DriverStep::AbortThenNotify);
    assert_eq!(on_disposition(false), DriverStep::NotifyThenAbort);
    assert_eq!(on_start(true), DriverStep::Fail("cancelled".to_string()));
    assert_eq!(on_start(false), DriverStep::Continue);
}
