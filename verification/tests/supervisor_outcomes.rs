use shardfetch::line_protocol::RawConfig;
use shardfetch::supervisor::{
    finalize, launch_failure, stream_failure, FailReason, JobOutcome, JobState, PayloadRule,
    PayloadSource, StatusEvent,
};

fn no_raw() -> RawConfig {
    RawConfig { bracket: false, brace: false }
}

#[test]
fn clean_exit_with_success_line_yields_its_payload() {
    let mut state = JobState::new(no_raw());
    state.observe_err_line(b"SUCCESS: done\n");
    let outcome = finalize(
        state,
        PayloadSource::SuccessLine,
        PayloadRule::Required,
        b"finished".to_vec(),
        true,
        Some(0),
    );
    match outcome {
        JobOutcome::Success(p) => assert_eq!(p, b"done".to_vec()),
        _ => panic!("expected success"),
    }
}

#[test]
fn later_success_line_overwrites_the_earlier_one() {
    let mut state = JobState::new(no_raw());
    state.observe_err_line(b"SUCCESS: first\n");
    state.observe_err_line(b"SUCCESS: second\n");
    assert_eq!(state.last_success, Some(b"second".to_vec()));
}

#[test]
fn failed_exit_yields_failure_with_the_exit_code() {
    let state = JobState::new(no_raw());
    let outcome = finalize(
        state,
        PayloadSource::SuccessLine,
        PayloadRule::Required,
        b"finished".to_vec(),
        false,
        Some(1),
    );
    match outcome {
        JobOutcome::Failure(code, reason) => {
            assert_eq!(code, Some(1));
            assert_eq!(reason, FailReason::ExitStatus);
        }
        _ => panic!("expected failure"),
    }
}

#[test]
fn clean_exit_without_payload_fails_a_payload_required_job() {
    let state = JobState::new(no_raw());
    let outcome = finalize(
        state,
        PayloadSource::SuccessLine,
        PayloadRule::Required,
        b"finished".to_vec(),
        true,
        Some(0),
    );
    match outcome {
        JobOutcome::Failure(code, reason) => {
            assert_eq!(code, Some(0));
            assert_eq!(reason, FailReason::NoPayload);
        }
        _ => panic!("expected failure"),
    }
}

#[test]
fn clean_exit_without_payload_confirms_a_confirmation_only_job() {
    let state = JobState::new(no_raw());
    let outcome = finalize(
        state,
        PayloadSource::SuccessLine,
        PayloadRule::ConfirmationOnly,
        b"sync finished".to_vec(),
        true,
        Some(0),
    );
    match outcome {
        JobOutcome::Success(p) => assert_eq!(p, b"sync finished".to_vec()),
        _ => panic!("expected the default payload"),
    }
}

#[test]
fn empty_success_payload_counts_as_missing() {
    let mut state = JobState::new(no_raw());
    state.observe_err_line(b"SUCCESS:   \n");
    let outcome = finalize(
        state,
        PayloadSource::SuccessLine,
        PayloadRule::Required,
        b"finished".to_vec(),
        true,
        Some(0),
    );
    assert!(matches!(
        outcome,
        JobOutcome::Failure(Some(0), FailReason::NoPayload)
    ));
}

#[test]
fn raw_line_jobs_take_their_payload_from_the_output_stream() {
    let mut state = JobState::new(RawConfig::brace_only());
    state.observe_out_line(b"{\"file\":\"a.csv\"}\n");
    state.observe_err_line(b"INFO: exporting\n");
    let outcome = finalize(
        state,
        PayloadSource::RawLine,
        PayloadRule::Required,
        b"finished".to_vec(),
        true,
        Some(0),
    );
    match outcome {
        JobOutcome::Success(p) => assert_eq!(p, b"{\"file\":\"a.csv\"}".to_vec()),
        _ => panic!("expected the raw payload"),
    }
}

#[test]
fn status_lines_become_events_and_success_lines_do_not() {
    let mut state = JobState::new(no_raw());
    let ev = state.observe_err_line(b"PROGRESS: 30\n");
    assert!(matches!(ev, Some(StatusEvent::Progress(30))));
    let ev = state.observe_err_line(b"INFO: step one\n");
    match ev {
        Some(StatusEvent::Info(m)) => assert_eq!(m, b"step one".to_vec()),
        _ => panic!("expected an info event"),
    }
    let ev = state.observe_err_line(b"WARNING: odd data\n");
    assert!(matches!(ev, Some(StatusEvent::Warning(_))));
    let ev = state.observe_err_line(b"ERROR: bad page\n");
    assert!(matches!(ev, Some(StatusEvent::Error(_))));
    let ev = state.observe_err_line(b"SUCCESS: done\n");
    assert!(ev.is_none());
    let ev = state.observe_err_line(b"chatter\n");
    assert!(ev.is_none());
}

#[test]
fn spawn_and_stream_failures_have_their_own_reasons() {
    assert!(matches!(
        launch_failure(),
        JobOutcome::Failure(None, FailReason::Launch)
    ));
    assert!(matches!(
        stream_failure(),
        JobOutcome::Failure(None, FailReason::Stream)
    ));
}

#[test]
fn failure_reasons_describe_themselves() {
    assert_eq!(
        FailReason::Launch.describe(),
        "the worker process could not be started"
    );
    assert_eq!(
        FailReason::ExitStatus.describe(),
        "the worker exited unsuccessfully"
    );
}
