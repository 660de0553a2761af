use gotham_core::error::{FailureCause, HandlerError, IntoHandlerError, INTERNAL_SERVER_ERROR};
use gotham_core::response::IntoResponse;
use gotham_core::state::State;

fn teapot_error() -> HandlerError {
    FailureCause::new("disk full".to_string()).into_handler_error()
}

#[test]
fn conversion_defaults_to_internal_server_error() {
    let err = teapot_error();
    assert_eq!(err.status(), INTERNAL_SERVER_ERROR);
    assert_eq!(err.status(), 500);
}

#[test]
fn string_failures_convert_too() {
    let err = "disk full".to_string().into_handler_error();
    assert_eq!(err.status(), 500);
    let cause = err.cause().expect("the wrapped cause is surfaced");
    assert_eq!(cause.description(), "disk full");
}

#[test]
fn default_conversion_yields_500_empty_body_and_canonical_trace() {
    let state = State::new("req-a".to_string());
    let (response, trace) = teapot_error().into_response(&state);
    assert_eq!(response.status, 500);
    assert!(response.body.is_empty());
    let trace = trace.expect("error conversion emits one trace record");
    assert_eq!(trace.request_id, "req-a");
    assert_eq!(trace.status, 500);
    assert_eq!(trace.reason, "Internal Server Error");
    assert!(format!("{} {}", trace.status, trace.reason).contains("500"));
}

#[test]
fn with_status_418_matches_the_real_registry() {
    let state = State::new("req-b".to_string());
    let (response, trace) = teapot_error().with_status(418).into_response(&state);
    assert_eq!(response.status, 418);
    assert!(response.body.is_empty());
    let trace = trace.expect("error conversion emits one trace record");
    assert_eq!(trace.status, 418);
    assert_eq!(trace.reason, "I'm a teapot");
}

#[test]
fn unregistered_status_falls_back_in_the_trace() {
    let state = State::new("req-c".to_string());
    let (response, trace) = teapot_error().with_status(599).into_response(&state);
    assert_eq!(response.status, 599);
    let trace = trace.expect("error conversion emits one trace record");
    assert_eq!(trace.reason, "(unregistered)");
}

#[test]
fn with_status_changes_only_the_status() {
    let state = State::new("req-d".to_string());
    let (plain_response, plain_trace) = teapot_error().into_response(&state);
    let (restatused_response, restatused_trace) = teapot_error().with_status(404).into_response(&state);
    assert_eq!(restatused_response.status, 404);
    assert_eq!(plain_response.body, restatused_response.body);
    let plain_trace = plain_trace.unwrap();
    let restatused_trace = restatused_trace.unwrap();
    assert_eq!(restatused_trace.status, 404);
    assert_eq!(restatused_trace.reason, "Not Found");
    assert_eq!(plain_trace.request_id, restatused_trace.request_id);
}

#[test]
fn with_status_keeps_the_cause() {
    let err = teapot_error().with_status(404);
    let cause = err.cause().expect("the wrapped cause is surfaced");
    assert_eq!(cause.description(), "disk full");
}

#[test]
fn description_is_fixed_and_leaks_nothing() {
    let err = teapot_error();
    assert_eq!(err.description(), "handler failed to process request");
}

#[test]
fn diagnostic_tooling_can_walk_the_cause_chain() {
    let inner = FailureCause::new("disk full".to_string());
    let outer = FailureCause::wrapping("could not persist session".to_string(), inner);
    assert_eq!(
        outer.descriptions(),
        vec!["could not persist session".to_string(), "disk full".to_string()]
    );
    let nested = outer.nested().expect("the nested cause is reachable");
    assert_eq!(nested.description(), "disk full");
    assert!(nested.nested().is_none());
    let err = outer.into_handler_error();
    let cause = err.cause().unwrap();
    assert_eq!(cause.descriptions().len(), 2);
}

#[test]
fn registered_statuses_match_the_registry_via_hyper() {
    let state = State::new("req-e".to_string());
    for (code, phrase) in [(200u16, "OK"), (404, "Not Found"), (503, "Service Unavailable")] {
        let (response, trace) = teapot_error().with_status(code).into_response(&state);
        assert_eq!(response.status, code);
        let trace = trace.unwrap();
        let expected = hyper::StatusCode::from_u16(code).unwrap();
        assert_eq!(Some(trace.reason.as_str()), expected.canonical_reason());
        assert_eq!(trace.reason, phrase);
    }
}
