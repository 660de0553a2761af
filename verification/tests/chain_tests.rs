use std::collections::BTreeMap;
use std::sync::{Arc, Mutex};

use gotham_core::chain::{assemble, process, run_chain, Handler};
use gotham_core::error::{FailureCause, HandlerError, IntoHandlerError};
use gotham_core::middleware::{Middleware, NewMiddleware, Step};
use gotham_core::response::Response;
use gotham_core::state::{State, StateError, StateValue};

type Log = Arc<Mutex<Vec<String>>>;

fn new_log() -> Log {
    Arc::new(Mutex::new(Vec::new()))
}

fn entries(log: &Log) -> Vec<String> {
    log.lock().unwrap().clone()
}

enum TestMiddleware {
    Recorder { id: u64, log: Log },
    Responder { status: u16, log: Log },
    Failer { log: Log },
}

impl Middleware for TestMiddleware {
    fn call(self, mut state: State) -> Step {
        match self {
            TestMiddleware::Recorder { id, log } => {
                log.lock().unwrap().push(format!("mw-{}", id));
                state.put(id, StateValue::Number(id));
                Step::Delegate(state)
            }
            TestMiddleware::Responder { status, log } => {
                log.lock().unwrap().push("responder".to_string());
                Step::Respond(state, Response { status, body: Vec::new() })
            }
            TestMiddleware::Failer { log } => {
                log.lock().unwrap().push("failer".to_string());
                let err = FailureCause::new("middleware failed".to_string()).into_handler_error();
                Step::Fail(state, err.with_status(503))
            }
        }
    }
}

enum TestFactory {
    Recorder { id: u64, log: Log },
    Responder { status: u16, log: Log },
    Failer { log: Log },
    Broken,
}

impl NewMiddleware for TestFactory {
    type Instance = TestMiddleware;

    fn new_middleware(&self) -> Result<TestMiddleware, FailureCause> {
        match self {
            TestFactory::Recorder { id, log } => {
                Ok(TestMiddleware::Recorder { id: *id, log: log.clone() })
            }
            TestFactory::Responder { status, log } => {
                Ok(TestMiddleware::Responder { status: *status, log: log.clone() })
            }
            TestFactory::Failer { log } => Ok(TestMiddleware::Failer { log: log.clone() }),
            TestFactory::Broken => Err(FailureCause::new("factory exhausted".to_string())),
        }
    }
}

struct CountingHandler {
    log: Log,
}

impl Handler for CountingHandler {
    fn handle(self, state: State) -> (State, Result<Response, HandlerError>) {
        self.log.lock().unwrap().push("handler".to_string());
        (state, Ok(Response { status: 200, body: b"done".to_vec() }))
    }
}

struct FailingHandler {
    log: Log,
}

impl Handler for FailingHandler {
    fn handle(self, state: State) -> (State, Result<Response, HandlerError>) {
        self.log.lock().unwrap().push("handler".to_string());
        let err = "handler exploded".to_string().into_handler_error();
        (state, Err(err))
    }
}

#[test]
fn full_chain_runs_in_list_order_and_handler_exactly_once() {
    let log = new_log();
    let factories = vec![
        TestFactory::Recorder { id: 1, log: log.clone() },
        TestFactory::Recorder { id: 2, log: log.clone() },
        TestFactory::Recorder { id: 3, log: log.clone() },
    ];
    let outcome = process(
        &factories,
        CountingHandler { log: log.clone() },
        State::new("req-1".to_string()),
    );
    assert_eq!(entries(&log), vec!["mw-1", "mw-2", "mw-3", "handler"]);
    assert_eq!(entries(&log).iter().filter(|e| *e == "handler").count(), 1);
    assert_eq!(outcome.response.status, 200);
    assert_eq!(outcome.response.body, b"done".to_vec());
    assert!(outcome.trace.is_none());
    assert_eq!(outcome.state.request_id(), "req-1");
    for id in 1..=3 {
        assert_eq!(outcome.state.try_borrow_number(id), Ok(id));
    }
}

#[test]
fn terminating_link_stops_all_later_links_and_the_handler() {
    let log = new_log();
    let factories = vec![
        TestFactory::Recorder { id: 1, log: log.clone() },
        TestFactory::Responder { status: 204, log: log.clone() },
        TestFactory::Recorder { id: 3, log: log.clone() },
    ];
    let outcome = process(
        &factories,
        CountingHandler { log: log.clone() },
        State::new("req-2".to_string()),
    );
    assert_eq!(entries(&log), vec!["mw-1", "responder"]);
    assert_eq!(outcome.response.status, 204);
    assert!(outcome.trace.is_none());
    assert_eq!(outcome.state.try_borrow_number(3), Err(StateError::Absent));
}

#[test]
fn failing_link_terminates_with_its_error_converted() {
    let log = new_log();
    let factories = vec![
        TestFactory::Recorder { id: 1, log: log.clone() },
        TestFactory::Failer { log: log.clone() },
        TestFactory::Recorder { id: 3, log: log.clone() },
    ];
    let outcome = process(
        &factories,
        CountingHandler { log: log.clone() },
        State::new("req-3".to_string()),
    );
    assert_eq!(entries(&log), vec!["mw-1", "failer"]);
    assert_eq!(outcome.response.status, 503);
    assert!(outcome.response.body.is_empty());
    let trace = outcome.trace.expect("a failed request carries its trace record");
    assert_eq!(trace.status, 503);
    assert_eq!(trace.reason, "Service Unavailable");
    assert_eq!(trace.request_id, "req-3");
}

#[test]
fn failing_handler_is_converted_at_the_boundary() {
    let log = new_log();
    let factories = vec![TestFactory::Recorder { id: 1, log: log.clone() }];
    let outcome = process(
        &factories,
        FailingHandler { log: log.clone() },
        State::new("req-4".to_string()),
    );
    assert_eq!(entries(&log), vec!["mw-1", "handler"]);
    assert_eq!(outcome.response.status, 500);
    let trace = outcome.trace.expect("a failed request carries its trace record");
    assert_eq!(trace.status, 500);
    assert_eq!(trace.reason, "Internal Server Error");
}

#[test]
fn broken_factory_short_circuits_before_any_middleware_runs() {
    let log = new_log();
    let factories = vec![
        TestFactory::Recorder { id: 1, log: log.clone() },
        TestFactory::Broken,
        TestFactory::Recorder { id: 3, log: log.clone() },
    ];
    let outcome = process(
        &factories,
        CountingHandler { log: log.clone() },
        State::new("req-5".to_string()),
    );
    assert!(entries(&log).is_empty(), "no middleware call may be invoked");
    assert_eq!(outcome.response.status, 500);
    assert!(outcome.response.body.is_empty());
    let trace = outcome.trace.expect("assembly failure carries its trace record");
    assert_eq!(trace.status, 500);
    assert_eq!(trace.request_id, "req-5");
    assert_eq!(outcome.state.try_borrow_number(1), Err(StateError::Absent));
    assert_eq!(outcome.state.request_id(), "req-5");
}

#[test]
fn assemble_builds_one_instance_per_factory() {
    let log = new_log();
    let factories = vec![
        TestFactory::Recorder { id: 1, log: log.clone() },
        TestFactory::Recorder { id: 2, log: log.clone() },
    ];
    let instances = assemble(&factories).expect("all factories succeed");
    assert_eq!(instances.len(), 2);
    assert!(entries(&log).is_empty(), "assembly must not execute middleware");
    let outcome = run_chain(
        instances,
        CountingHandler { log: log.clone() },
        State::new("req-6".to_string()),
    );
    assert_eq!(entries(&log), vec!["mw-1", "mw-2", "handler"]);
    assert_eq!(outcome.response.status, 200);
}

#[test]
fn concurrent_style_requests_share_factories_without_leakage() {
    let log = new_log();
    let factories = Arc::new(vec![TestFactory::Recorder { id: 1000, log: log.clone() }]);

    let request_count: u64 = 16;
    let mut states: Vec<State> = Vec::new();
    let mut models: Vec<BTreeMap<u64, u64>> = Vec::new();
    for i in 0..request_count {
        states.push(State::new(format!("req-{}", i)));
        models.push(BTreeMap::new());
    }

    // Interleave randomized insert/retrieve rounds across all simulated
    // requests, so each container is mutated while the others are live.
    let mut seed: u64 = 0x9e3779b97f4a7c15;
    for round in 0..24 {
        for i in 0..request_count as usize {
            seed = seed
                .wrapping_mul(6364136223846793005)
                .wrapping_add(1442695040888963407);
            let key = (seed >> 33) % 8;
            let value = seed % 100_000 + i as u64 * 1_000_000;
            states[i].put(key, StateValue::Number(value));
            models[i].insert(key, value);
            if round % 3 == 0 {
                let probe = (seed >> 17) % 8;
                match (states[i].try_borrow_number(probe), models[i].get(&probe)) {
                    (Ok(found), Some(expected)) => assert_eq!(found, *expected),
                    (Err(StateError::Absent), None) => {}
                    (got, want) => panic!("leak or loss: got {:?}, wanted {:?}", got, want),
                }
            }
        }
    }

    // Run every request through the same shared factories and handler type.
    for (i, state) in states.into_iter().enumerate() {
        let outcome = process(&*factories, CountingHandler { log: log.clone() }, state);
        assert_eq!(outcome.response.status, 200);
        assert_eq!(outcome.state.request_id(), &format!("req-{}", i));
        for (key, value) in &models[i] {
            assert_eq!(outcome.state.try_borrow_number(*key), Ok(*value));
        }
        assert_eq!(outcome.state.try_borrow_number(1000), Ok(1000));
    }
    let all = entries(&log);
    assert_eq!(all.iter().filter(|e| *e == "mw-1000").count(), request_count as usize);
    assert_eq!(all.iter().filter(|e| *e == "handler").count(), request_count as usize);
}
