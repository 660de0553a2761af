//! The chain builder: composes an ordered list of middleware factories and a
//! terminal handler into one entry point per request.
//!
//! Execution is driven link by link: each middleware in list order receives
//! the state and decides to delegate or to terminate; the terminal handler
//! runs only after every middleware delegated. The driver hands back, beside
//! the response, a ghost record of the run — which links executed, the
//! decision each returned, and what the handler returned — anchored to the
//! middleware and handler contracts themselves (`Middleware::call_ensures`,
//! `Handler::handle_ensures`), so the ordering guarantee holds of the actual
//! calls, not merely of a log.

use vstd::prelude::*;
use crate::error::{FailureCause, HandlerError, IntoHandlerError, INTERNAL_SERVER_ERROR};
use crate::middleware::{Middleware, NewMiddleware, Step};
use crate::response::{IntoResponse, Response, TraceRecord, TraceRecordView};
use crate::state::State;
use crate::status::reason_text;

verus! {

/// The terminal handler: consumes the state once every middleware delegated
/// and produces the chain's result.
pub trait Handler: Sized {
    /// What this handler's `handle` guarantees of its result: nothing by
    /// default, overridden by implementations that publish more. The chain
    /// driver records it when the handler runs, so a completed outcome
    /// testifies that it really ran, on the state the last link handed on.
    open spec fn handle_ensures(&self, state: State, r: (State, Result<Response, HandlerError>)) -> bool {
        true
    }

    fn handle(self, state: State) -> (r: (State, Result<Response, HandlerError>))
        requires
            state.wf(),
        ensures
            r.0.wf(),
            r.0@.request_id == state@.request_id,
            self.handle_ensures(state, r),
    ;
}

/// What one executed link decided.
#[derive(Clone, Copy, Debug, PartialEq, Eq, Structural)]
pub enum LinkOutcome {
    Delegated,
    Responded,
    Failed,
}

/// One entry of the execution log: a middleware link ran (with its position
/// in the chain and its decision), or the terminal handler ran.
#[derive(Clone, Copy, Debug, PartialEq, Eq, Structural)]
pub enum ChainEvent {
    Link { index: usize, outcome: LinkOutcome },
    HandlerRun { failed: bool },
}

/// The log entry a decision corresponds to.
pub open spec fn step_outcome(step: Step) -> LinkOutcome {
    match step {
        Step::Delegate(_) => LinkOutcome::Delegated,
        Step::Respond(_, _) => LinkOutcome::Responded,
        Step::Fail(_, _) => LinkOutcome::Failed,
    }
}

/// The first `k` log entries are the links `0 .. k`, in order, each delegating.
pub open spec fn delegated_prefix(events: Seq<ChainEvent>, k: int) -> bool {
    forall|j: int|
        0 <= j < k ==> (#[trigger] events[j]) == (ChainEvent::Link {
            index: j as usize,
            outcome: LinkOutcome::Delegated,
        })
}

/// Link `t` terminated the chain: links `0 .. t` delegated, link `t` did not,
/// and nothing ran after it.
pub open spec fn terminated_at(events: Seq<ChainEvent>, n: int, t: int) -> bool {
    &&& 0 <= t < n
    &&& events.len() == t + 1
    &&& delegated_prefix(events, t)
    &&& events[t] matches ChainEvent::Link { index, outcome } && index as int == t && outcome
        != LinkOutcome::Delegated
}

/// Some link terminated the chain before the terminal handler could run.
pub open spec fn short_circuited(events: Seq<ChainEvent>, n: int) -> bool {
    exists|t: int| terminated_at(events, n, t)
}

/// Every one of the `n` links delegated, and the terminal handler ran last.
pub open spec fn ran_to_completion(events: Seq<ChainEvent>, n: int) -> bool {
    &&& events.len() == n + 1
    &&& delegated_prefix(events, n)
    &&& events[n] is HandlerRun
}

/// The request ended in a Handler Error (converted to a response at the
/// boundary) rather than in a response produced directly.
pub open spec fn chain_failed(events: Seq<ChainEvent>) -> bool {
    &&& events.len() > 0
    &&& {
        ||| events.last() matches ChainEvent::Link { outcome: LinkOutcome::Failed, .. }
        ||| events.last() matches ChainEvent::HandlerRun { failed: true }
    }
}

/// What the composed entry point hands back to the router: the state, exactly
/// one response, the diagnostic record where the request ended in an error,
/// and the ghost record of the run — the shape log, the decision each
/// executed link actually returned, what the terminal handler returned if it
/// ran, and the construction failure if assembly never got that far.
pub struct ChainOutcome {
    pub state: State,
    pub response: Response,
    pub trace: Option<TraceRecord>,
    pub events: Ghost<Seq<ChainEvent>>,
    pub steps: Ghost<Seq<Step>>,
    pub handler_result: Ghost<Option<(State, Result<Response, HandlerError>)>>,
    pub construction_failure: Ghost<Option<FailureCause>>,
}

/// The state link `j` received: the initial state for the first link, then
/// the state embedded in the previous link's decision.
pub open spec fn pre_state_of(initial: State, steps: Seq<Step>, j: int) -> State {
    if j <= 0 {
        initial
    } else {
        steps[j - 1].state()
    }
}

/// Every recorded decision is the one its middleware actually returned, for
/// the state it actually received, the states chaining from the initial one;
/// every decision but the last delegated.
pub open spec fn steps_anchored<M: Middleware>(
    middlewares: Seq<M>,
    initial: State,
    steps: Seq<Step>,
) -> bool {
    &&& steps.len() <= middlewares.len()
    &&& forall|j: int|
        0 <= j < steps.len() ==> middlewares[j].call_ensures(
            pre_state_of(initial, steps, j),
            #[trigger] steps[j],
        )
    &&& forall|j: int| 0 <= j < steps.len() - 1 ==> (#[trigger] steps[j]) is Delegate
}

/// How the outcome's state, response and trace arise from the decision of the
/// link that terminated the chain.
pub open spec fn outcome_of_step(r: ChainOutcome, step: Step) -> bool {
    match step {
        Step::Delegate(_) => false,
        Step::Respond(s, resp) => r.state == s && r.response == resp && r.trace is None,
        Step::Fail(s, err) => {
            &&& r.state == s
            &&& r.response@.status == err@.status
            &&& r.response@.body.len() == 0
            &&& r.trace matches Some(t) && t@ == (TraceRecordView {
                request_id: s@.request_id,
                status: err@.status,
                reason: reason_text(err@.status),
            })
        },
    }
}

/// How the outcome's state, response and trace arise from what the terminal
/// handler returned.
pub open spec fn outcome_of_handler(
    r: ChainOutcome,
    hr: (State, Result<Response, HandlerError>),
) -> bool {
    &&& r.state == hr.0
    &&& match hr.1 {
        Ok(resp) => r.response == resp && r.trace is None,
        Err(err) => {
            &&& r.response@.status == err@.status
            &&& r.response@.body.len() == 0
            &&& r.trace matches Some(t) && t@ == (TraceRecordView {
                request_id: hr.0@.request_id,
                status: err@.status,
                reason: reason_text(err@.status),
            })
        },
    }
}

/// The whole anchor: the log is the shape of the recorded decisions, the
/// decisions are the middlewares' own (in order, states chained), and the
/// outcome is what the terminating decision — or the handler's result, after
/// every link delegated — produced.
pub open spec fn chain_run_anchored<M: Middleware, H: Handler>(
    middlewares: Seq<M>,
    handler: H,
    initial: State,
    r: ChainOutcome,
) -> bool {
    let n = middlewares.len() as int;
    &&& steps_anchored(middlewares, initial, r.steps@)
    &&& forall|j: int|
        0 <= j < r.steps@.len() ==> r.events@[j] == (ChainEvent::Link {
            index: j as usize,
            outcome: step_outcome(#[trigger] r.steps@[j]),
        })
    &&& if ran_to_completion(r.events@, n) {
        &&& r.steps@.len() == n
        &&& r.handler_result@ matches Some(hr) && handler.handle_ensures(
            pre_state_of(initial, r.steps@, n),
            hr,
        ) && outcome_of_handler(r, hr)
    } else {
        &&& short_circuited(r.events@, n)
        &&& r.steps@.len() == r.events@.len()
        &&& r.steps@.len() > 0
        &&& r.handler_result@ is None
        &&& outcome_of_step(r, r.steps@.last())
    }
}

/// Executes the assembled chain: each middleware in list order, then the
/// terminal handler if none terminated first, converting a failure into a
/// response at the boundary.
pub fn run_chain<M: Middleware, H: Handler>(middlewares: Vec<M>, handler: H, state: State) -> (r:
    ChainOutcome)
    requires
        state.wf(),
    ensures
        r.state.wf(),
        r.state@.request_id == state@.request_id,
        ran_to_completion(r.events@, middlewares@.len() as int) || short_circuited(
            r.events@,
            middlewares@.len() as int,
        ),
        chain_failed(r.events@) <==> r.trace is Some,
        r.trace matches Some(t) ==> t@.request_id == r.state@.request_id && t@.status
            == r.response@.status && t@.reason == reason_text(t@.status) && r.response@.body.len()
            == 0,
        chain_run_anchored(middlewares@, handler, state, r),
        r.construction_failure@ is None,
{
    let mut remaining = middlewares;
    let total = remaining.len();
    let mut st = state;
    let ghost mut events: Seq<ChainEvent> = Seq::empty();
    let ghost mut steps: Seq<Step> = Seq::empty();
    let mut idx: usize = 0;
    proof {
        assert(remaining@ =~= middlewares@.skip(0));
    }
    while idx < total
        invariant
            idx <= total,
            total == middlewares@.len(),
            remaining@ == middlewares@.skip(idx as int),
            st.wf(),
            st@.request_id == state@.request_id,
            events.len() == idx,
            delegated_prefix(events, idx as int),
            steps.len() == idx,
            forall|j: int| 0 <= j < idx ==> (#[trigger] steps[j]) is Delegate,
            forall|j: int|
                0 <= j < idx ==> middlewares@[j].call_ensures(
                    pre_state_of(state, steps, j),
                    #[trigger] steps[j],
                ),
            st == pre_state_of(state, steps, idx as int),
        decreases total - idx,
    {
        proof {
            assert(remaining@[0] == middlewares@[idx as int]);
        }
        let link = remaining.remove(0);
        proof {
            assert(remaining@ =~= middlewares@.skip(idx as int + 1));
        }
        let ghost pre_call_state = st;
        let step = link.call(st);
        proof {
            let pre_steps = steps;
            steps = steps.push(step);
            assert(steps[idx as int] == step);
            assert forall|j: int| 0 <= j <= idx implies pre_state_of(state, steps, j)
                == pre_state_of(state, pre_steps, j) by {
                if j > 0 {
                    assert(steps[j - 1] == pre_steps[j - 1]);
                }
            }
            assert forall|j: int|
                0 <= j <= idx implies middlewares@[j].call_ensures(
                pre_state_of(state, steps, j),
                #[trigger] steps[j],
            ) by {
                if j < idx {
                    assert(steps[j] == pre_steps[j]);
                } else {
                    assert(link.call_ensures(pre_call_state, step));
                }
            }
        }
        match step {
            Step::Delegate(next) => {
                proof {
                    events = events.push(
                        ChainEvent::Link { index: idx, outcome: LinkOutcome::Delegated },
                    );
                }
                st = next;
                idx += 1;
                proof {
                    assert(steps[idx - 1].state() == st);
                }
            },
            Step::Respond(final_state, response) => {
                proof {
                    events = events.push(
                        ChainEvent::Link { index: idx, outcome: LinkOutcome::Responded },
                    );
                    assert(terminated_at(events, total as int, idx as int));
                }
                let r = ChainOutcome {
                    state: final_state,
                    response,
                    trace: None,
                    events: Ghost(events),
                    steps: Ghost(steps),
                    handler_result: Ghost(None),
                    construction_failure: Ghost(None),
                };
                proof {
                    assert(outcome_of_step(r, steps.last()));
                }
                return r;
            },
            Step::Fail(final_state, err) => {
                proof {
                    events = events.push(
                        ChainEvent::Link { index: idx, outcome: LinkOutcome::Failed },
                    );
                    assert(terminated_at(events, total as int, idx as int));
                }
                let ghost err_view = err@;
                let (response, trace) = err.into_response(&final_state);
                let r = ChainOutcome {
                    state: final_state,
                    response,
                    trace,
                    events: Ghost(events),
                    steps: Ghost(steps),
                    handler_result: Ghost(None),
                    construction_failure: Ghost(None),
                };
                proof {
                    assert(outcome_of_step(r, steps.last()));
                }
                return r;
            },
        }
    }
    let (final_state, result) = handler.handle(st);
    let ghost handler_record = (final_state, result);
    match result {
        Ok(response) => {
            proof {
                events = events.push(ChainEvent::HandlerRun { failed: false });
            }
            ChainOutcome {
                state: final_state,
                response,
                trace: None,
                events: Ghost(events),
                steps: Ghost(steps),
                handler_result: Ghost(Some(handler_record)),
                construction_failure: Ghost(None),
            }
        },
        Err(err) => {
            proof {
                events = events.push(ChainEvent::HandlerRun { failed: true });
            }
            let (response, trace) = err.into_response(&final_state);
            ChainOutcome {
                state: final_state,
                response,
                trace,
                events: Ghost(events),
                steps: Ghost(steps),
                handler_result: Ghost(Some(handler_record)),
                construction_failure: Ghost(None),
            }
        },
    }
}

/// Every instance came from its own factory, in list order.
pub open spec fn assembly_ok<F: NewMiddleware>(factories: Seq<F>, instances: Seq<F::Instance>) -> bool {
    &&& instances.len() == factories.len()
    &&& forall|j: int|
        0 <= j < factories.len() ==> factories[j].new_middleware_ensures(
            Ok(#[trigger] instances[j]),
        )
}

/// The factory really returned an instance of its own making.
pub open spec fn produced_an_instance<F: NewMiddleware>(factory: F) -> bool {
    exists|instance: F::Instance| factory.new_middleware_ensures(Ok(instance))
}

/// Factory `i` actually failed with this cause, and every factory before it
/// actually produced an instance.
pub open spec fn assembly_failed_at<F: NewMiddleware>(
    factories: Seq<F>,
    cause: FailureCause,
    i: int,
) -> bool {
    &&& 0 <= i < factories.len()
    &&& factories[i].new_middleware_ensures(Err(cause))
    &&& forall|j: int| 0 <= j < i ==> produced_an_instance(#[trigger] factories[j])
}

/// Some factory actually failed with this cause, every factory before it
/// having produced an instance.
pub open spec fn assembly_failed<F: NewMiddleware>(factories: Seq<F>, cause: FailureCause) -> bool {
    exists|i: int| assembly_failed_at(factories, cause, i)
}

/// The outcome of a request whose chain assembly failed: the state untouched,
/// an internal-server-error response with an empty body, a trace record, and
/// the construction cause carried as ghost data, anchored to the factory that
/// actually failed.
pub open spec fn assembly_failure_outcome<F: NewMiddleware>(
    factories: Seq<F>,
    initial: State,
    r: ChainOutcome,
) -> bool {
    &&& r.state@ == initial@
    &&& r.response@.status == INTERNAL_SERVER_ERROR
    &&& r.response@.body.len() == 0
    &&& r.trace is Some
    &&& r.construction_failure@ matches Some(cause) && assembly_failed(factories, cause)
}

/// One assembled-and-run record: the instances are the factories' own, and
/// the outcome is anchored to running exactly those instances.
pub open spec fn assembled_and_ran<F: NewMiddleware, H: Handler>(
    factories: Seq<F>,
    instances: Seq<F::Instance>,
    handler: H,
    initial: State,
    r: ChainOutcome,
) -> bool {
    &&& assembly_ok(factories, instances)
    &&& chain_run_anchored(instances, handler, initial, r)
}

/// Builds one fresh middleware instance per factory, in list order. Assembly
/// happens once per incoming request, immediately before execution, so each
/// request's middleware state is fresh and isolated; the first factory that
/// fails aborts assembly and reports its construction failure.
pub fn assemble<F: NewMiddleware>(factories: &Vec<F>) -> (r: Result<
    Vec<F::Instance>,
    FailureCause,
>)
    ensures
        factories@.len() == 0 ==> r is Ok,
        r matches Ok(instances) ==> assembly_ok(factories@, instances@),
        r matches Err(cause) ==> assembly_failed(factories@, cause),
{
    let mut instances: Vec<F::Instance> = Vec::new();
    let mut i: usize = 0;
    while i < factories.len()
        invariant
            i <= factories@.len(),
            instances@.len() == i,
            forall|j: int|
                0 <= j < i ==> factories@[j].new_middleware_ensures(
                    Ok(#[trigger] instances@[j]),
                ),
        decreases factories@.len() - i,
    {
        match factories[i].new_middleware() {
            Ok(instance) => instances.push(instance),
            Err(cause) => {
                proof {
                    assert forall|j: int|
                        0 <= j < i implies produced_an_instance(#[trigger] factories@[j]) by {
                        assert(factories@[j].new_middleware_ensures(Ok(instances@[j])));
                    }
                    assert(assembly_failed(factories@, cause)) by {
                        assert(assembly_failed_at(factories@, cause, i as int));
                    }
                }
                return Err(cause);
            },
        }
        i += 1;
    }
    Ok(instances)
}

/// The composed entry point: assembles a fresh chain from the shared
/// factories and runs it on the request's state. If a factory fails, the
/// whole request fails immediately with a Handler Error wrapping that
/// construction failure — before any middleware executes, with the state
/// untouched; an empty execution log marks exactly that case, and the
/// construction cause rides along as ghost data.
pub fn process<F: NewMiddleware, H: Handler>(factories: &Vec<F>, handler: H, state: State) -> (r:
    ChainOutcome)
    requires
        state.wf(),
    ensures
        r.state.wf(),
        r.state@.request_id == state@.request_id,
        factories@.len() == 0 ==> r.events@.len() != 0,
        r.events@.len() == 0 ==> assembly_failure_outcome(factories@, state, r),
        r.events@.len() != 0 ==> (ran_to_completion(r.events@, factories@.len() as int)
            || short_circuited(r.events@, factories@.len() as int)) && (chain_failed(r.events@)
            <==> r.trace is Some) && r.construction_failure@ is None && (exists|
            instances: Seq<F::Instance>,
        | assembled_and_ran(factories@, instances, handler, state, r)),
        r.trace matches Some(t) ==> t@.request_id == r.state@.request_id && t@.status
            == r.response@.status && t@.reason == reason_text(t@.status) && r.response@.body.len()
            == 0,
{
    match assemble(factories) {
        Ok(instances) => {
            let ghost instances_view = instances@;
            let r = run_chain(instances, handler, state);
            proof {
                if short_circuited(r.events@, factories@.len() as int) {
                    let t = choose|t: int|
                        terminated_at(r.events@, factories@.len() as int, t);
                    assert(r.events@.len() == t + 1);
                }
                assert(assembled_and_ran(factories@, instances_view, handler, state, r));
            }
            r
        },
        Err(cause) => {
            let ghost cause_snapshot = cause;
            let err = cause.into_handler_error();
            let (response, trace) = err.into_response(&state);
            let r = ChainOutcome {
                state,
                response,
                trace,
                events: Ghost(Seq::empty()),
                steps: Ghost(Seq::empty()),
                handler_result: Ghost(None),
                construction_failure: Ghost(Some(cause_snapshot)),
            };
            proof {
                assert(assembly_failure_outcome(factories@, state, r));
            }
            r
        },
    }
}

/// Law: a link that terminates instead of delegating prevents every later
/// link and the terminal handler from ever executing — the log holds only
/// links up to and including the terminating one, and no handler entry.
pub proof fn lemma_short_circuit_isolates(events: Seq<ChainEvent>, n: int, t: int)
    requires
        terminated_at(events, n, t),
    ensures
        forall|j: int| 0 <= j < events.len() ==> !((#[trigger] events[j]) is HandlerRun),
        forall|j: int|
            0 <= j < events.len() ==> ((#[trigger] events[j]) matches ChainEvent::Link {
                index,
                ..
            } && index as int <= t),
{
    assert forall|j: int| 0 <= j < events.len() implies ((#[trigger] events[j])
        matches ChainEvent::Link { index, .. } && index as int <= t) by {
        if j < t {
            assert(events[j] == (ChainEvent::Link {
                index: j as usize,
                outcome: LinkOutcome::Delegated,
            }));
        }
    }
}

/// Law: when every middleware delegates, the terminal handler executes
/// exactly once, after all of the middleware, which run in list order.
pub proof fn lemma_completion_order(events: Seq<ChainEvent>, n: int)
    requires
        ran_to_completion(events, n),
    ensures
        events.len() == n + 1,
        forall|j: int|
            0 <= j < n ==> (#[trigger] events[j]) == (ChainEvent::Link {
                index: j as usize,
                outcome: LinkOutcome::Delegated,
            }),
        events[n] is HandlerRun,
        forall|j: int| 0 <= j < events.len() && (#[trigger] events[j]) is HandlerRun ==> j == n,
{
    assert forall|j: int|
        0 <= j < events.len() && (#[trigger] events[j]) is HandlerRun implies j == n by {
        if j < n {
            assert(events[j] == (ChainEvent::Link {
                index: j as usize,
                outcome: LinkOutcome::Delegated,
            }));
        }
    }
}

} // verus!
