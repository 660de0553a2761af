//! The middleware contract and the factory that builds fresh instances.
//!
//! A middleware receives exclusive ownership of the state container together
//! with the right to decide the rest of the chain's fate: it either delegates
//! (handing the same state downstream) or terminates, producing a response or
//! a Handler Error itself. A terminating link prevents every later link and
//! the terminal handler from executing.

use vstd::prelude::*;
use crate::error::{FailureCause, HandlerError};
use crate::response::Response;
use crate::state::State;

verus! {

/// What a middleware decided: pass the state on to the rest of the chain,
/// terminate with a response, or terminate with an error.
pub enum Step {
    /// Continue normal processing; everything downstream runs next.
    Delegate(State),
    /// Terminate: the chain's result is this response.
    Respond(State, Response),
    /// Terminate: the chain's result is this error, converted at the boundary.
    Fail(State, HandlerError),
}

impl Step {
    /// The state container embedded in the decision; ownership is returned
    /// whatever was decided, so the chain can continue or build the response.
    pub open spec fn state(&self) -> State {
        match self {
            Step::Delegate(s) => *s,
            Step::Respond(s, _) => *s,
            Step::Fail(s, _) => *s,
        }
    }

    /// The obligations every decision meets: the returned state is well
    /// formed and still carries the request identifier it came in with, and a
    /// delegating link hands on the same container — every key attached
    /// before it is still reachable downstream (values may be replaced).
    pub open spec fn obeys_contract(&self, prior: State) -> bool {
        &&& self.state().wf()
        &&& self.state()@.request_id == prior@.request_id
        &&& self is Delegate ==> prior@.data.dom() <= self.state()@.data.dom()
    }
}

/// `Middleware` has the opportunity to provide additional behaviour to the
/// request/response interaction; middleware-specific data can be recorded in
/// the state container for use elsewhere.
pub trait Middleware: Sized {
    /// What this middleware's `call` guarantees of its decision, beyond the
    /// obligations every middleware meets: nothing by default, overridden by
    /// implementations that publish more. The chain driver records it for
    /// every link it runs, so a driver outcome testifies that the calls
    /// really happened, in order, on the states the driver chained.
    open spec fn call_ensures(&self, state: State, r: Step) -> bool {
        true
    }

    /// Entry point to the middleware. It takes exclusive ownership of the
    /// state and must either delegate — handing the same state on, with any
    /// attached data still reachable and the request identifier intact — or
    /// terminate with a response or error of its own.
    fn call(self, state: State) -> (r: Step)
        requires
            state.wf(),
        ensures
            r.obeys_contract(state),
            self.call_ensures(state, r),
    ;
}

/// Creates new `Middleware` values: a reusable, read-only factory, shared
/// across all concurrent requests, that constructs a fresh instance for each
/// one. Construction failure is reported as an explicit error and aborts the
/// setup of that single request's chain only.
pub trait NewMiddleware: Sync + Sized {
    /// The type of `Middleware` created by the implementor.
    type Instance: Middleware;

    /// What this factory's `new_middleware` guarantees of its result:
    /// nothing by default, overridden by implementations that publish more.
    /// Chain assembly records it for every factory it consults, so an
    /// assembled chain testifies that each instance really came from its
    /// factory, and an assembly failure that some factory really failed.
    open spec fn new_middleware_ensures(&self, r: Result<Self::Instance, FailureCause>) -> bool {
        true
    }

    /// Create and return a new `Middleware` value for one request.
    fn new_middleware(&self) -> (r: Result<Self::Instance, FailureCause>)
        ensures
            self.new_middleware_ensures(r),
    ;
}

} // verus!
