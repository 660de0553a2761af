//! The HTTP response shape the chain produces, the diagnostic trace record,
//! and the uniform exit contract for values that terminate the chain.

use vstd::prelude::*;
use crate::state::State;

verus! {

/// The response handed back to the transport layer: a status code and a body.
#[derive(Clone, Debug)]
pub struct Response {
    pub status: u16,
    pub body: Vec<u8>,
}

/// Mathematical model of a response.
#[verifier::ext_equal]
pub struct ResponseView {
    pub status: u16,
    pub body: Seq<u8>,
}

impl View for Response {
    type V = ResponseView;

    open spec fn view(&self) -> ResponseView {
        ResponseView { status: self.status, body: self.body@ }
    }
}

/// One diagnostic line, recorded where an error becomes a response: the
/// request identifier, the numeric status, and the status text.
#[derive(Clone, Debug)]
pub struct TraceRecord {
    pub request_id: String,
    pub status: u16,
    pub reason: String,
}

/// Mathematical model of a trace record.
#[verifier::ext_equal]
pub struct TraceRecordView {
    pub request_id: Seq<char>,
    pub status: u16,
    pub reason: Seq<char>,
}

impl View for TraceRecord {
    type V = TraceRecordView;

    open spec fn view(&self) -> TraceRecordView {
        TraceRecordView { request_id: self.request_id@, status: self.status, reason: self.reason@ }
    }
}

/// The uniform exit contract: any value that terminates the chain converts,
/// given read access to the state container, into a response, plus at most
/// one diagnostic trace record.
pub trait IntoResponse: Sized {
    /// The response this value stands for, given the state it failed or
    /// succeeded against.
    spec fn response_view(&self, state: &State) -> ResponseView;

    /// The diagnostic record the conversion emits, if any.
    spec fn trace_view(&self, state: &State) -> Option<TraceRecordView>;

    fn into_response(self, state: &State) -> (r: (Response, Option<TraceRecord>))
        requires
            state.wf(),
        ensures
            r.0@ == self.response_view(state),
            (match r.1 {
                Some(t) => Some(t@),
                None => None,
            }) == self.trace_view(state),
    ;
}

impl IntoResponse for Response {
    open spec fn response_view(&self, state: &State) -> ResponseView {
        self@
    }

    open spec fn trace_view(&self, state: &State) -> Option<TraceRecordView> {
        None
    }

    fn into_response(self, state: &State) -> (r: (Response, Option<TraceRecord>)) {
        (self, None)
    }
}

} // verus!
