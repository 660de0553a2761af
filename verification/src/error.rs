//! The Handler Error: the unit of failure propagated out of the chain.
//!
//! A Handler Error pairs an HTTP status code (defaulting to internal server
//! error) with an opaque cause carrying a human-readable description and an
//! optional nested cause, so diagnostic tooling can walk the full chain of
//! underlying failures. Overriding the status is the only mutation allowed.

use vstd::prelude::*;
use vstd::string::StringExecFns;
use crate::response::{IntoResponse, Response, ResponseView, TraceRecord, TraceRecordView};
use crate::state::State;
use crate::status::{lookup_reason, reason_text};

verus! {

/// The status a Handler Error carries unless explicitly overridden.
pub const INTERNAL_SERVER_ERROR: u16 = 500;

/// An opaque failure value: a description and an optional nested cause.
#[derive(Debug)]
pub struct FailureCause {
    description: String,
    nested: Option<Box<FailureCause>>,
}

/// The chain of descriptions a cause carries, outermost first.
spec fn cause_chain(c: FailureCause) -> Seq<Seq<char>>
    decreases c,
{
    match c.nested {
        Some(inner) => seq![c.description@] + cause_chain(*inner),
        None => seq![c.description@],
    }
}

impl View for FailureCause {
    type V = Seq<Seq<char>>;

    closed spec fn view(&self) -> Seq<Seq<char>> {
        cause_chain(*self)
    }
}

proof fn lemma_cause_chain_head(c: FailureCause)
    ensures
        cause_chain(c).len() >= 1,
        cause_chain(c)[0] == c.description@,
    decreases c,
{
    match c.nested {
        Some(inner) => lemma_cause_chain_head(*inner),
        None => {},
    }
}

impl FailureCause {
    /// A failure with a description and no underlying cause.
    pub fn new(description: String) -> (r: FailureCause)
        ensures
            r@ == seq![description@],
    {
        let r = FailureCause { description, nested: None };
        proof {
            assert(r@ =~= seq![description@]);
        }
        r
    }

    /// A failure wrapping an underlying cause, for diagnostic chaining.
    pub fn wrapping(description: String, inner: FailureCause) -> (r: FailureCause)
        ensures
            r@ == seq![description@] + inner@,
    {
        let r = FailureCause { description, nested: Some(Box::new(inner)) };
        proof {
            assert(r@ =~= seq![description@] + inner@);
        }
        r
    }

    /// The failure's own description.
    pub fn description(&self) -> (r: &String)
        ensures
            r@ == self@[0],
    {
        proof {
            lemma_cause_chain_head(*self);
        }
        &self.description
    }

    /// The nested cause, if this failure wraps one.
    pub fn nested(&self) -> (r: Option<&FailureCause>)
        ensures
            match r {
                Some(c) => self@.len() > 1 && c@ == self@.skip(1),
                None => self@.len() == 1,
            },
    {
        match &self.nested {
            Some(inner) => {
                proof {
                    lemma_cause_chain_head(**inner);
                    assert(cause_chain(**inner) =~= self@.skip(1));
                }
                Some(&**inner)
            },
            None => None,
        }
    }

    /// Every description in the chain, outermost first.
    pub fn descriptions(&self) -> (r: Vec<String>)
        ensures
            r@.len() == self@.len(),
            forall|i: int| 0 <= i < r@.len() ==> (#[trigger] r@[i])@ == self@[i],
        decreases *self,
    {
        let mut r: Vec<String> = Vec::new();
        r.push(self.description.clone());
        match &self.nested {
            Some(inner) => {
                let mut rest = inner.descriptions();
                let ghost rest_view = rest@;
                r.append(&mut rest);
                proof {
                    assert forall|i: int| 0 <= i < r@.len() implies (#[trigger] r@[i])@
                        == self@[i] by {
                        if i > 0 {
                            assert(r@[i] == rest_view[i - 1]);
                        }
                    }
                }
                r
            },
            None => r,
        }
    }
}

/// Describes an error which occurred during handler or middleware execution
/// and allows the creation of an HTTP response for it.
#[derive(Debug)]
pub struct HandlerError {
    status_code: u16,
    cause: FailureCause,
}

/// Mathematical model of a Handler Error.
#[verifier::ext_equal]
pub struct HandlerErrorView {
    pub status: u16,
    pub cause: Seq<Seq<char>>,
}

impl View for HandlerError {
    type V = HandlerErrorView;

    closed spec fn view(&self) -> HandlerErrorView {
        HandlerErrorView { status: self.status_code, cause: self.cause@ }
    }
}

/// Allows conversion into a `HandlerError` from an implementing failure type.
/// The result carries the internal-server-error status until overridden with
/// `HandlerError::with_status`.
pub trait IntoHandlerError: Sized {
    /// The chain of failure descriptions this value carries, outermost first.
    spec fn failure_chain(&self) -> Seq<Seq<char>>;

    fn into_handler_error(self) -> (r: HandlerError)
        ensures
            r@.status == INTERNAL_SERVER_ERROR,
            r@.cause == self.failure_chain(),
    ;
}

impl IntoHandlerError for FailureCause {
    open spec fn failure_chain(&self) -> Seq<Seq<char>> {
        self@
    }

    fn into_handler_error(self) -> (r: HandlerError) {
        HandlerError { status_code: INTERNAL_SERVER_ERROR, cause: self }
    }
}

impl IntoHandlerError for String {
    open spec fn failure_chain(&self) -> Seq<Seq<char>> {
        seq![self@]
    }

    fn into_handler_error(self) -> (r: HandlerError) {
        HandlerError { status_code: INTERNAL_SERVER_ERROR, cause: FailureCause::new(self) }
    }
}

impl HandlerError {
    /// Sets the HTTP status code of the response which is generated for this
    /// error. The cause is kept; the status is the only change.
    pub fn with_status(self, status_code: u16) -> (r: HandlerError)
        ensures
            r@.status == status_code,
            r@.cause == self@.cause,
    {
        HandlerError { status_code, ..self }
    }

    /// The status code the error currently carries.
    pub fn status(&self) -> (r: u16)
        ensures
            r == self@.status,
    {
        self.status_code
    }

    /// The fixed human-readable description; internals are not leaked.
    pub fn description(&self) -> (r: &'static str)
        ensures
            r@ == "handler failed to process request"@,
    {
        "handler failed to process request"
    }

    /// The wrapped cause, surfaced so diagnostic tooling can walk the full
    /// chain of underlying failures.
    pub fn cause(&self) -> (r: Option<&FailureCause>)
        ensures
            r matches Some(c) && c@ == self@.cause,
    {
        Some(&self.cause)
    }
}

impl IntoResponse for HandlerError {
    open spec fn response_view(&self, state: &State) -> ResponseView {
        ResponseView { status: self@.status, body: Seq::empty() }
    }

    open spec fn trace_view(&self, state: &State) -> Option<TraceRecordView> {
        Some(
            TraceRecordView {
                request_id: state@.request_id,
                status: self@.status,
                reason: reason_text(self@.status),
            },
        )
    }

    /// Produces an HTTP response with no body and the stored status code, and
    /// the single diagnostic trace record of the conversion, carrying the
    /// request id, the numeric status and the canonical status text.
    fn into_response(self, state: &State) -> (r: (Response, Option<TraceRecord>)) {
        let reason: String = match lookup_reason(self.status_code) {
            Some(phrase) => phrase,
            None => String::from_str("(unregistered)"),
        };
        let record = TraceRecord {
            request_id: state.request_id().clone(),
            status: self.status_code,
            reason,
        };
        let response = Response { status: self.status_code, body: Vec::new() };
        proof {
            assert(response@ =~= self.response_view(state));
            assert(record@ =~= TraceRecordView {
                request_id: state@.request_id,
                status: self@.status,
                reason: reason_text(self@.status),
            });
        }
        (response, Some(record))
    }
}

/// Law: overriding the status on a Handler Error (`with_status`) changes only
/// the status in the resulting response — the body stays empty and the cause
/// is the original's — and the diagnostic trace reflects the new status, not
/// the default.
pub proof fn lemma_with_status_overrides_only_status(
    original: HandlerError,
    restatused: HandlerError,
    state: &State,
)
    requires
        restatused@.cause == original@.cause,
    ensures
        restatused.response_view(state).status == restatused@.status,
        restatused.response_view(state).body == original.response_view(state).body,
        restatused.trace_view(state) matches Some(t) && t.status == restatused@.status
            && t.reason == reason_text(restatused@.status) && (original.trace_view(state)
            matches Some(o) && t.request_id == o.request_id),
{
}

} // verus!
