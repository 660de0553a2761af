//! The canonical reason phrases of the HTTP status registry.

use vstd::prelude::*;

verus! {

/// The registry's canonical reason phrase for a status code, or `None` where
/// the registry has no entry. The phrase is a function of the code alone; its
/// full table lives in the `http` crate and is not restated here.
pub uninterp spec fn reason_phrase(code: u16) -> Option<Seq<char>>;

/// The text that a diagnostic line shows for a status code: the canonical
/// reason phrase, falling back to `"(unregistered)"` for unknown codes.
pub open spec fn reason_text(code: u16) -> Seq<char> {
    match reason_phrase(code) {
        Some(phrase) => phrase,
        None => "(unregistered)"@,
    }
}

/// Relies on `http::StatusCode` (re-exported by hyper): `from_u16` validates
/// the code and `canonical_reason` returns the status registry's reason
/// phrase, which depends on the code alone.
#[verifier::external_body]
pub(crate) fn lookup_reason(code: u16) -> (r: Option<String>)
    ensures
        (match r {
            Some(phrase) => Some(phrase@),
            None => None,
        }) == reason_phrase(code),
{
    match hyper::StatusCode::from_u16(code) {
        Ok(status) => match status.canonical_reason() {
            Some(phrase) => Some(phrase.to_string()),
            None => None,
        },
        Err(_) => None,
    }
}

} // verus!
