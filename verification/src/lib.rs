//! Request-processing core of a web-application server: a typed, per-request
//! state container, a composable middleware chain executed link by link, and
//! an error-to-HTTP-response conversion layer.

pub mod chain;
pub mod error;
pub mod middleware;
pub mod response;
pub mod state;
pub mod status;
