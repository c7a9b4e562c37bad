//! The error-reply middleware's fixed part: what wrapping an endpoint
//! means, and what the JSON envelope for a failed call holds. The
//! transport wiring -- running the wrapped endpoint and serialising the
//! envelope -- belongs to the surrounding HTTP layer.

use vstd::prelude::*;

verus! {

/// Wraps an HTTP endpoint so that every error leaves as a JSON envelope
/// instead of a bare message.
pub struct JsonErrorMiddleware;

/// An endpoint wrapped by `JsonErrorMiddleware`.
pub struct JsonErrorMiddlewareImpl<E>(pub E);

impl JsonErrorMiddleware {
    /// Wraps `ep`, exactly as given.
    pub fn transform<E>(&self, ep: E) -> (r: JsonErrorMiddlewareImpl<E>)
        ensures
            r.0 == ep,
    {
        JsonErrorMiddlewareImpl(ep)
    }
}

/// The body of an error reply: the error's message, the fixed marker that
/// the reply is an error, and the HTTP status code it travels with.
pub struct ErrorEnvelope {
    pub error: String,
    pub is_error: bool,
    pub status_code: u16,
}

impl ErrorEnvelope {
    /// What a failed call of a wrapped endpoint leaves as: an envelope
    /// holding the error's message verbatim, the error marker set, and
    /// the error's own status code. A successful call passes through
    /// untouched and never becomes an envelope.
    pub fn new(error: String, status_code: u16) -> (r: ErrorEnvelope)
        ensures
            r.error@ == error@,
            r.is_error == true,
            r.status_code == status_code,
    {
        ErrorEnvelope { error, is_error: true, status_code }
    }
}

} // verus!
