//! A small service wrapper carrying a tracing span alongside an inner
//! service value.  The transport impls that drive it live outside.

use vstd::prelude::*;

verus! {

#[verifier::external_type_specification]
#[verifier::external_body]
pub struct ExSpan(tracing::Span);

/// An inner service paired with the span its calls run under.
pub struct Svc<S> {
    pub inner: S,
    pub span: Option<tracing::Span>,
}

impl<S> Svc<S> {
    /// Wraps a service with the span to instrument its calls with.
    pub fn new(service: S, span: Option<tracing::Span>) -> (r: Svc<S>)
        ensures
            r.inner == service,
            r.span == span,
    {
        Svc { inner: service, span }
    }
}

} // verus!
