//! Span recording for tracing an application's call graph.
//!
//! A thread records spans in its own [`TraceLocal`]. Scope guards open and
//! close spans on it, an [`AsyncHandle`] carries a trace to another thread or
//! past a suspension, and a [`Collector`] merges what all the threads sent
//! into one [`TraceResult`].
//!
//! Nothing here is global: every operation takes the recording context it
//! works on, so that a caller decides where that context lives. Every
//! operation that reads the tick counter has a twin, named with `_at`, that
//! takes the reading as an argument. The wall clock is never read here: a
//! trace is anchored to the reading that its starter hands in.

pub mod channel;
pub mod clock;
pub mod collector;
pub mod local;
pub mod nesting;
pub mod span;
pub mod thread;
pub mod trace;
pub mod util;

pub use collector::{merge, Collector, TraceError, TraceResult, TraceSpan};
pub use local::{renew_if_spent, CollectorLink, PrefixSource, TraceLocal, TraceLocalView};
pub use span::{span_id, Span, SpanSet, SpanSetView, State, NO_PARENT};
pub use thread::{new_async_handle, new_async_handle_at, AsyncGuard, AsyncHandle, AsyncScopeGuard};
pub use trace::{
    new_property, new_span, new_span_at, start_trace, start_trace_at, Outbound, ScopeGuard, SpanGuard,
    SpanGuardInner,
};
pub use util::{draw_stdout, find_fault, Bar, DrawError};
