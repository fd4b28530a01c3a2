//! OpenTelemetry tracing for a Rust service: configuration, span naming, context
//! propagation and installation, each stated as a contract and proved.
//!
//! # Nothing on the wire until an endpoint is configured
//!
//! Without an endpoint an installation gives the process the `tracing` subscriber it
//! would have had otherwise: no exporter, no background thread, no `traceparent` on an
//! outgoing request.
//!
//! # Two services, one trace
//!
//! [`http_span::HttpSpan::make_span`] adopts W3C `traceparent` on the way in and
//! [`inject_context`] writes it on the way out.
//!
//! # What must not be exported
//!
//! Span attributes are addresses and outcomes: methods, paths, ids, status codes,
//! durations. Not values. The query string is off unless
//! [`http_span::HttpSpan::with_query`] turns it on.
//!
//! # What is read and printed elsewhere
//!
//! Nothing here reads the process environment or writes to stderr: the environment is
//! handed in as an [`Environment`], and what is to be printed is handed out.

pub mod config;
pub mod context;
pub mod directive;
pub mod env_filter;
pub mod environment;
mod error;
pub mod export_plan;
pub mod exporter;
pub mod http_span;
pub mod number;
pub mod pairs;
pub mod parent_based;
pub mod propagate;
pub mod registration;
pub mod string_map;
pub mod subscriber;
pub mod telemetry;
pub mod text;
pub mod tracer_provider;
pub mod variables;

pub use config::{
    Config, LogFormat, Sampling, DEFAULT_FILTERED_TARGETS, DEFAULT_TIMEOUT, MAX_TIMEOUT,
};
pub use environment::Environment;
pub use error::{Error, Failure};
pub use propagate::{current_trace_id, extract_context, inject_context, inject_context_from};
pub use string_map::StringMap;
pub use telemetry::{Builder, Telemetry};
