//! What an installation that exports does with the spans recorded through `tracing`. A
//! process has one global subscriber: each of these tests needs a process of its own.

use cartografo_telemetry::propagate::W3cPropagator;
use cartografo_telemetry::{
    current_trace_id, inject_context, inject_context_from, Environment, Error, LogFormat,
    Telemetry,
};
use http::HeaderMap;
use opentelemetry_sdk::trace::Sampler;
use tracing::callsite::{Callsite, Identifier};
use tracing::field::{Field, FieldSet, Value};
use tracing::metadata::Kind;
use tracing::subscriber::Interest;
use tracing::{Level, Metadata, Span};

fn make_ratio(bits: u64) -> Sampler {
    Sampler::TraceIdRatioBased(f64::from_bits(bits))
}

/// Where the span of these tests comes from.
struct Work(u8);

impl Callsite for Work {
    fn set_interest(&self, _interest: Interest) {}

    fn metadata(&self) -> &Metadata<'_> {
        &METADATA
    }
}

static WORK: Work = Work(0);

static METADATA: Metadata<'static> = Metadata::new(
    "a-unit-of-work",
    "export",
    Level::INFO,
    None,
    None,
    None,
    FieldSet::new(&[], Identifier(&WORK)),
    Kind::SPAN,
);

fn a_unit_of_work() -> Span {
    let none: [(&Field, Option<&dyn Value>); 0] = [];
    Span::new(&METADATA, &METADATA.fields().value_set(&none))
}

/// A request that leaves from inside a span carries that span's trace, and the id
/// shown to a person is the one on the wire.
#[test]
fn an_outgoing_request_joins_the_trace_it_is_made_in() {
    let mut complaints = Vec::new();
    let telemetry = Telemetry::builder("test-service")
        .without_env()
        .endpoint("http://127.0.0.1:1")
        .log_format(LogFormat::Off)
        .try_install(&Environment::empty(), make_ratio, &mut complaints)
        .expect("installs");
    assert!(telemetry.is_exporting());

    assert!(current_trace_id().1.is_none());
    let span = a_unit_of_work();
    let mut from_outside = HeaderMap::new();
    inject_context_from(&span, &mut from_outside);
    let _entered = span.enter();
    let mut from_inside = HeaderMap::new();
    assert!(inject_context(&mut from_inside).1.is_some());
    assert_eq!(from_inside.get("traceparent"), from_outside.get("traceparent"));

    let ids = W3cPropagator::new().extract(&from_inside).expect("a context");
    assert!(ids.sampled);
    assert_eq!(current_trace_id().1, Some(format!("{:032x}", ids.trace_id)));
    let _ = telemetry.shutdown();
}

/// Nothing listens at the endpoint: the span cannot leave, and flushing says so.
#[test]
fn a_span_that_cannot_leave_is_reported() {
    let mut complaints = Vec::new();
    let telemetry = Telemetry::builder("test-service")
        .without_env()
        .endpoint("http://127.0.0.1:1/")
        .log_format(LogFormat::Off)
        .try_install(&Environment::empty(), make_ratio, &mut complaints)
        .expect("installs");
    assert_eq!(telemetry.endpoint(), Some("http://127.0.0.1:1/v1/traces"));
    assert_eq!(telemetry.service_name(), "test-service");

    drop(a_unit_of_work());
    let (report, flushed) = telemetry.force_flush();
    assert!(flushed.is_some());
    let err = report.expect_err("nothing listens there");
    assert!(matches!(err, Error::Shutdown(_)));
    assert!(err.to_string().starts_with("shutting telemetry down: "));
    let _ = telemetry.shutdown();
}

/// A second installation is refused, and the provider built for it is stopped again.
#[test]
fn a_refused_installation_leaves_nothing_running() {
    let mut complaints = Vec::new();
    let first = Telemetry::builder("test-service")
        .without_env()
        .log_format(LogFormat::Off)
        .try_install(&Environment::empty(), make_ratio, &mut complaints)
        .expect("installs");
    let failed = Telemetry::builder("test-service")
        .without_env()
        .endpoint("http://127.0.0.1:1/")
        .try_install(&Environment::empty(), make_ratio, &mut complaints)
        .expect_err("there is one already");
    assert!(matches!(failed.error, Error::SubscriberAlreadySet));
    assert!(failed.refused.is_some());
    assert!(failed.stopped.is_some());
    assert!(failed.unbuilt.is_none());
    let (line, stopped) = first.shutdown();
    assert_eq!(line, None);
    assert!(stopped.is_none());
}

/// A ratio of zero records no trace, so there is nothing to flush; the context is
/// carried on all the same, and says so.
#[test]
fn a_trace_that_is_not_recorded_says_so() {
    let mut complaints = Vec::new();
    let telemetry = Telemetry::builder("test-service")
        .without_env()
        .endpoint("http://127.0.0.1:1/")
        .sample_ratio((-1.0f64).to_bits())
        .log_format(LogFormat::Off)
        .try_install(&Environment::empty(), make_ratio, &mut complaints)
        .expect("installs");
    let mut headers = HeaderMap::new();
    inject_context_from(&a_unit_of_work(), &mut headers);
    let ids = W3cPropagator::new().extract(&headers).expect("a context");
    assert!(!ids.sampled);
    telemetry.force_flush().0.expect("nothing to send");
    let _ = telemetry.shutdown();
}
