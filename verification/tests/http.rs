use cartografo_telemetry::http_span::{is_identifier, operation_name, HttpSpan, HttpStatus};
use http::HeaderMap;
use opentelemetry::global;
use opentelemetry_sdk::propagation::TraceContextPropagator;

const PARENT: &str = "00-4bf92f3577b34da6a3ce929d0e0e4736-00f067aa0ba902b7-01";

fn register() {
    global::set_text_map_propagator(TraceContextPropagator::new());
}

fn inbound() -> HeaderMap {
    let mut headers = HeaderMap::new();
    headers.insert("traceparent", PARENT.parse().expect("header"));
    headers
}

#[test]
fn a_collection_keeps_its_name() {
    assert_eq!(
        operation_name("GET", "/api/v1/expenses"),
        "GET /api/v1/expenses"
    );
}

#[test]
fn a_serial_id_becomes_a_parameter() {
    assert_eq!(
        operation_name("PUT", "/api/v1/card-payments/412/status"),
        "PUT /api/v1/card-payments/{id}/status"
    );
}

#[test]
fn a_uuid_becomes_a_parameter() {
    assert_eq!(
        operation_name("GET", "/accounts/6f1b4c2e-0d3a-4f5b-8c7d-9e0a1b2c3d4e"),
        "GET /accounts/{id}"
    );
}

#[test]
fn an_opaque_key_becomes_a_parameter_extension_and_all() {
    assert_eq!(
        operation_name("GET", "/control/9f86d081884c7d659a2feaa0c55ad015.pdf"),
        "GET /control/{id}"
    );
}

/// The length rule is the only thing standing between a real route and a span
/// called `{id}`: `card-cut` and `dec0de` are both valid hexadecimal.
#[test]
fn a_short_hex_word_is_a_word() {
    assert_eq!(
        operation_name("GET", "/api/v1/reports/card-cut"),
        "GET /api/v1/reports/card-cut"
    );
    assert_eq!(
        operation_name("GET", "/api/v1/dec0de"),
        "GET /api/v1/dec0de"
    );
}

#[test]
fn the_root_is_a_path_and_not_an_empty_name() {
    assert_eq!(operation_name("GET", "/"), "GET /");
    assert_eq!(operation_name("GET", ""), "GET /");
}

#[test]
fn a_hashed_asset_keeps_its_name() {
    assert_eq!(
        operation_name("GET", "/static/js/index.a1b2c3z9.js"),
        "GET /static/js/index.a1b2c3z9.js"
    );
}

#[test]
fn repeated_slashes_collapse_rather_than_producing_empty_segments() {
    assert_eq!(operation_name("GET", "//api//v1//"), "GET /api/v1");
}

#[test]
fn the_defaults_are_the_conservative_ones() {
    let span = HttpSpan::new();
    assert!(span.adopt_inbound_context);
    assert!(span.normalize_names);
    assert!(
        !span.record_query,
        "a query string is opt-in: it carries values, not addresses"
    );
    let span = HttpSpan::default();
    assert!(span.adopt_inbound_context && span.normalize_names && !span.record_query);
}

#[test]
fn what_decides_is_the_stem() {
    assert!(is_identifier("7"));
    assert!(is_identifier("412.json"));
    assert!(is_identifier("0123456789abcdef"));
    assert!(is_identifier("0123456789ABCDE_"));
    assert!(is_identifier("----------------"));
    assert!(!is_identifier("0123456789abcde"));
    assert!(!is_identifier("0123456789abcde.f"));
    assert!(!is_identifier("0123456789abcdeg"));
    assert!(!is_identifier(".412"));
    assert!(!is_identifier(""));
    assert!(!is_identifier("\u{661}"), "an Arabic digit is no ASCII digit");
}

#[test]
fn only_the_root_is_shown_as_a_slash() {
    assert_eq!(operation_name("GET", "/a "), "GET /a ");
    assert_eq!(operation_name("GET", "///"), "GET /");
    assert_eq!(operation_name("", ""), " /");
}

#[test]
fn one_operation_has_one_name() {
    let name = operation_name("GET", "/users/1/files/0123456789abcdef.txt");
    assert_eq!(name, "GET /users/{id}/files/{id}");
    assert_eq!(operation_name("GET", "users//99/files/7/"), name);
    assert_eq!(operation_name("GET", &name["GET ".len()..]), name);
}

#[test]
fn a_span_says_what_was_asked_for() {
    let headers = HeaderMap::new();
    let (span, offered) = HttpSpan::new().make_span("GET", "/users/1", Some("token=t"), &headers);
    assert!(offered.is_some());
    assert_eq!(span.name, "GET /users/{id}");
    assert_eq!(span.method, "GET");
    assert_eq!(span.path, "/users/1");
    assert_eq!(span.query, None);
    assert!(span.parent.is_none());

    let (span, _) = HttpSpan::new()
        .with_raw_span_names()
        .with_query()
        .make_span("GET", "/users/1", Some("page=2"), &headers);
    assert_eq!(span.name, "GET /users/1");
    assert_eq!(span.query.as_deref(), Some("page=2"));

    let (span, _) = HttpSpan::new().with_query().make_span("GET", "/", None, &headers);
    assert_eq!(span.query, None);
}

#[test]
fn an_inbound_context_is_adopted_unless_it_is_ignored() {
    register();
    let (span, _) = HttpSpan::new().make_span("GET", "/", None, &inbound());
    let ids = span.parent.expect("a parent").ids();
    assert_eq!(ids.trace_id, 0x4bf92f3577b34da6a3ce929d0e0e4736);
    assert_eq!(ids.span_id, 0x00f067aa0ba902b7);
    assert!(ids.sampled);

    let (span, offered) = HttpSpan::new()
        .without_inbound_context()
        .make_span("GET", "/", None, &inbound());
    assert!(offered.is_none());
    assert!(span.parent.is_none());
}

#[test]
fn only_a_server_error_marks_a_span_as_failed() {
    for status in [100u16, 200, 302, 401, 404, 499, 600, 999] {
        let outcome = HttpStatus.on_response(status, 0);
        assert_eq!(outcome.status_code, status);
        assert_eq!(outcome.otel_status_code, None);
    }
    for status in [500u16, 503, 599] {
        let outcome = HttpStatus.on_response(status, 0);
        assert_eq!(outcome.otel_status_code.as_deref(), Some("ERROR"));
    }
}

#[test]
fn latency_is_counted_in_whole_milliseconds() {
    assert_eq!(HttpStatus.on_response(200, 1_999_999).latency_ms, 1);
    assert_eq!(HttpStatus.on_response(200, 12_000_000).latency_ms, 12);
    let longest = std::time::Duration::MAX;
    assert_eq!(
        HttpStatus.on_response(200, longest.as_nanos()).latency_ms,
        longest.as_millis() as u64
    );
}
