use cartografo_telemetry::propagate::{
    adopt, room_for, set_fields, trace_id_text, write_context, SpanIds, W3cPropagator,
};
use cartografo_telemetry::{
    current_trace_id, extract_context, inject_context, inject_context_from,
};
use http::{HeaderMap, HeaderName, HeaderValue};
use opentelemetry::trace::{
    SpanContext, SpanId, TraceContextExt, TraceFlags, TraceId, TraceState,
};
use opentelemetry::{global, Context};
use opentelemetry_sdk::propagation::TraceContextPropagator;

const IDS: SpanIds = SpanIds {
    trace_id: 0x4bf92f3577b34da6a3ce929d0e0e4736,
    span_id: 0x00f067aa0ba902b7,
    sampled: true,
};

/// Registers the propagator that an installation which exports registers.
fn register() {
    global::set_text_map_propagator(TraceContextPropagator::new());
}

/// A value that a context holds besides its span.
struct Kept(u8);

fn context() -> Context {
    Context::new().with_remote_span_context(SpanContext::new(
        TraceId::from(IDS.trace_id),
        SpanId::from(IDS.span_id),
        TraceFlags::SAMPLED,
        true,
        TraceState::NONE,
    ))
}

/// With no telemetry installed, nothing is added to a forwarded request.
#[test]
fn nothing_is_injected_without_a_span() {
    let mut headers = HeaderMap::new();
    inject_context(&mut headers);
    assert!(
        headers.is_empty(),
        "an uninstrumented process must forward exactly what it received"
    );
}

#[test]
fn nothing_is_injected_from_a_span_that_is_none() {
    register();
    let mut headers = HeaderMap::new();
    assert!(inject_context_from(&tracing::Span::none(), &mut headers).1.is_none());
    assert!(headers.is_empty());
}

#[test]
fn an_absent_traceparent_extracts_to_nothing() {
    assert!(extract_context(&HeaderMap::new()).1.is_none());
    register();
    assert!(extract_context(&HeaderMap::new()).1.is_none());
}

#[test]
fn a_malformed_traceparent_extracts_to_nothing() {
    register();
    let mut headers = HeaderMap::new();
    headers.insert(
        "traceparent",
        "not-a-trace-context".parse().expect("header"),
    );
    assert!(
        extract_context(&headers).1.is_none(),
        "a caller controls this header; an unparseable one makes a root span, not an error"
    );
    assert!(W3cPropagator::new().extract(&headers).is_none());
}

/// All-zero ids are the "invalid" span context the W3C spec defines. Adopting
/// one would put every such request into a single trace that means nothing.
#[test]
fn an_all_zero_traceparent_is_invalid() {
    register();
    let mut headers = HeaderMap::new();
    headers.insert(
        "traceparent",
        "00-00000000000000000000000000000000-0000000000000000-01"
            .parse()
            .expect("header"),
    );
    assert!(extract_context(&headers).1.is_none());
    assert!(W3cPropagator::new().extract(&headers).is_none());
}

#[test]
fn no_trace_id_without_telemetry() {
    assert!(current_trace_id().1.is_none());
}

/// A service inside a trace of its own does not hand that on as what the request
/// brought.
#[test]
fn the_current_context_is_not_what_a_request_brought() {
    register();
    let _guard = context().attach();
    assert!(extract_context(&HeaderMap::new()).1.is_none());
}

/// What else the current context holds stays with the one that a request brought.
#[test]
fn the_values_of_the_current_context_are_kept() {
    register();
    let _guard = context().with_value(Kept(7)).attach();
    let mut headers = HeaderMap::new();
    let brought = SpanIds { trace_id: 1, span_id: 2, sampled: false };
    assert!(W3cPropagator::new().inject(&brought, &mut headers));
    let read = extract_context(&headers).1.expect("a context");
    assert_eq!(read.ids().trace_id, 1);
    let read = read.into_context();
    assert_eq!(read.get::<Kept>().map(|kept| kept.0), Some(7));
    assert_eq!(read.span().span_context().span_id(), SpanId::from(2));
}

#[test]
fn what_one_service_writes_the_next_one_reads() {
    register();
    let mut headers = HeaderMap::new();
    headers.insert("x-kept", HeaderValue::from_static("kept"));
    headers.insert("traceparent", HeaderValue::from_static("stale"));
    assert!(write_context(&IDS, &context(), &mut headers).is_some());
    assert_eq!(
        headers.get("traceparent").map(HeaderValue::as_bytes),
        Some(&b"00-4bf92f3577b34da6a3ce929d0e0e4736-00f067aa0ba902b7-01"[..])
    );
    assert_eq!(headers.get_all("traceparent").iter().count(), 1);
    assert_eq!(headers.get("x-kept").map(HeaderValue::as_bytes), Some(&b"kept"[..]));

    let read = extract_context(&headers).1.expect("a context");
    assert_eq!(read.ids().trace_id, IDS.trace_id);
    assert_eq!(read.ids().span_id, IDS.span_id);
    assert!(read.ids().sampled);
    let read = read.into_context();
    assert_eq!(read.span().span_context().trace_id(), TraceId::from(IDS.trace_id));
}

#[test]
fn an_invalid_context_is_never_written() {
    register();
    for ids in [
        SpanIds { trace_id: 0, ..IDS },
        SpanIds { span_id: 0, ..IDS },
    ] {
        let mut headers = HeaderMap::new();
        assert!(write_context(&ids, &context(), &mut headers).is_none());
        assert!(headers.is_empty());
        assert!(W3cPropagator::new().inject(&ids, &mut headers));
        assert!(headers.is_empty());
        assert!(!ids.is_valid());
        assert!(adopt(ids, context()).is_none());
        assert!(trace_id_text(&ids).is_none());
    }
}

#[test]
fn the_propagator_reads_back_what_it_writes() {
    let propagator = W3cPropagator::new();
    for ids in [
        IDS,
        SpanIds { trace_id: 1, span_id: 1, sampled: false },
        SpanIds { trace_id: u128::MAX, span_id: u64::MAX, sampled: true },
    ] {
        let mut headers = HeaderMap::new();
        assert!(propagator.inject(&ids, &mut headers));
        let read = propagator.extract(&headers).expect("a context");
        assert_eq!(read.trace_id, ids.trace_id);
        assert_eq!(read.span_id, ids.span_id);
        assert_eq!(read.sampled, ids.sampled);
    }
    let mut headers = HeaderMap::new();
    propagator.inject(&SpanIds { trace_id: 1, span_id: 2, sampled: false }, &mut headers);
    assert_eq!(
        headers.get("traceparent").map(HeaderValue::as_bytes),
        Some(&b"00-00000000000000000000000000000001-0000000000000002-00"[..])
    );
    assert!(propagator.extract(&HeaderMap::new()).is_none());
}

#[test]
fn a_malformed_traceparent_reads_as_none() {
    register();
    for value in [
        "",
        "00",
        "00-4bf92f3577b34da6a3ce929d0e0e4736-00f067aa0ba902b7",
        "not-a-trace-context",
        "0x-4bf92f3577b34da6a3ce929d0e0e4736-00f067aa0ba902b7-01",
        "00-00000000000000000000000000000000-00f067aa0ba902b7-01",
        "00-4bf92f3577b34da6a3ce929d0e0e4736-0000000000000000-01",
    ] {
        let mut headers = HeaderMap::new();
        headers.insert("traceparent", HeaderValue::from_static(value));
        assert!(W3cPropagator::new().extract(&headers).is_none(), "{value}");
        assert!(extract_context(&headers).1.is_none(), "{value}");
    }
    let mut headers = HeaderMap::new();
    headers.insert("traceparent", HeaderValue::from_bytes(&[0xff]).expect("a value"));
    assert!(W3cPropagator::new().extract(&headers).is_none());
}

#[test]
fn the_first_traceparent_is_the_one_that_counts() {
    let mut headers = HeaderMap::new();
    headers.append(
        "traceparent",
        HeaderValue::from_static("00-00000000000000000000000000000001-0000000000000002-00"),
    );
    headers.append("traceparent", HeaderValue::from_static("nonsense"));
    let read = W3cPropagator::new().extract(&headers).expect("a context");
    assert_eq!((read.trace_id, read.span_id, read.sampled), (1, 2, false));
}

#[test]
fn a_trace_id_is_thirty_two_hexadecimal_characters() {
    assert_eq!(
        trace_id_text(&IDS).as_deref(),
        Some("4bf92f3577b34da6a3ce929d0e0e4736")
    );
    let small = SpanIds { trace_id: 0xabc, ..IDS };
    assert_eq!(
        trace_id_text(&small).as_deref(),
        Some("00000000000000000000000000000abc")
    );
}

#[test]
fn a_field_is_set_under_its_name_in_lower_case() {
    let mut headers = HeaderMap::new();
    headers.append("x-a", HeaderValue::from_static("1"));
    headers.append("x-a", HeaderValue::from_static("2"));
    let fields = vec![
        ("X-A".to_owned(), b"3".to_vec()),
        ("x-b".to_owned(), Vec::new()),
    ];
    assert!(set_fields(&fields, &mut headers));
    assert_eq!(headers.get_all("x-a").iter().count(), 1);
    assert_eq!(headers.get("x-a").map(HeaderValue::as_bytes), Some(&b"3"[..]));
    assert_eq!(headers.get("x-b").map(HeaderValue::as_bytes), Some(&b""[..]));
}

#[test]
fn a_field_that_is_no_header_is_left_out() {
    let mut headers = HeaderMap::new();
    let fields = vec![
        ("not a name".to_owned(), b"1".to_vec()),
        ("x-line".to_owned(), b"1\n2".to_vec()),
        ("x-delete".to_owned(), vec![127]),
        ("x-b".to_owned(), b"2".to_vec()),
    ];
    assert!(!set_fields(&fields, &mut headers));
    assert_eq!(headers.len(), 1);
    let fields = vec![("x-c".to_owned(), "a\t\u{e9}".as_bytes().to_vec())];
    assert!(set_fields(&fields, &mut headers));
    assert_eq!(headers.get("x-c").map(HeaderValue::as_bytes), Some("a\t\u{e9}".as_bytes()));
    assert_eq!(headers.get("x-b").map(HeaderValue::as_bytes), Some(&b"2"[..]));
}

#[test]
fn room_is_counted_by_name() {
    let mut headers = HeaderMap::new();
    assert!(room_for(&headers, 6554));
    assert!(!room_for(&headers, 6555));
    headers.append("x-a", HeaderValue::from_static("1"));
    headers.append("x-a", HeaderValue::from_static("2"));
    headers.append("x-b", HeaderValue::from_static("3"));
    assert!(room_for(&headers, 6552));
    assert!(!room_for(&headers, 6553));
    assert!(!room_for(&headers, usize::MAX));
}

/// A trace state that is not ASCII is carried along as it stands.
#[test]
fn a_trace_state_is_carried_along() {
    register();
    let state = TraceState::from_key_value([("k", "\u{e9}")]).expect("a trace state");
    let context = Context::new().with_remote_span_context(SpanContext::new(
        TraceId::from(IDS.trace_id),
        SpanId::from(IDS.span_id),
        TraceFlags::SAMPLED,
        true,
        state,
    ));
    let mut headers = HeaderMap::new();
    let written = write_context(&IDS, &context, &mut headers);
    assert!(matches!(written, Some((_, true))));
    assert_eq!(
        headers.get("tracestate").map(HeaderValue::as_bytes),
        Some("k=\u{e9}".as_bytes())
    );
    let read = extract_context(&headers).1.expect("a context");
    assert_eq!(read.ids().trace_id, IDS.trace_id);
}

#[test]
fn headers_take_many_names_and_then_no_more() {
    let mut headers = HeaderMap::new();
    let mut stored = 0;
    for i in 0..40_000 {
        let name = HeaderName::from_bytes(format!("x-{i}").as_bytes()).expect("a name");
        if headers.try_insert(name, HeaderValue::from_static("")).is_err() {
            break;
        }
        stored += 1;
    }
    assert!((6554..40_000).contains(&stored));
    assert!(!room_for(&headers, 2));
    assert!(!W3cPropagator::new().inject(&IDS, &mut headers));
    register();
    let written = write_context(&IDS, &context(), &mut headers);
    assert!(matches!(written, Some((_, false))));
    assert!(!headers.contains_key("traceparent"));
}
