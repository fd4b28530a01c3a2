//! What the OpenTelemetry crates answer of spans, contexts and headers, each answer with
//! what it was asked of.

use http::{HeaderMap, HeaderValue};
use opentelemetry::trace::{SpanContext, TraceContextExt};
use opentelemetry::{global, Context};
use opentelemetry_http::{HeaderExtractor, HeaderInjector};
use tracing::Span;
use tracing_opentelemetry::OpenTelemetrySpanExt;
use vstd::prelude::*;

use crate::propagate::{
    are_fields, field_texts, has_room, header_values, is_w3c,
    law_the_last_field_of_a_name_decides, lower_case, only_set, read_from, reads, set_by,
    with_fields, SpanIds,
};

verus! {

/// A span of `tracing`.
#[verifier::external_type_specification]
#[verifier::external_body]
pub struct ExSpan(tracing::Span);

/// An OpenTelemetry context.
#[verifier::external_type_specification]
#[verifier::external_body]
pub struct ExContext(opentelemetry::Context);

/// What the span that a context holds is known by; zeros where it holds none.
pub uninterp spec fn span_in(context: Context) -> SpanIds;

/// The context that was found for a span.
pub struct Found {
    span: Ghost<Span>,
    context: Ghost<Context>,
}

impl Found {
    /// The span.
    pub closed spec fn span(self) -> Span {
        self.span@
    }

    /// Its context.
    pub closed spec fn context(self) -> Context {
        self.context@
    }
}

/// The context that the registered propagator read from headers.
pub struct Offered {
    headers: Ghost<Map<Seq<char>, Seq<Seq<u8>>>>,
    context: Ghost<Context>,
    w3c: Ghost<bool>,
}

impl Offered {
    /// The values of each header.
    pub closed spec fn headers(self) -> Map<Seq<char>, Seq<Seq<u8>>> {
        self.headers@
    }

    /// The context.
    pub closed spec fn context(self) -> Context {
        self.context@
    }

    /// Whether the propagator that was registered at the time is the SDK's
    /// `TraceContextPropagator`.
    pub closed spec fn by_w3c(self) -> bool {
        self.w3c@
    }
}

/// What the registered propagator made of a context.
pub struct Injected {
    context: Ghost<Context>,
    fields: Vec<(String, Vec<u8>)>,
    w3c: Ghost<bool>,
}

impl Injected {
    /// The context that was written.
    pub closed spec fn context(self) -> Context {
        self.context@
    }

    /// The fields it was written as.
    pub closed spec fn fields(self) -> Seq<(Seq<char>, Seq<u8>)> {
        field_texts(self.fields@)
    }

    /// Whether the propagator that was registered at the time is the SDK's
    /// `TraceContextPropagator`.
    pub closed spec fn by_w3c(self) -> bool {
        self.w3c@
    }

    /// Whether setting these fields turns `before` into `after`: each that can be a header
    /// and finds room has its one value, and no other header changes. `all` says that each
    /// was set.
    pub open spec fn turns(
        self,
        before: Map<Seq<char>, Seq<Seq<u8>>>,
        after: Map<Seq<char>, Seq<Seq<u8>>>,
        all: bool,
    ) -> bool {
        &&& only_set(before, after, self.fields())
        &&& are_fields(self.fields()) && has_room(before, self.fields().len()) ==> all
        &&& all ==> after == with_fields(before, self.fields())
    }

    /// The fields it was written as.
    pub fn field_list(&self) -> (r: &Vec<(String, Vec<u8>)>)
        ensures
            field_texts(r@) == self.fields(),
    {
        &self.fields
    }
}

/// `Span::current` of `tracing`, of which nothing is claimed: it is the span the
/// thread is in.
#[verifier::external_body]
pub(crate) fn current_span() -> (r: Span) {
    Span::current()
}

/// `OpenTelemetrySpanExt::context`.
///
/// Claimed of it: nothing but that the context comes with the span it was asked of. Which
/// it is is left unsaid: it asks the installed subscriber.
#[verifier::external_body]
pub(crate) fn context_of(span: &Span) -> (r: (Context, Found))
    ensures
        r.1.span() == *span,
        r.1.context() == r.0,
{
    let context = span.context();
    let found = Found { span: Ghost(*span), context: Ghost(context) };
    (context, found)
}

/// `SpanContext::trace_id`, `span_id` and `trace_flags` of the span in a context.
///
/// Claimed of them: what they answer depends on the context alone, which is immutable.
#[verifier::external_body]
pub(crate) fn ids_of(context: &Context) -> (r: SpanIds)
    ensures
        r == span_in(*context),
{
    let span = context.span();
    let found = span.span_context();
    SpanIds {
        trace_id: u128::from_be_bytes(found.trace_id().to_bytes()),
        span_id: u64::from_be_bytes(found.span_id().to_bytes()),
        sampled: found.trace_flags().is_sampled(),
    }
}

/// `inject_context` of the propagator that is registered globally, into headers of
/// its own.
///
/// Claimed of it: the fields come with the context they were made of. Where the
/// propagator is a `TraceContextPropagator`, they are the `traceparent` of a valid context
/// and a `tracestate`. What another propagator makes of a context is left unsaid, and any
/// part of the process may register one.
#[verifier::external_body]
pub(crate) fn registered_fields(context: &Context) -> (r: Injected)
    ensures
        r.context() == *context,
        r.by_w3c() && span_in(*context).valid() ==> is_w3c(r.fields(), span_in(*context)),
{
    let mut fields = HeaderMap::new();
    global::get_text_map_propagator(|propagator| {
        propagator.inject_context(context, &mut HeaderInjector(&mut fields))
    });
    let pairs = fields.iter().map(|(name, value)| (name.to_string(), value.as_bytes().to_vec()));
    Injected { context: Ghost(*context), fields: pairs.collect(), w3c: Ghost(arbitrary()) }
}

/// What a context without a span is known by.
pub open spec fn no_span() -> SpanIds {
    SpanIds { trace_id: 0, span_id: 0, sampled: false }
}

/// `Context::current`, its span replaced by none with `with_remote_span_context`.
///
/// Claimed of it: there is no span in it. What else it holds is left unsaid: it is what
/// the thread has attached.
#[verifier::external_body]
pub(crate) fn current_without_span() -> (r: Context)
    ensures
        span_in(r) == no_span(),
{
    Context::current().with_remote_span_context(SpanContext::NONE)
}

/// `extract_with_context` of the propagator that is registered globally, over a context
/// without a span.
///
/// Claimed of it: the context comes with the headers it was read from. Where the
/// propagator is a `TraceContextPropagator`, the span in it is the one that the headers
/// carry, there is none where they have no `traceparent`, a malformed one or one with an id
/// that is zero, and otherwise it depends on the first value of that alone. What another propagator reads is left unsaid, and any part of
/// the process may register one.
#[verifier::external_body]
pub(crate) fn registered_context(headers: &HeaderMap<HeaderValue>, over: &Context) -> (r: (
    Context,
    Offered,
))
    requires
        span_in(*over) == no_span(),
    ensures
        r.1.headers() == header_values(*headers),
        r.1.context() == r.0,
        r.1.by_w3c() ==> reads(header_values(*headers), span_in(r.0)),
        r.1.by_w3c() && header_values(*headers).contains_key("traceparent"@) ==> span_in(r.0)
            == read_from(header_values(*headers)["traceparent"@][0]),
{
    let context = global::get_text_map_propagator(|propagator| {
        propagator.extract_with_context(over, &HeaderExtractor(headers))
    });
    let values = Ghost(header_values(*headers));
    let offered = Offered { headers: values, context: Ghost(context), w3c: Ghost(arbitrary()) };
    (context, offered)
}

/// Writing a context sets the headers that its fields name and no others: no header is
/// taken away, one that no field names is as it was, and where all were set the last field
/// of a name is the one value of that header.
pub proof fn law_only_the_fields_are_set(
    injected: Injected,
    before: Map<Seq<char>, Seq<Seq<u8>>>,
    after: Map<Seq<char>, Seq<Seq<u8>>>,
    all: bool,
    front: Seq<(Seq<char>, Seq<u8>)>,
    name: Seq<char>,
    value: Seq<u8>,
    back: Seq<(Seq<char>, Seq<u8>)>,
)
    requires
        injected.turns(before, after, all),
    ensures
        before.contains_key(name) ==> after.contains_key(name),
        (forall|i: int|
            0 <= i < injected.fields().len() ==> lower_case((#[trigger] injected.fields()[i]).0)
                != name) ==> {
            &&& after.contains_key(name) == before.contains_key(name)
            &&& before.contains_key(name) ==> after[name] == before[name]
        },
        all && injected.fields() == front + seq![(name, value)] + back && (forall|i: int|
            0 <= i < back.len() ==> lower_case((#[trigger] back[i]).0) != lower_case(name)) ==> {
            &&& after.contains_key(lower_case(name))
            &&& after[lower_case(name)] == seq![value]
        },
{
    let fields = injected.fields();
    if before.contains_key(name) {
        assert(before.dom().contains(name));
        assert(after.dom().contains(name));
    }
    if forall|i: int| 0 <= i < fields.len() ==> lower_case((#[trigger] fields[i]).0) != name {
        if after.contains_key(name) && set_by(fields, name, after[name]) {
            let field = choose|field: (Seq<char>, Seq<u8>)| #[trigger]
                fields.contains(field) && lower_case(field.0) == name && after[name] == seq![
                    field.1,
                ];
            let i = choose|i: int| 0 <= i < fields.len() && fields[i] == field;
            assert(lower_case(fields[i].0) != name);
        }
    }
    if all && fields == front + seq![(name, value)] + back && forall|i: int|
        0 <= i < back.len() ==> lower_case((#[trigger] back[i]).0) != lower_case(name) {
        law_the_last_field_of_a_name_decides(before, front, name, value, back);
    }
}

} // verus!
