//! Carrying a trace across a service boundary, over W3C `traceparent`.
//!
//! One rule decides the shape of everything here: an invalid context is never
//! written. A process with no exporter installed has no real span, so nothing is
//! added to a request it forwards.

use http::{HeaderMap, HeaderName, HeaderValue};
use opentelemetry::trace::{
    SpanContext, SpanId, TraceContextExt, TraceFlags, TraceId, TraceState,
};
use opentelemetry::propagation::TextMapPropagator;
use opentelemetry::Context;
use opentelemetry_http::{HeaderExtractor, HeaderInjector};
use opentelemetry_sdk::propagation::TraceContextPropagator;
use tracing::Span;
use vstd::prelude::*;

use crate::context::{
    context_of, current_span, current_without_span, ids_of, registered_context, registered_fields,
    span_in, Found, Injected, Offered,
};
use crate::registration::{register_propagator, Registered, Subscription};
use crate::text::{lemma_one_piece, lemma_pieces_of_join, pieces};

verus! {

/// The propagator of W3C `traceparent`.
#[verifier::external_type_specification]
#[verifier::external_body]
pub struct ExTraceContextPropagator(opentelemetry_sdk::propagation::TraceContextPropagator);

/// The headers of a request.
#[verifier::external_type_specification]
#[verifier::external_body]
#[verifier::reject_recursive_types(T)]
pub struct ExHeaderMap<T>(http::HeaderMap<T>);

/// The value of a header.
#[verifier::external_type_specification]
#[verifier::external_body]
pub struct ExHeaderValue(http::HeaderValue);

/// The values of each header, by its name in lower case.
pub uninterp spec fn header_values(headers: HeaderMap<HeaderValue>) -> Map<
    Seq<char>,
    Seq<Seq<u8>>,
>;

/// What of a span context decides whether it can be carried, and under which id.
#[derive(Clone, Copy, Debug)]
pub struct SpanIds {
    /// The trace.
    pub trace_id: u128,
    /// The span in it.
    pub span_id: u64,
    /// Whether the trace is recorded.
    pub sampled: bool,
}

impl SpanIds {
    /// A context is valid when neither id is zero.
    pub open spec fn valid(self) -> bool {
        self.trace_id != 0 && self.span_id != 0
    }

    /// Whether the context can be carried: neither id is zero.
    pub fn is_valid(&self) -> (r: bool)
        ensures
            r == self.valid(),
    {
        self.trace_id != 0 && self.span_id != 0
    }
}

/// The lower case hexadecimal digit.
pub open spec fn hex_digit(n: int) -> char {
    "0123456789abcdef"@[n]
}

/// `n` in lower case hexadecimal, to `width` digits.
pub open spec fn hex(n: nat, width: nat) -> Seq<char>
    decreases width,
{
    if width == 0 {
        Seq::empty()
    } else {
        hex(n / 16, (width - 1) as nat).push(hex_digit((n % 16) as int))
    }
}

/// `n` in lower case hexadecimal, to `width` digits.
fn hex_text(n: u128, width: usize) -> (r: String)
    ensures
        r@ == hex(n as nat, width as nat),
    decreases width,
{
    if width == 0 {
        return String::new();
    }
    let mut out = hex_text(n / 16, width - 1);
    let d: usize = (n % 16) as usize;
    proof {
        reveal_strlit("0123456789abcdef");
    }
    let ghost before = out@;
    out.append("0123456789abcdef".substring_char(d, d + 1));
    assert(out@ =~= before.push(hex_digit(d as int)));
    out
}

/// The trace's id as the 32 lower case hexadecimal characters that a backend
/// searches by; `None` when there is no trace.
pub fn trace_id_text(ids: &SpanIds) -> (r: Option<String>)
    ensures
        match r {
            Some(text) => ids.valid() && text@ == hex(ids.trace_id as nat, 32),
            None => !ids.valid(),
        },
{
    if ids.is_valid() {
        Some(hex_text(ids.trace_id, 32))
    } else {
        None
    }
}

/// An OpenTelemetry context that can be carried, and what it is known by.
#[derive(Debug)]
pub struct TraceContext {
    ids: SpanIds,
    context: Context,
}

impl TraceContext {
    /// What the context is known by.
    pub closed spec fn known_by(self) -> SpanIds {
        self.ids
    }

    /// The OpenTelemetry context.
    pub closed spec fn carried(self) -> Context {
        self.context
    }

    /// What the context is known by.
    pub fn ids(&self) -> (r: SpanIds)
        ensures
            r == self.known_by(),
    {
        self.ids
    }

    /// The OpenTelemetry context.
    pub fn into_context(self) -> (r: Context)
        ensures
            r == self.carried(),
    {
        self.context
    }
}

/// The context as one that can be carried; `None` when it is not valid.
pub fn adopt(ids: SpanIds, context: Context) -> (r: Option<TraceContext>)
    ensures
        match r {
            Some(c) => ids.valid() && c.known_by() == ids && c.carried() == context,
            None => !ids.valid(),
        },
{
    if ids.is_valid() {
        Some(TraceContext { ids, context })
    } else {
        None
    }
}

/// An ASCII capital as a small letter.
pub open spec fn lower(c: char) -> char {
    if 'A' <= c <= 'Z' {
        (c as u32 + 32) as char
    } else {
        c
    }
}

/// `text` with its ASCII capitals as small letters.
pub open spec fn lower_case(text: Seq<char>) -> Seq<char> {
    text.map_values(|c: char| lower(c))
}

/// Whether the field can be a header: a name of at most 64 ASCII letters, digits and
/// dashes, and a value without control characters other than tabs.
pub open spec fn is_field(name: Seq<char>, value: Seq<u8>) -> bool {
    &&& 0 < name.len() <= 64
    &&& forall|i: int|
        0 <= i < name.len() ==> {
            let c = #[trigger] name[i];
            'a' <= c <= 'z' || 'A' <= c <= 'Z' || '0' <= c <= '9' || c == '-'
        }
    &&& forall|i: int|
        0 <= i < value.len() ==> {
            let b = #[trigger] value[i];
            (32 <= b && b != 127) || b == 9
        }
}

/// Whether there is room for `more` names: a map of headers takes at least 6554.
pub open spec fn has_room(headers: Map<Seq<char>, Seq<Seq<u8>>>, more: nat) -> bool {
    headers.dom().finite() && headers.dom().len() + more <= 6554
}

/// Whether there are this many names, and no more.
pub open spec fn are_counted(names: Set<Seq<char>>, count: nat) -> bool {
    names.finite() && names.len() == count
}

/// `HeaderMap::keys_len`.
///
/// Claimed of it: it is the number of names, of which there are finitely many.
#[verifier::external_body]
fn name_count(headers: &HeaderMap<HeaderValue>) -> (r: usize)
    ensures
        are_counted(header_values(*headers).dom(), r as nat),
{
    headers.keys_len()
}

/// Whether the headers have room for `more` names.
pub fn room_for(headers: &HeaderMap<HeaderValue>, more: usize) -> (r: bool)
    ensures
        r == has_room(header_values(*headers), more as nat),
{
    let names = name_count(headers);
    names <= 6554 && more <= 6554 - names
}

/// `HeaderMap::try_insert`, over `HeaderName::from_bytes` and `HeaderValue::from_bytes`.
///
/// Claimed of it: the header either has this one value afterwards and the others
/// are as they were, or nothing changed. A name is kept in lower case. A field of plain
/// characters is stored while there are fewer than 6554 names: the map grows to 32768
/// places and refuses to grow further only when more than a fifth of them are taken.
#[verifier::external_body]
fn set_header(headers: &mut HeaderMap<HeaderValue>, name: &str, value: &Vec<u8>) -> (stored: bool)
    ensures
        is_field(name@, value@) && has_room(header_values(*old(headers)), 1) ==> stored,
        stored ==> header_values(*final(headers)) == header_values(*old(headers)).insert(
            lower_case(name@),
            seq![value@],
        ),
        !stored ==> header_values(*final(headers)) == header_values(*old(headers)),
{
    match (HeaderName::from_bytes(name.as_bytes()), HeaderValue::from_bytes(value)) {
        (Ok(name), Ok(value)) => headers.try_insert(name, value).is_ok(),
        _ => false,
    }
}

/// The name and the value of each field.
pub open spec fn field_texts(fields: Seq<(String, Vec<u8>)>) -> Seq<(Seq<char>, Seq<u8>)> {
    Seq::new(fields.len(), |i: int| (fields[i].0@, fields[i].1@))
}

/// The headers with the fields set one after the other.
pub open spec fn with_fields(
    headers: Map<Seq<char>, Seq<Seq<u8>>>,
    fields: Seq<(Seq<char>, Seq<u8>)>,
) -> Map<Seq<char>, Seq<Seq<u8>>>
    decreases fields.len(),
{
    if fields.len() == 0 {
        headers
    } else {
        with_fields(headers, fields.drop_last()).insert(
            lower_case(fields.last().0),
            seq![fields.last().1],
        )
    }
}

/// Whether the header `name` has the one value that one of the fields gives it.
pub open spec fn set_by(
    fields: Seq<(Seq<char>, Seq<u8>)>,
    name: Seq<char>,
    values: Seq<Seq<u8>>,
) -> bool {
    exists|field: (Seq<char>, Seq<u8>)| #[trigger]
        fields.contains(field) && lower_case(field.0) == name && values == seq![field.1]
}

/// Whether every header of `before` is still there in `after`, and each header of
/// `after` is as it was or was set by one of the fields.
pub open spec fn only_set(
    before: Map<Seq<char>, Seq<Seq<u8>>>,
    after: Map<Seq<char>, Seq<Seq<u8>>>,
    fields: Seq<(Seq<char>, Seq<u8>)>,
) -> bool {
    &&& before.dom().subset_of(after.dom())
    &&& forall|name: Seq<char>| #[trigger]
        after.contains_key(name) ==> {
            ||| before.contains_key(name) && after[name] == before[name]
            ||| set_by(fields, name, after[name])
        }
}

/// Whether each of the fields can be a header.
pub open spec fn are_fields(fields: Seq<(Seq<char>, Seq<u8>)>) -> bool {
    forall|i: int| 0 <= i < fields.len() ==> is_field((#[trigger] fields[i]).0, fields[i].1)
}

/// Sets the fields one after the other. One that is no header, or that the headers have
/// no room for, is left out, and the answer is `false`.
pub fn set_fields(fields: &Vec<(String, Vec<u8>)>, headers: &mut HeaderMap<HeaderValue>) -> (all:
    bool)
    ensures
        all ==> header_values(*final(headers)) == with_fields(
            header_values(*old(headers)),
            field_texts(fields@),
        ),
        are_fields(field_texts(fields@)) && has_room(header_values(*old(headers)), fields@.len())
            ==> all,
        only_set(
            header_values(*old(headers)),
            header_values(*final(headers)),
            field_texts(fields@),
        ),
        fields@.len() == 0 ==> all && *final(headers) == *old(headers),
{
    let ghost texts = field_texts(fields@);
    let mut all = true;
    let mut i: usize = 0;
    assert(texts.take(0) =~= Seq::empty());
    while i < fields.len()
        invariant
            i <= fields.len(),
            texts == field_texts(fields@),
            all ==> header_values(*headers) == with_fields(
                header_values(*old(headers)),
                texts.take(i as int),
            ),
            are_fields(texts) && has_room(header_values(*old(headers)), texts.len()) ==> all
                && has_room(header_values(*headers), (texts.len() - i) as nat),
            only_set(header_values(*old(headers)), header_values(*headers), texts),
            fields@.len() == 0 ==> all && *headers == *old(headers),
        decreases fields.len() - i,
    {
        assert(texts[i as int] == (fields[i as int].0@, fields[i as int].1@));
        assert(texts.contains(texts[i as int]));
        let stored = set_header(headers, fields[i].0.as_str(), &fields[i].1);
        all = all && stored;
        assert(texts.take(i + 1).drop_last() =~= texts.take(i as int));
        i += 1;
    }
    assert(texts.take(i as int) =~= texts);
    all
}

/// Whether headers other than `traceparent` and `tracestate` are as they were.
pub open spec fn others_are_kept(
    before: Map<Seq<char>, Seq<Seq<u8>>>,
    after: Map<Seq<char>, Seq<Seq<u8>>>,
) -> bool {
    forall|name: Seq<char>|
        name != "traceparent"@ && name != "tracestate"@ ==> {
            &&& before.contains_key(name) == #[trigger] after.contains_key(name)
            &&& after.contains_key(name) ==> after[name] == before[name]
        }
}

/// Whether this is what becomes of the headers of a request when a context is to be
/// written: nothing if it is not valid, otherwise the fields that the registered
/// propagator makes of it, and whether all of them were set. Where that is the propagator
/// of W3C `traceparent`, all are if there is room, the headers carry the context once they
/// are, and the others are as they were.
pub open spec fn injects(
    context: Context,
    before: HeaderMap<HeaderValue>,
    after: HeaderMap<HeaderValue>,
    injected: Option<(Injected, bool)>,
) -> bool {
    match injected {
        None => !span_in(context).valid() && after == before,
        Some((injected, all)) => {
            &&& span_in(context).valid()
            &&& injected.context() == context
            &&& injected.turns(header_values(before), header_values(after), all)
            &&& injected.by_w3c() ==> {
                &&& others_are_kept(header_values(before), header_values(after))
                &&& has_room(header_values(before), 2) ==> all
                &&& all ==> carries(header_values(after), span_in(context))
            }
        },
    }
}

/// Writes the current span's trace context into `headers`, and says whose it wrote, what,
/// and whether all of it found room.
///
/// To be called on an outgoing request right before it leaves. Does nothing when
/// there is no valid context to write.
pub fn inject_context(headers: &mut HeaderMap<HeaderValue>) -> (r: (
    Found,
    Option<(Injected, bool)>,
))
    ensures
        injects(r.0.context(), *old(headers), *final(headers), r.1),
{
    inject_context_from(&current_span(), headers)
}

/// [`inject_context`] for a span other than the current one.
pub fn inject_context_from(span: &Span, headers: &mut HeaderMap<HeaderValue>) -> (r: (
    Found,
    Option<(Injected, bool)>,
))
    ensures
        r.0.span() == *span,
        injects(r.0.context(), *old(headers), *final(headers), r.1),
{
    let (context, found) = context_of(span);
    let ids = ids_of(&context);
    let injected = write_context(&ids, &context, headers);
    (found, injected)
}

/// Writes a context that is known by `ids` into `headers`, and says what it wrote and
/// whether all of it found room: nothing at all when the context is not valid.
pub fn write_context(
    ids: &SpanIds,
    context: &Context,
    headers: &mut HeaderMap<HeaderValue>,
) -> (r: Option<(Injected, bool)>)
    ensures
        match r {
            None => !ids.valid() && *final(headers) == *old(headers),
            Some((injected, all)) => {
                &&& ids.valid()
                &&& injected.context() == *context
                &&& injected.turns(
                    header_values(*old(headers)),
                    header_values(*final(headers)),
                    all,
                )
            },
        },
        *ids == span_in(*context) ==> injects(*context, *old(headers), *final(headers), r),
{
    if !ids.is_valid() {
        return None;
    }
    let injected = registered_fields(context);
    let ghost before = header_values(*headers);
    let all = set_fields(injected.field_list(), headers);
    proof {
        if span_in(*context).valid() && injected.by_w3c() {
            lemma_w3c_fields(
                span_in(*context),
                before,
                header_values(*headers),
                injected.fields(),
            );
        }
    }
    Some((injected, all))
}

/// Whether this is what is read from the headers of a request: what the registered
/// propagator reads there, if that is valid. Where that is the propagator of W3C
/// `traceparent`, it reads what the headers carry.
pub open spec fn extracts(
    headers: Map<Seq<char>, Seq<Seq<u8>>>,
    offered: Offered,
    adopted: Option<TraceContext>,
) -> bool {
    &&& offered.headers() == headers
    &&& match adopted {
        Some(adopted) => {
            &&& span_in(offered.context()).valid()
            &&& adopted.known_by() == span_in(offered.context())
            &&& adopted.carried() == offered.context()
        },
        None => !span_in(offered.context()).valid(),
    }
    &&& offered.by_w3c() ==> {
        &&& reads(headers, span_in(offered.context()))
        &&& headers.contains_key("traceparent"@) ==> span_in(offered.context()) == read_from(
            headers["traceparent"@][0],
        )
    }
}

/// Reads the trace context that an upstream service put on the request, and says what it
/// read and from which headers.
///
/// `None` when there is no `traceparent`, or when the one there is does not parse.
/// Anyone can send the header, so a caller should treat the result as a link
/// offered rather than a fact established.
pub fn extract_context(headers: &HeaderMap<HeaderValue>) -> (r: (Offered, Option<TraceContext>))
    ensures
        extracts(header_values(*headers), r.0, r.1),
{
    let (context, offered) = registered_context(headers, &current_without_span());
    let ids = ids_of(&context);
    (offered, adopt(ids, context))
}

/// Whether this is how the trace of a context is shown: its id in 32 lower case
/// hexadecimal characters if the context is valid, and not at all otherwise.
pub open spec fn shows(context: Context, text: Option<String>) -> bool {
    match text {
        Some(text) => span_in(context).valid() && text@ == hex(
            span_in(context).trace_id as nat,
            32,
        ),
        None => !span_in(context).valid(),
    }
}

/// The current trace's id as the 32 lower case hexadecimal characters that a backend
/// searches by, or `None` when this process is not tracing; and whose trace it is.
pub fn current_trace_id() -> (r: (Found, Option<String>))
    ensures
        shows(r.0.context(), r.1),
{
    let (context, found) = context_of(&current_span());
    (found, trace_id_text(&ids_of(&context)))
}

/// ASCII text as bytes.
pub open spec fn ascii(text: Seq<char>) -> Seq<u8> {
    text.map_values(|c: char| c as u8)
}

/// The `traceparent` of a context: version, trace, span and whether it is recorded.
pub open spec fn traceparent(ids: SpanIds) -> Seq<char> {
    seq!['0', '0', '-'] + hex(ids.trace_id as nat, 32) + seq!['-'] + hex(ids.span_id as nat, 16)
        + seq![
        '-',
        '0',
        if ids.sampled {
            '1'
        } else {
            '0'
        },
    ]
}

/// The fields that a context without trace state is written as.
pub open spec fn written_fields(ids: SpanIds) -> Seq<(Seq<char>, Seq<u8>)> {
    seq![("traceparent"@, ascii(traceparent(ids))), ("tracestate"@, Seq::<u8>::empty())]
}

/// Whether the headers carry this context.
pub open spec fn carries(headers: Map<Seq<char>, Seq<Seq<u8>>>, ids: SpanIds) -> bool {
    &&& headers.contains_key("traceparent"@)
    &&& headers["traceparent"@] == seq![ascii(traceparent(ids))]
}

/// Whether the fields are what the propagator of W3C `traceparent` makes of a context:
/// its `traceparent`, and a `tracestate` unless that cannot be a header.
pub open spec fn is_w3c(fields: Seq<(Seq<char>, Seq<u8>)>, ids: SpanIds) -> bool {
    &&& fields.len() <= 2
    &&& are_fields(fields)
    &&& fields.contains(("traceparent"@, ascii(traceparent(ids))))
    &&& forall|i: int|
        0 <= i < fields.len() ==> {
            ||| #[trigger] fields[i] == ("traceparent"@, ascii(traceparent(ids)))
            ||| fields[i].0 == "tracestate"@
        }
}

/// Whether `ids` are what the propagator of W3C `traceparent` can read from the headers:
/// the context they carry if it is valid, and none where they have no `traceparent`, or a
/// malformed one.
pub open spec fn reads(headers: Map<Seq<char>, Seq<Seq<u8>>>, ids: SpanIds) -> bool {
    &&& forall|carried: SpanIds| #[trigger]
        carries(headers, carried) ==> if carried.valid() {
            ids == carried
        } else {
            !ids.valid()
        }
    &&& !headers.contains_key("traceparent"@) ==> !ids.valid()
    &&& headers.contains_key("traceparent"@) && is_malformed(headers["traceparent"@][0])
        ==> !ids.valid()
}

/// Whether a value cannot be a `traceparent`: it has fewer than four pieces between its
/// dashes, or the first of them is no number in hexadecimal.
pub open spec fn is_malformed(value: Seq<u8>) -> bool {
    ||| dashes(value) < 3
    ||| exists|i: int|
        {
            &&& 0 <= i < value.len()
            &&& dashes(value.take(i + 1)) == 0
            &&& !may_stand_in_a_version(#[trigger] value[i])
        }
}

/// How many dashes a value holds.
pub open spec fn dashes(value: Seq<u8>) -> nat
    decreases value.len(),
{
    if value.len() == 0 {
        0
    } else {
        dashes(value.drop_last()) + if value.last() == 45 {
            1nat
        } else {
            0nat
        }
    }
}

/// A hexadecimal digit of either case, a plus sign, a space or a tab.
pub open spec fn may_stand_in_a_version(b: u8) -> bool {
    48 <= b <= 57 || 65 <= b <= 70 || 97 <= b <= 102 || b == 43 || b == 32 || b == 9
}

/// The propagator that an installation registers.
#[derive(Debug)]
pub struct W3cPropagator {
    handle: TraceContextPropagator,
}

/// `TraceContextPropagator::new`, of which there is nothing to claim.
#[verifier::external_body]
fn new_propagator() -> (r: TraceContextPropagator) {
    TraceContextPropagator::new()
}

/// `TraceContextPropagator::inject_context`, for a context that holds these ids and
/// no trace state, into headers of its own.
///
/// Claimed of it: a valid context is written as `traceparent`, next to an empty
/// `tracestate`, and an invalid one not at all.
#[verifier::external_body]
fn propagator_fields(propagator: &TraceContextPropagator, ids: &SpanIds) -> (r: Vec<
    (String, Vec<u8>),
>)
    ensures
        !ids.valid() ==> r@.len() == 0,
        ids.valid() ==> field_texts(r@).to_multiset() =~= written_fields(*ids).to_multiset(),
{
    let flags = TraceFlags::default().with_sampled(ids.sampled);
    let (trace, span) = (TraceId::from(ids.trace_id), SpanId::from(ids.span_id));
    let found = SpanContext::new(trace, span, flags, false, TraceState::NONE);
    let mut fields = HeaderMap::new();
    let context = Context::new().with_remote_span_context(found);
    propagator.inject_context(&context, &mut HeaderInjector(&mut fields));
    fields.iter().map(|(name, value)| (name.to_string(), value.as_bytes().to_vec())).collect()
}

/// What a propagator reads from the first value of `traceparent`; zeros where that
/// does not parse.
pub uninterp spec fn read_from(value: Seq<u8>) -> SpanIds;

/// `TraceContextPropagator::extract_with_context`, over an empty context.
///
/// Claimed of it: it reads back the ids of the `traceparent` of a valid context, and
/// none from headers without one, with a malformed one or with one of an id that is zero.
/// What it makes of any other `traceparent` depends on its first value alone.
#[verifier::external_body]
fn propagator_context(propagator: &TraceContextPropagator, headers: &HeaderMap<HeaderValue>) -> (r:
    SpanIds)
    ensures
        reads(header_values(*headers), r),
        header_values(*headers).contains_key("traceparent"@) ==> r == read_from(
            header_values(*headers)["traceparent"@][0],
        ),
{
    let context = propagator.extract_with_context(&Context::new(), &HeaderExtractor(headers));
    let span = context.span();
    let found = span.span_context();
    SpanIds {
        trace_id: u128::from_be_bytes(found.trace_id().to_bytes()),
        span_id: u64::from_be_bytes(found.span_id().to_bytes()),
        sampled: found.trace_flags().is_sampled(),
    }
}

impl W3cPropagator {
    /// The SDK's own propagator.
    pub closed spec fn handle(self) -> TraceContextPropagator {
        self.handle
    }

    /// The propagator.
    pub fn new() -> (r: Self) {
        W3cPropagator { handle: new_propagator() }
    }

    /// Makes this the propagator that [`inject_context`] and [`extract_context`] go
    /// through. For a process whose subscriber hands spans to a provider: one that exports
    /// nothing has no context to carry.
    pub fn register(self, subscription: &Subscription) -> (r: Registered)
        requires
            subscription.over() is Some,
        ensures
            r.propagator() == self.handle(),
    {
        register_propagator(self.handle, subscription)
    }

    /// Writes the context into `headers`: nothing at all when it is not valid. The
    /// answer is `false` when the headers have no room for it.
    pub fn inject(&self, ids: &SpanIds, headers: &mut HeaderMap<HeaderValue>) -> (all: bool)
        ensures
            !ids.valid() ==> all && *final(headers) == *old(headers),
            ids.valid() && all ==> carries(header_values(*final(headers)), *ids),
            has_room(header_values(*old(headers)), 2) ==> all,
            only_set(
                header_values(*old(headers)),
                header_values(*final(headers)),
                written_fields(*ids),
            ),
    {
        let fields = propagator_fields(&self.handle, ids);
        proof {
            if ids.valid() {
                lemma_traceparent_is_set(*ids, header_values(*headers), field_texts(fields@));
                lemma_set_by_same_fields(field_texts(fields@), written_fields(*ids));
            }
        }
        set_fields(&fields, headers)
    }

    /// Reads the context that the headers carry; `None` when they carry none.
    pub fn extract(&self, headers: &HeaderMap<HeaderValue>) -> (r: Option<SpanIds>)
        ensures
            forall|ids: SpanIds|
                ids.valid() && #[trigger] carries(header_values(*headers), ids) ==> r == Some(ids),
            !header_values(*headers).contains_key("traceparent"@) ==> r is None,
            header_values(*headers).contains_key("traceparent"@) && is_malformed(
                header_values(*headers)["traceparent"@][0],
            ) ==> r is None,
            header_values(*headers).contains_key("traceparent"@) ==> {
                let ids = read_from(header_values(*headers)["traceparent"@][0]);
                r == (if ids.valid() {
                    Some(ids)
                } else {
                    None
                })
            },
            r matches Some(ids) ==> ids.valid(),
    {
        let ids = propagator_context(&self.handle, headers);
        if ids.is_valid() {
            Some(ids)
        } else {
            None
        }
    }
}

proof fn lemma_set_by_same_fields(a: Seq<(Seq<char>, Seq<u8>)>, b: Seq<(Seq<char>, Seq<u8>)>)
    requires
        a.to_multiset() == b.to_multiset(),
    ensures
        forall|name: Seq<char>, values: Seq<Seq<u8>>| #[trigger]
            set_by(a, name, values) ==> set_by(b, name, values),
{
    broadcast use vstd::seq_lib::group_to_multiset_ensures;
    assert forall|name: Seq<char>, values: Seq<Seq<u8>>| #[trigger]
        set_by(a, name, values) implies set_by(b, name, values) by {
        let field = choose|field: (Seq<char>, Seq<u8>)| #[trigger]
            a.contains(field) && lower_case(field.0) == name && values == seq![field.1];
        assert(a.to_multiset().count(field) > 0);
        assert(b.contains(field));
    }
}

proof fn lemma_traceparent_is_set(
    ids: SpanIds,
    headers: Map<Seq<char>, Seq<Seq<u8>>>,
    fields: Seq<(Seq<char>, Seq<u8>)>,
)
    requires
        fields.to_multiset() == written_fields(ids).to_multiset(),
    ensures
        with_fields(headers, fields).contains_key("traceparent"@),
        with_fields(headers, fields)["traceparent"@] == seq![ascii(traceparent(ids))],
        fields.len() == 2,
        are_fields(fields),
{
    let parent = ("traceparent"@, ascii(traceparent(ids)));
    let state = ("tracestate"@, Seq::<u8>::empty());
    let written = written_fields(ids);
    broadcast use vstd::seq_lib::group_to_multiset_ensures;
    reveal_strlit("traceparent");
    reveal_strlit("tracestate");
    assert(lower_case("traceparent"@) =~= "traceparent"@);
    assert(lower_case("tracestate"@) =~= "tracestate"@);
    assert("traceparent"@.len() != "tracestate"@.len());
    assert(fields.len() == 2) by {
        assert(fields.len() == fields.to_multiset().len());
        assert(written.len() == written.to_multiset().len());
    }
    assert(written[0] == parent && written[1] == state);
    assert(fields.contains(parent)) by {
        assert(written.contains(parent));
        assert(written.to_multiset().count(parent) > 0);
    }
    assert(fields.contains(state)) by {
        assert(written.contains(state));
        assert(written.to_multiset().count(state) > 0);
    }
    reveal_with_fuel(with_fields, 3);
    assert(fields.drop_last().last() == fields[0]);
    assert(fields.last() == fields[1]);
    lemma_traceparent_is_printable(ids);
    assert(is_field(parent.0, parent.1));
    assert(is_field(state.0, state.1));
}

proof fn lemma_traceparent_is_printable(ids: SpanIds)
    ensures
        forall|i: int|
            0 <= i < ascii(traceparent(ids)).len() ==> 32 <= #[trigger] ascii(traceparent(ids))[i]
                <= 126,
{
    let text = traceparent(ids);
    lemma_hex_is_printable(ids.trace_id as nat, 32);
    lemma_hex_is_printable(ids.span_id as nat, 16);
    assert forall|i: int| 0 <= i < text.len() implies '-' <= #[trigger] text[i] <= 'f' by {
        if 3 <= i < 35 {
            assert(text[i] == hex(ids.trace_id as nat, 32)[i - 3]);
        } else if 36 <= i < 52 {
            assert(text[i] == hex(ids.span_id as nat, 16)[i - 36]);
        }
    }
    assert forall|i: int| 0 <= i < ascii(text).len() implies 32 <= #[trigger] ascii(text)[i]
        <= 126 by {
        assert('-' <= text[i] <= 'f');
    }
}

proof fn lemma_hex_is_printable(n: nat, width: nat)
    ensures
        hex(n, width).len() == width,
        forall|i: int| 0 <= i < width ==> '-' <= #[trigger] hex(n, width)[i] <= 'f',
    decreases width,
{
    if width > 0 {
        reveal_strlit("0123456789abcdef");
        lemma_hex_is_printable(n / 16, (width - 1) as nat);
        assert('-' <= hex_digit((n % 16) as int) <= 'f');
    }
}

proof fn lemma_w3c_fields(
    ids: SpanIds,
    before: Map<Seq<char>, Seq<Seq<u8>>>,
    after: Map<Seq<char>, Seq<Seq<u8>>>,
    fields: Seq<(Seq<char>, Seq<u8>)>,
)
    requires
        is_w3c(fields, ids),
        only_set(before, after, fields),
    ensures
        others_are_kept(before, after),
        carries(with_fields(before, fields), ids),
{
    reveal_strlit("traceparent");
    reveal_strlit("tracestate");
    assert(lower_case("traceparent"@) =~= "traceparent"@);
    assert(lower_case("tracestate"@) =~= "tracestate"@);
    assert("traceparent"@.len() != "tracestate"@.len());
    assert forall|name: Seq<char>| name != "traceparent"@ && name != "tracestate"@ implies {
        &&& before.contains_key(name) == #[trigger] after.contains_key(name)
        &&& after.contains_key(name) ==> after[name] == before[name]
    } by {
        if after.contains_key(name) && set_by(fields, name, after[name]) {
            let field = choose|field: (Seq<char>, Seq<u8>)| #[trigger]
                fields.contains(field) && lower_case(field.0) == name && after[name] == seq![
                    field.1,
                ];
            let i = choose|i: int| 0 <= i < fields.len() && fields[i] == field;
            assert(fields[i].0 == "traceparent"@ || fields[i].0 == "tracestate"@);
        }
    }
    let parent = ("traceparent"@, ascii(traceparent(ids)));
    let at = choose|i: int| 0 <= i < fields.len() && fields[i] == parent;
    reveal_with_fuel(with_fields, 3);
    if fields.len() == 2 {
        assert(fields.drop_last().last() == fields[0]);
        assert(fields.last() == fields[1]);
    } else {
        assert(fields.last() == fields[0]);
    }
}

/// Two services, one trace: what one service writes into the headers of a request, the
/// next one reads from them and adopts, where the propagator of W3C `traceparent` is the
/// registered one in both.
pub proof fn law_two_services_one_trace(
    found: Found,
    before: HeaderMap<HeaderValue>,
    after: HeaderMap<HeaderValue>,
    injected: Injected,
    all: bool,
    offered: Offered,
    adopted: Option<TraceContext>,
)
    requires
        injects(found.context(), before, after, Some((injected, all))),
        extracts(header_values(after), offered, adopted),
        injected.by_w3c(),
        offered.by_w3c(),
        all || has_room(header_values(before), 2),
    ensures
        adopted matches Some(context) && context.known_by() == span_in(found.context()),
{
}

/// A request that carries no valid context is the root of a trace: nothing is adopted
/// where it has no `traceparent`, a malformed one, or one with an id that is zero, where
/// the propagator of W3C `traceparent` is the registered one.
pub proof fn law_what_does_not_parse_is_not_adopted(
    headers: Map<Seq<char>, Seq<Seq<u8>>>,
    offered: Offered,
    adopted: Option<TraceContext>,
)
    requires
        extracts(headers, offered, adopted),
        offered.by_w3c(),
        ({
            ||| !headers.contains_key("traceparent"@)
            ||| is_malformed(headers["traceparent"@][0])
            ||| exists|ids: SpanIds| !ids.valid() && #[trigger] carries(headers, ids)
        }),
    ensures
        adopted is None,
{
}

/// The id that is shown for the current trace is the one on the wire: 32 lower case
/// hexadecimal characters, not all zero, and what stands there in the `traceparent` that is
/// written of the same context. It is shown if and only if a context is written.
pub proof fn law_the_trace_id_is_the_one_on_the_wire(
    asked: Found,
    text: Option<String>,
    found: Found,
    before: HeaderMap<HeaderValue>,
    after: HeaderMap<HeaderValue>,
    injected: Option<(Injected, bool)>,
)
    requires
        shows(asked.context(), text),
        injects(found.context(), before, after, injected),
        found.context() == asked.context(),
    ensures
        text is Some <==> injected is Some,
        text matches Some(shown) ==> {
            &&& shown@.len() == 32
            &&& forall|i: int| 0 <= i < 32 ==> is_hex(#[trigger] shown@[i])
            &&& exists|i: int| 0 <= i < 32 && #[trigger] shown@[i] != '0'
        },
        text is Some && injected is Some && injected->Some_0.0.by_w3c() && injected->Some_0.1 ==> {
            let values = header_values(after)["traceparent"@];
            &&& header_values(after).contains_key("traceparent"@)
            &&& values.len() == 1
            &&& values[0].subrange(3, 35) == ascii(text->Some_0@)
        },
{
    if text is Some {
        let ids = span_in(asked.context());
        let shown = text->Some_0@;
        lemma_hex_is_printable(ids.trace_id as nat, 32);
        lemma_hex_is_hex(ids.trace_id as nat, 32);
        if forall|i: int| 0 <= i < 32 ==> #[trigger] shown[i] == '0' {
            lemma_zeros(32);
            assert(shown =~= hex(0, 32));
            lemma_powers_of_sixteen();
            lemma_hex_is_injective(ids.trace_id as nat, 0, 32);
        }
        assert(ascii(traceparent(ids)).subrange(3, 35) =~= ascii(shown));
    }
}

/// A lower case hexadecimal digit.
pub open spec fn is_hex(c: char) -> bool {
    '0' <= c <= '9' || 'a' <= c <= 'f'
}

proof fn lemma_hex_is_hex(n: nat, width: nat)
    ensures
        hex(n, width).len() == width,
        forall|i: int| 0 <= i < width ==> is_hex(#[trigger] hex(n, width)[i]),
    decreases width,
{
    if width > 0 {
        reveal_strlit("0123456789abcdef");
        lemma_hex_is_hex(n / 16, (width - 1) as nat);
        assert(is_hex(hex_digit((n % 16) as int)));
    }
}

proof fn lemma_zeros(width: nat)
    ensures
        hex(0, width).len() == width,
        forall|i: int| 0 <= i < width ==> #[trigger] hex(0, width)[i] == '0',
    decreases width,
{
    if width > 0 {
        reveal_strlit("0123456789abcdef");
        lemma_zeros((width - 1) as nat);
        assert(0nat / 16 == 0);
    }
}

/// A `traceparent` names one context: what one service writes, the next can only read
/// as that.
#[verifier::spinoff_prover]
pub proof fn law_a_traceparent_names_one_context(a: SpanIds, b: SpanIds)
    requires
        traceparent(a) == traceparent(b),
    ensures
        a == b,
{
    lemma_hex_is_printable(a.trace_id as nat, 32);
    lemma_hex_is_printable(b.trace_id as nat, 32);
    lemma_hex_is_printable(a.span_id as nat, 16);
    lemma_hex_is_printable(b.span_id as nat, 16);
    let t = traceparent(a);
    assert(hex(a.trace_id as nat, 32) =~= t.subrange(3, 35));
    assert(hex(b.trace_id as nat, 32) =~= traceparent(b).subrange(3, 35));
    assert(hex(a.span_id as nat, 16) =~= t.subrange(36, 52));
    assert(hex(b.span_id as nat, 16) =~= traceparent(b).subrange(36, 52));
    lemma_sampled_shows(a);
    lemma_sampled_shows(b);
    lemma_powers_of_sixteen();
    lemma_hex_is_injective(a.trace_id as nat, b.trace_id as nat, 32);
    lemma_hex_is_injective(a.span_id as nat, b.span_id as nat, 16);
}

proof fn lemma_sampled_shows(ids: SpanIds)
    ensures
        traceparent(ids).len() == 55,
        ids.sampled == (traceparent(ids)[54] == '1'),
{
    lemma_hex_is_printable(ids.trace_id as nat, 32);
    lemma_hex_is_printable(ids.span_id as nat, 16);
}

proof fn lemma_powers_of_sixteen()
    ensures
        vstd::arithmetic::power::pow(16, 16) == 0x1_0000_0000_0000_0000,
        vstd::arithmetic::power::pow(16, 32) == 0x1_0000_0000_0000_0000_0000_0000_0000_0000,
{
    reveal_with_fuel(vstd::arithmetic::power::pow, 5);
    assert(vstd::arithmetic::power::pow(16, 4) == 0x1_0000);
    vstd::arithmetic::power::lemma_pow_adds(16, 4, 4);
    vstd::arithmetic::power::lemma_pow_adds(16, 8, 8);
    vstd::arithmetic::power::lemma_pow_adds(16, 16, 16);
    assert(vstd::arithmetic::power::pow(16, 8) == 0x1_0000 * 0x1_0000);
    assert(vstd::arithmetic::power::pow(16, 16) == 0x1_0000_0000 * 0x1_0000_0000);
    assert(vstd::arithmetic::power::pow(16, 32) == 0x1_0000_0000_0000_0000
        * 0x1_0000_0000_0000_0000);
}

proof fn lemma_hex_is_injective(a: nat, b: nat, width: nat)
    requires
        hex(a, width) == hex(b, width),
        a < vstd::arithmetic::power::pow(16, width),
        b < vstd::arithmetic::power::pow(16, width),
    ensures
        a == b,
    decreases width,
{
    reveal(vstd::arithmetic::power::pow);
    if width > 0 {
        reveal_strlit("0123456789abcdef");
        let p = (width - 1) as nat;
        assert(hex(a, width).drop_last() =~= hex(a / 16, p));
        assert(hex(b, width).drop_last() =~= hex(b / 16, p));
        assert(hex(a, width).last() == hex_digit((a % 16) as int));
        assert(hex(b, width).last() == hex_digit((b % 16) as int));
        assert(vstd::arithmetic::power::pow(16, width) == 16 * vstd::arithmetic::power::pow(16, p));
        lemma_hex_is_injective(a / 16, b / 16, p);
        assert(a % 16 == b % 16);
    }
}

/// A number is written in hexadecimal digit by digit, the highest first: the digit at `i`
/// is the one of that power of sixteen.
pub proof fn law_hexadecimal_shows_every_digit(n: nat, width: nat, i: int)
    requires
        0 <= i < width,
    ensures
        hex(n, width).len() == width,
        ({
            let d = (n as int / vstd::arithmetic::power::pow(16, (width - 1 - i) as nat)) % 16;
            hex(n, width)[i] as int == (if d < 10 {
                '0' as int + d
            } else {
                'a' as int + d - 10
            })
        }),
    decreases width,
{
    reveal(vstd::arithmetic::power::pow);
    reveal_strlit("0123456789abcdef");
    lemma_hex_is_hex(n, width);
    let p = (width - 1) as nat;
    if i == p {
        assert(vstd::arithmetic::power::pow(16, 0) == 1);
        assert(hex(n, width)[i] == hex_digit((n % 16) as int));
    } else {
        law_hexadecimal_shows_every_digit(n / 16, p, i);
        let k = (p - 1 - i) as nat;
        vstd::arithmetic::power::lemma_pow_positive(16, k);
        vstd::arithmetic::div_mod::lemma_div_denominator(
            n as int,
            16,
            vstd::arithmetic::power::pow(16, k),
        );
        assert(vstd::arithmetic::power::pow(16, (k + 1) as nat) == 16
            * vstd::arithmetic::power::pow(16, k));
        lemma_hex_is_hex(n / 16, p);
        assert(hex(n, width)[i] == hex(n / 16, p)[i]);
    }
}

/// A `traceparent` has four parts between its dashes: the version, the trace, the span and
/// whether the trace is recorded.
pub proof fn law_a_traceparent_has_four_parts(ids: SpanIds)
    ensures
        pieces(traceparent(ids), '-') == seq![
            seq!['0', '0'],
            hex(ids.trace_id as nat, 32),
            hex(ids.span_id as nat, 16),
            if ids.sampled {
                seq!['0', '1']
            } else {
                seq!['0', '0']
            },
        ],
        ids.valid() <==> ids.trace_id != 0 && ids.span_id != 0,
{
    let version = seq!['0', '0'];
    let trace = hex(ids.trace_id as nat, 32);
    let span = hex(ids.span_id as nat, 16);
    let flags = if ids.sampled {
        seq!['0', '1']
    } else {
        seq!['0', '0']
    };
    lemma_hex_is_hex(ids.trace_id as nat, 32);
    lemma_hex_is_hex(ids.span_id as nat, 16);
    assert forall|i: int| 0 <= i < trace.len() implies trace[i] != '-' by {
        assert(is_hex(trace[i]));
    }
    assert forall|i: int| 0 <= i < span.len() implies span[i] != '-' by {
        assert(is_hex(span[i]));
    }
    lemma_one_piece(version, '-');
    lemma_one_piece(trace, '-');
    lemma_one_piece(span, '-');
    lemma_one_piece(flags, '-');
    lemma_pieces_of_join(version, trace, '-');
    let two = version + seq!['-'] + trace;
    lemma_pieces_of_join(two, span, '-');
    let three = two + seq!['-'] + span;
    lemma_pieces_of_join(three, flags, '-');
    assert(traceparent(ids) =~= three + seq!['-'] + flags);
    assert(pieces(traceparent(ids), '-') =~= seq![version, trace, span, flags]);
}

/// Names are kept in lower case: capitals of ASCII as small letters, anything else as it is.
pub proof fn law_names_are_kept_in_lower_case(name: Seq<char>, i: int)
    requires
        0 <= i < name.len(),
    ensures
        lower_case(name).len() == name.len(),
        'A' <= name[i] <= 'Z' ==> lower_case(name)[i] as int == name[i] as int + 32,
        !('A' <= name[i] <= 'Z') ==> lower_case(name)[i] == name[i],
{
}

/// Of fields set one after the other, the last one of a name decides, and it alone: the
/// header has that one value. A header that no field names is left as it was.
pub proof fn law_the_last_field_of_a_name_decides(
    headers: Map<Seq<char>, Seq<Seq<u8>>>,
    front: Seq<(Seq<char>, Seq<u8>)>,
    name: Seq<char>,
    value: Seq<u8>,
    back: Seq<(Seq<char>, Seq<u8>)>,
)
    requires
        forall|i: int|
            0 <= i < back.len() ==> lower_case((#[trigger] back[i]).0) != lower_case(name),
    ensures
        with_fields(headers, front + seq![(name, value)] + back).contains_key(lower_case(name)),
        with_fields(headers, front + seq![(name, value)] + back)[lower_case(name)] == seq![value],
        with_fields(headers, back).contains_key(lower_case(name)) == headers.contains_key(
            lower_case(name),
        ),
        headers.contains_key(lower_case(name)) ==> with_fields(headers, back)[lower_case(name)]
            == headers[lower_case(name)],
    decreases back.len(),
{
    let all = front + seq![(name, value)] + back;
    if back.len() == 0 {
        assert(all.drop_last() =~= front);
        assert(all.last() == (name, value));
    } else {
        let less = back.drop_last();
        assert forall|i: int| 0 <= i < less.len() implies lower_case((#[trigger] less[i]).0)
            != lower_case(name) by {
            assert(less[i] == back[i]);
        }
        law_the_last_field_of_a_name_decides(headers, front, name, value, less);
        assert(all.drop_last() =~= front + seq![(name, value)] + less);
        assert(all.last() == back.last());
        assert(lower_case(back[back.len() - 1].0) != lower_case(name));
    }
}

/// Only a valid context is written, and of W3C all of it where there is room: the
/// `traceparent` spells it, in one value, and every header but that and `tracestate` is as
/// it was. An invalid one changes nothing.
pub proof fn law_only_a_valid_context_is_written(
    context: Context,
    before: HeaderMap<HeaderValue>,
    after: HeaderMap<HeaderValue>,
    injected: Option<(Injected, bool)>,
    name: Seq<char>,
)
    requires
        injects(context, before, after, injected),
    ensures
        injected is Some <==> span_in(context).trace_id != 0 && span_in(context).span_id != 0,
        injected is None ==> after == before,
        injected is Some ==> injected->Some_0.0.context() == context,
        injected is Some && injected->Some_0.0.by_w3c() && header_values(before).dom().finite()
            && header_values(before).dom().len() + 2 <= 6554 ==> {
            &&& injected->Some_0.1
            &&& header_values(after).contains_key("traceparent"@)
            &&& header_values(after)["traceparent"@].len() == 1
            &&& header_values(after)["traceparent"@][0].len() == 55
            &&& forall|i: int|
                0 <= i < 55 ==> #[trigger] header_values(after)["traceparent"@][0][i] as int
                    == traceparent(span_in(context))[i] as int
        },
        injected is Some && injected->Some_0.0.by_w3c() && name != "traceparent"@ && name
            != "tracestate"@ ==> {
            &&& header_values(after).contains_key(name) == header_values(before).contains_key(name)
            &&& header_values(before).contains_key(name) ==> header_values(after)[name]
                == header_values(before)[name]
        },
{
    let ids = span_in(context);
    lemma_sampled_shows(ids);
    let text = traceparent(ids);
    lemma_traceparent_is_printable(ids);
    lemma_traceparent_is_ascii(ids);
    assert(ascii(text).len() == 55);
}

proof fn lemma_traceparent_is_ascii(ids: SpanIds)
    ensures
        forall|i: int|
            0 <= i < traceparent(ids).len() ==> #[trigger] ascii(traceparent(ids))[i] as int
                == traceparent(ids)[i] as int,
{
    let text = traceparent(ids);
    lemma_hex_is_printable(ids.trace_id as nat, 32);
    lemma_hex_is_printable(ids.span_id as nat, 16);
    assert forall|i: int| 0 <= i < text.len() implies #[trigger] ascii(text)[i] as int
        == text[i] as int by {
        if 3 <= i < 35 {
            assert(text[i] == hex(ids.trace_id as nat, 32)[i - 3]);
        } else if 36 <= i < 52 {
            assert(text[i] == hex(ids.span_id as nat, 16)[i - 36]);
        }
        assert('-' <= text[i] <= 'f');
    }
}

/// A context is adopted if and only if neither of its ids is zero, and then as it was read.
pub proof fn law_what_is_adopted_is_what_was_read(
    headers: Map<Seq<char>, Seq<Seq<u8>>>,
    offered: Offered,
    adopted: Option<TraceContext>,
)
    requires
        extracts(headers, offered, adopted),
    ensures
        offered.headers() == headers,
        adopted is Some <==> span_in(offered.context()).trace_id != 0 && span_in(
            offered.context(),
        ).span_id != 0,
        adopted is Some ==> adopted->Some_0.known_by() == span_in(offered.context()),
        adopted is Some ==> adopted->Some_0.carried() == offered.context(),
{
}

/// There is room for two more names up to 6552, for one more up to 6553, and so on.
pub proof fn law_room_is_counted_in_names(
    headers: Map<Seq<char>, Seq<Seq<u8>>>,
    more: nat,
)
    requires
        headers.dom().finite(),
    ensures
        has_room(headers, more) <==> headers.dom().len() <= 6554 - more,
{
}

} // verus!
