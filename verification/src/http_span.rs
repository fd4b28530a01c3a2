//! The span an HTTP request gets: its name, its fields and its status.

use http::{HeaderMap, HeaderValue};
use vstd::prelude::*;

use crate::context::Offered;
use crate::number::is_digit;
use crate::propagate::{extract_context, extracts, header_values, TraceContext};
use crate::text::{
    characters, find, first_index, lemma_first_index_unique, lemma_one_piece,
    lemma_pieces_hold_no_separator, lemma_pieces_of_join, pieces, split, texts,
};

verus! {

/// The part of a path segment before its first dot: what is left of a file name
/// once the extension is cut.
pub open spec fn stem(segment: Seq<char>) -> Seq<char> {
    segment.take(first_index(segment, '.'))
}

/// An ASCII hexadecimal digit of either case, or one of the two characters that
/// group them.
pub open spec fn is_hexish(c: char) -> bool {
    is_digit(c) || 'a' <= c <= 'f' || 'A' <= c <= 'F' || c == '-' || c == '_'
}

/// The shortest hexadecimal token that is read as an identifier and not as a word.
pub const TOKEN_LENGTH: usize = 16;

/// Whether a path segment names one row rather than one kind of thing: a serial
/// number, or a token of hexadecimal digits long enough not to be a word.
pub open spec fn names_one_row(segment: Seq<char>) -> bool {
    let s = stem(segment);
    &&& s.len() > 0
    &&& {
        ||| forall|i: int| 0 <= i < s.len() ==> is_digit(#[trigger] s[i])
        ||| s.len() >= TOKEN_LENGTH && forall|i: int| 0 <= i < s.len() ==> is_hexish(#[trigger] s[i])
    }
}

/// What stands in a span name for a path segment.
pub open spec fn segment_name(segment: Seq<char>) -> Seq<char> {
    if names_one_row(segment) {
        seq!['{', 'i', 'd', '}']
    } else {
        segment
    }
}

/// The segments that are not empty, each behind a slash and by its name.
pub open spec fn template(segments: Seq<Seq<char>>) -> Seq<char>
    decreases segments.len(),
{
    if segments.len() == 0 {
        Seq::empty()
    } else if segments.last().len() == 0 {
        template(segments.drop_last())
    } else {
        template(segments.drop_last()) + seq!['/'] + segment_name(segments.last())
    }
}

/// The path as a span name shows it: the root, where no segment is shown.
pub open spec fn shown(path: Seq<char>) -> Seq<char> {
    let named = template(pieces(path, '/'));
    if named.len() == 0 {
        seq!['/']
    } else {
        named
    }
}

/// The name of the span for a request: `METHOD /path/with/{id}/replaced`.
pub open spec fn operation(method: Seq<char>, path: Seq<char>) -> Seq<char> {
    method + seq![' '] + shown(path)
}

/// Whether a path segment names one row rather than one kind of thing.
pub fn is_identifier(segment: &str) -> (r: bool)
    ensures
        r == names_one_row(segment@),
{
    let cs = characters(segment);
    let end: usize = match find(segment, '.') {
        Some(i) => i,
        None => cs.len(),
    };
    let ghost s = stem(segment@);
    if end == 0 {
        return false;
    }
    let mut digits = true;
    let mut hexish = true;
    let mut i: usize = 0;
    while i < end
        invariant
            cs@ == segment@,
            end <= cs.len(),
            s == segment@.take(end as int),
            i <= end,
            digits == (forall|j: int| 0 <= j < i ==> is_digit(#[trigger] s[j])),
            hexish == (forall|j: int| 0 <= j < i ==> is_hexish(#[trigger] s[j])),
        decreases end - i,
    {
        let c = cs[i];
        assert(s[i as int] == c);
        let digit = '0' <= c && c <= '9';
        let hex = digit || ('a' <= c && c <= 'f') || ('A' <= c && c <= 'F') || c == '-' || c == '_';
        digits = digits && digit;
        hexish = hexish && hex;
        i += 1;
    }
    digits || (hexish && end >= TOKEN_LENGTH)
}

/// `METHOD /path/with/{id}/replaced`, the span's name.
///
/// Three shapes of identifier are recognised, which between them cover what a
/// REST path carries: a serial id (`/expenses/412`), a uuid, and an opaque token,
/// also with a file extension (`/<token>.pdf`). A short word that happens to be
/// hexadecimal is a word: `dec0de` survives.
pub fn operation_name(method: &str, path: &str) -> (name: String)
    ensures
        name@ == operation(method@, path@),
{
    proof {
        reveal_strlit(" ");
        reveal_strlit("/");
        reveal_strlit("{id}");
        assert("{id}"@ =~= seq!['{', 'i', 'd', '}']);
    }
    let mut out = method.to_owned();
    out.append(" ");
    let ghost head = method@ + seq![' '];
    assert(out@ =~= head);
    let segments = split(path, '/');
    let mut i: usize = 0;
    let mut bare = true;
    let ghost all = texts(segments@);
    assert(all.take(0) =~= Seq::<Seq<char>>::empty());
    assert(out@ =~= head + template(all.take(0)));
    while i < segments.len()
        invariant
            all == texts(segments@),
            i <= segments.len(),
            out@ == head + template(all.take(i as int)),
            bare == (template(all.take(i as int)).len() == 0),
            "/"@ == seq!['/'],
            "{id}"@ == seq!['{', 'i', 'd', '}'],
        decreases segments.len() - i,
    {
        let segment = segments[i];
        let ghost before = out@;
        assert(all.take(i + 1).drop_last() =~= all.take(i as int));
        assert(all.take(i + 1).last() == segment@);
        let n = segment.unicode_len();
        if n > 0 {
            out.append("/");
            if is_identifier(segment) {
                out.append("{id}");
            } else {
                out.append(segment);
            }
            bare = false;
            assert(out@ =~= before + (seq!['/'] + segment_name(segment@)));
            assert(out@ =~= head + template(all.take(i + 1)));
        }
        i += 1;
    }
    assert(all.take(all.len() as int) =~= all);
    if bare {
        out.append("/");
    }
    assert(out@ =~= operation(method@, path@));
    out
}

/// Builds the server span for each request.
#[derive(Clone, Copy, Debug)]
pub struct HttpSpan {
    /// Whether the trace context that a request brings is adopted.
    pub adopt_inbound_context: bool,
    /// Whether identifiers in the path are replaced in the span's name.
    pub normalize_names: bool,
    /// Whether the query string is recorded.
    pub record_query: bool,
}

impl Default for HttpSpan {
    fn default() -> (r: Self)
        ensures
            r.adopt_inbound_context,
            r.normalize_names,
            !r.record_query,
    {
        HttpSpan::new()
    }
}

/// What the span of a request holds when it is made.
#[derive(Debug)]
pub struct ServerSpan {
    /// The span's name.
    pub name: String,
    /// `http.request.method`.
    pub method: String,
    /// `url.path`.
    pub path: String,
    /// `url.query`.
    pub query: Option<String>,
    /// The context the span is a child of; a root span has none.
    pub parent: Option<TraceContext>,
}

impl HttpSpan {
    /// Adopts an inbound `traceparent`, normalizes span names, and leaves the query
    /// string off the span.
    pub fn new() -> (r: Self)
        ensures
            r.adopt_inbound_context,
            r.normalize_names,
            !r.record_query,
    {
        HttpSpan { adopt_inbound_context: true, normalize_names: true, record_query: false }
    }

    /// Ignores `traceparent` on incoming requests: every request starts a new trace.
    ///
    /// For a service on the open internet: an inbound header is controlled by whoever
    /// sends it, and adopting it lets them choose which trace their request lands in.
    pub fn without_inbound_context(self) -> (r: Self)
        ensures
            r == (HttpSpan { adopt_inbound_context: false, ..self }),
    {
        HttpSpan { adopt_inbound_context: false, ..self }
    }

    /// Uses the request path in the span name, identifiers and all.
    ///
    /// The default replaces them ([`operation_name`]). Turn it off when the paths are
    /// already templates.
    pub fn with_raw_span_names(self) -> (r: Self)
        ensures
            r == (HttpSpan { normalize_names: false, ..self }),
    {
        HttpSpan { normalize_names: false, ..self }
    }

    /// Records the query string as `url.query`.
    ///
    /// Off by default: a path addresses a resource; a query string carries values
    /// somebody typed, sometimes a token.
    pub fn with_query(self) -> (r: Self)
        ensures
            r == (HttpSpan { record_query: true, ..self }),
    {
        HttpSpan { record_query: true, ..self }
    }

    /// The name of the span for a request.
    pub open spec fn span_name(self, method: Seq<char>, path: Seq<char>) -> Seq<char> {
        if self.normalize_names {
            operation(method, path)
        } else {
            method + seq![' '] + path
        }
    }

    /// Whether `span` says of a request what it should, its parent left aside.
    pub open spec fn describes(
        self,
        method: Seq<char>,
        path: Seq<char>,
        query: Option<&str>,
        span: ServerSpan,
    ) -> bool {
        &&& span.name@ == self.span_name(method, path)
        &&& span.method@ == method
        &&& span.path@ == path
        &&& match (query, span.query) {
            (Some(given), Some(recorded)) => self.record_query && recorded@ == given@,
            (Some(_), None) => !self.record_query,
            (None, recorded) => recorded is None,
        }
    }

    /// The span of a request that brought the context `inbound`.
    pub fn describe(
        &self,
        method: &str,
        path: &str,
        query: Option<&str>,
        inbound: Option<TraceContext>,
    ) -> (r: ServerSpan)
        ensures
            self.describes(method@, path@, query, r),
            r.parent == (if self.adopt_inbound_context {
                inbound
            } else {
                None
            }),
    {
        let name = if self.normalize_names {
            operation_name(method, path)
        } else {
            let mut out = method.to_owned();
            out.append(" ");
            out.append(path);
            proof {
                reveal_strlit(" ");
                assert(" "@ =~= seq![' ']);
            }
            out
        };
        let recorded = match query {
            Some(given) => if self.record_query {
                Some(given.to_owned())
            } else {
                None
            },
            None => None,
        };
        ServerSpan {
            name,
            method: method.to_owned(),
            path: path.to_owned(),
            query: recorded,
            parent: if self.adopt_inbound_context {
                inbound
            } else {
                None
            },
        }
    }

    /// The span of a request, a child of the context its headers carry when that is
    /// adopted and valid. What was read from the headers comes with it, when they were
    /// asked.
    pub fn make_span(
        &self,
        method: &str,
        path: &str,
        query: Option<&str>,
        headers: &HeaderMap<HeaderValue>,
    ) -> (r: (ServerSpan, Option<Offered>))
        ensures
            self.describes(method@, path@, query, r.0),
            match r.1 {
                Some(offered) => {
                    &&& self.adopt_inbound_context
                    &&& extracts(header_values(*headers), offered, r.0.parent)
                },
                None => !self.adopt_inbound_context && r.0.parent is None,
            },
    {
        if self.adopt_inbound_context {
            let (offered, inbound) = extract_context(headers);
            (self.describe(method, path, query, inbound), Some(offered))
        } else {
            (self.describe(method, path, query, None), None)
        }
    }
}

/// Records the status on the span once the response is ready.
#[derive(Clone, Copy, Debug, Default)]
pub struct HttpStatus;

/// What the span of a request holds once the response is ready.
#[derive(Debug)]
pub struct Outcome {
    /// `http.response.status_code`.
    pub status_code: u16,
    /// `otel.status_code`.
    pub otel_status_code: Option<String>,
    /// How long the response took, in whole milliseconds.
    pub latency_ms: u64,
}

/// Whether a status code says that the server failed.
pub open spec fn is_server_error(status: u16) -> bool {
    500 <= status <= 599
}

impl HttpStatus {
    /// What is recorded of a response that took `latency` nanoseconds.
    ///
    /// Only 5xx marks the span as failed. A 401 or a 404 is a service answering
    /// correctly.
    pub fn on_response(self, status: u16, latency: u128) -> (r: Outcome)
        ensures
            r.status_code == status,
            match r.otel_status_code {
                Some(text) => is_server_error(status) && text@ == "ERROR"@,
                None => !is_server_error(status),
            },
            r.latency_ms == (latency as int / 1_000_000) % 0x1_0000_0000_0000_0000,
    {
        let millis: u128 = latency / 1_000_000;
        let latency_ms: u64 = (millis % 0x1_0000_0000_0000_0000) as u64;
        Outcome {
            status_code: status,
            otel_status_code: if 500 <= status && status <= 599 {
                Some("ERROR".to_owned())
            } else {
                None
            },
            latency_ms,
        }
    }
}

/// The segments that are not empty.
pub open spec fn kept(segments: Seq<Seq<char>>) -> Seq<Seq<char>> {
    segments.filter(|s: Seq<char>| s.len() > 0)
}

/// The names of the segments that are not empty.
pub open spec fn segment_names(segments: Seq<Seq<char>>) -> Seq<Seq<char>>
    decreases segments.len(),
{
    if segments.len() == 0 {
        Seq::empty()
    } else if segments.last().len() == 0 {
        segment_names(segments.drop_last())
    } else {
        segment_names(segments.drop_last()).push(segment_name(segments.last()))
    }
}

/// The path that a span name shows: what stands behind the method and the space.
pub open spec fn named_path(method: Seq<char>, path: Seq<char>) -> Seq<char> {
    operation(method, path).skip(method.len() as int + 1)
}

proof fn lemma_placeholder_is_no_identifier()
    ensures
        !names_one_row(seq!['{', 'i', 'd', '}']),
{
    let id = seq!['{', 'i', 'd', '}'];
    lemma_first_index_unique(id, '.', 4);
    assert(id.take(4) =~= id);
    assert(!is_hexish(stem(id)[0]));
}

proof fn lemma_template_is_by_names(a: Seq<Seq<char>>, b: Seq<Seq<char>>)
    requires
        segment_names(a) == segment_names(b),
    ensures
        template(a) == template(b),
    decreases a.len() + b.len(),
{
    if a.len() > 0 && a.last().len() == 0 {
        lemma_template_is_by_names(a.drop_last(), b);
    } else if b.len() > 0 && b.last().len() == 0 {
        lemma_template_is_by_names(a, b.drop_last());
    } else if a.len() > 0 && b.len() > 0 {
        let na = segment_names(a.drop_last());
        let nb = segment_names(b.drop_last());
        assert(segment_names(a).drop_last() =~= na);
        assert(segment_names(b).drop_last() =~= nb);
        assert(segment_names(a).last() == segment_name(a.last()));
        assert(segment_names(b).last() == segment_name(b.last()));
        lemma_template_is_by_names(a.drop_last(), b.drop_last());
    } else if a.len() > 0 {
        assert(segment_names(a).len() > 0);
    } else if b.len() > 0 {
        assert(segment_names(b).len() > 0);
    }
}

/// A template's segments are the names it was made of, and naming them again
/// changes nothing.
proof fn lemma_template_again(segments: Seq<Seq<char>>)
    requires
        forall|i: int, j: int|
            0 <= i < segments.len() && 0 <= j < segments[i].len() ==> #[trigger] segments[i][j]
                != '/',
    ensures
        pieces(template(segments), '/') == seq![Seq::<char>::empty()] + segment_names(segments),
        segment_names(pieces(template(segments), '/')) == segment_names(segments),
    decreases segments.len(),
{
    let none = Seq::<char>::empty();
    if segments.len() == 0 {
        lemma_one_piece(none, '/');
        assert(pieces(none, '/') =~= seq![none] + segment_names(segments));
        assert(seq![none].drop_last() =~= Seq::<Seq<char>>::empty());
        assert(segment_names(seq![none]) =~= segment_names(seq![none].drop_last()));
    } else {
        let front = segments.drop_last();
        let last = segments.last();
        assert forall|i: int, j: int| 0 <= i < front.len() && 0 <= j < front[i].len() implies
            #[trigger] front[i][j] != '/' by {
            assert(front[i][j] == segments[i][j]);
        }
        lemma_template_again(front);
        if last.len() > 0 {
            let name = segment_name(last);
            lemma_placeholder_is_no_identifier();
            assert(segment_name(name) == name);
            assert forall|j: int| 0 <= j < name.len() implies name[j] != '/' by {
                if !names_one_row(last) {
                    assert(segments[segments.len() - 1][j] != '/');
                }
            }
            lemma_one_piece(name, '/');
            lemma_pieces_of_join(template(front), name, '/');
            let again = pieces(template(segments), '/');
            assert(again =~= seq![none] + segment_names(segments));
            assert(again.drop_last() =~= pieces(template(front), '/'));
            assert(again.last() == name);
            assert(segment_names(again) =~= segment_names(segments));
        }
    }
}

/// A name starts with the method, a space and a slash, whatever the path: the
/// root is a path too.
pub proof fn law_a_name_is_a_method_and_a_path(method: Seq<char>, path: Seq<char>)
    ensures
        operation(method, path).len() >= method.len() + 2,
        operation(method, path).take(method.len() as int) == method,
        operation(method, path)[method.len() as int] == ' ',
        named_path(method, path)[0] == '/',
{
    lemma_template_starts_with_a_slash(pieces(path, '/'));
    assert(operation(method, path).take(method.len() as int) =~= method);
}

proof fn lemma_template_starts_with_a_slash(segments: Seq<Seq<char>>)
    ensures
        template(segments).len() > 0 ==> template(segments)[0] == '/',
    decreases segments.len(),
{
    if segments.len() > 0 {
        lemma_template_starts_with_a_slash(segments.drop_last());
    }
}

/// Two paths whose segments differ only where both name one row have one name:
/// an operation is one row of a backend's list, however many rows it was asked for.
pub proof fn law_identifiers_do_not_show(method: Seq<char>, a: Seq<char>, b: Seq<char>)
    requires
        pieces(a, '/').len() == pieces(b, '/').len(),
        forall|i: int|
            0 <= i < pieces(a, '/').len() ==> {
                ||| #[trigger] pieces(a, '/')[i] == pieces(b, '/')[i]
                ||| names_one_row(pieces(a, '/')[i]) && names_one_row(pieces(b, '/')[i])
            },
    ensures
        operation(method, a) == operation(method, b),
{
    lemma_same_names(pieces(a, '/'), pieces(b, '/'));
    lemma_template_is_by_names(pieces(a, '/'), pieces(b, '/'));
}

proof fn lemma_same_names(a: Seq<Seq<char>>, b: Seq<Seq<char>>)
    requires
        a.len() == b.len(),
        forall|i: int|
            0 <= i < a.len() ==> {
                ||| #[trigger] a[i] == b[i]
                ||| names_one_row(a[i]) && names_one_row(b[i])
            },
    ensures
        segment_names(a) == segment_names(b),
    decreases a.len(),
{
    if a.len() > 0 {
        let fa = a.drop_last();
        let fb = b.drop_last();
        assert forall|i: int| 0 <= i < fa.len() implies {
            ||| #[trigger] fa[i] == fb[i]
            ||| names_one_row(fa[i]) && names_one_row(fb[i])
        } by {
            assert(a[i] == fa[i]);
        }
        lemma_same_names(fa, fb);
        assert(a[a.len() - 1] == b[b.len() - 1] || names_one_row(a.last()) && names_one_row(
            b.last(),
        ));
    }
}

proof fn lemma_names_of_kept(segments: Seq<Seq<char>>)
    ensures
        segment_names(segments) == segment_names(kept(segments)),
    decreases segments.len(),
{
    reveal(Seq::filter);
    if segments.len() > 0 {
        lemma_names_of_kept(segments.drop_last());
        if segments.last().len() > 0 {
            assert(kept(segments).drop_last() =~= kept(segments.drop_last()));
        }
    }
}

/// Slashes that repeat, lead or trail do not show: paths with the same segments,
/// the empty ones left out, have one name.
pub proof fn law_empty_segments_do_not_show(method: Seq<char>, a: Seq<char>, b: Seq<char>)
    requires
        kept(pieces(a, '/')) == kept(pieces(b, '/')),
    ensures
        operation(method, a) == operation(method, b),
{
    lemma_names_of_kept(pieces(a, '/'));
    lemma_names_of_kept(pieces(b, '/'));
    lemma_template_is_by_names(pieces(a, '/'), pieces(b, '/'));
}

/// A name is already a template: naming the path that it shows gives it again.
pub proof fn law_naming_a_name_changes_nothing(method: Seq<char>, path: Seq<char>)
    ensures
        operation(method, named_path(method, path)) == operation(method, path),
{
    let segments = pieces(path, '/');
    let named = template(segments);
    assert(named_path(method, path) =~= shown(path));
    lemma_pieces_hold_no_separator(path, '/');
    lemma_template_again(segments);
    if named.len() > 0 {
        lemma_template_is_by_names(pieces(named, '/'), segments);
    } else {
        let none = Seq::<char>::empty();
        assert(shown(path) =~= none + seq!['/'] + none);
        lemma_pieces_of_join(none, none, '/');
        lemma_one_piece(none, '/');
        assert(pieces(shown(path), '/') =~= seq![none, none]);
        assert(seq![none, none].drop_last() =~= seq![none]);
        assert(seq![none].drop_last() =~= Seq::<Seq<char>>::empty());
        reveal_with_fuel(template, 3);
        assert(template(seq![none, none]).len() == 0);
    }
}

/// Whether every character is an ASCII decimal digit.
pub open spec fn all_digits(s: Seq<char>) -> bool {
    forall|i: int| 0 <= i < s.len() ==> '0' <= #[trigger] s[i] <= '9'
}

/// Whether every character is an ASCII hexadecimal digit of either case, a dash or an
/// underscore.
pub open spec fn all_hexadecimal(s: Seq<char>) -> bool {
    forall|i: int|
        0 <= i < s.len() ==> {
            let c = #[trigger] s[i];
            ||| '0' <= c <= '9'
            ||| 'a' <= c <= 'f'
            ||| 'A' <= c <= 'F'
            ||| c == '-'
            ||| c == '_'
        }
}

/// Whether a text is empty, or a dot and anything that stays in the path segment.
pub open spec fn is_extension(s: Seq<char>) -> bool {
    s.len() == 0 || (s[0] == '.' && forall|i: int| 0 <= i < s.len() ==> #[trigger] s[i] != '/')
}

proof fn lemma_stem_and_extension(stem_text: Seq<char>, extension: Seq<char>)
    requires
        forall|i: int| 0 <= i < stem_text.len() ==> #[trigger] stem_text[i] != '.',
        extension.len() == 0 || extension[0] == '.',
    ensures
        stem(stem_text + extension) == stem_text,
{
    let segment = stem_text + extension;
    lemma_first_index_unique(segment, '.', stem_text.len() as int);
    assert(segment.take(stem_text.len() as int) =~= stem_text);
}

proof fn lemma_one_segment(method: Seq<char>, segment: Seq<char>)
    requires
        segment.len() > 0,
        forall|i: int| 0 <= i < segment.len() ==> #[trigger] segment[i] != '/',
    ensures
        operation(method, seq!['/'] + segment) == method + seq![' ', '/'] + segment_name(segment),
{
    let none = Seq::<char>::empty();
    let path = seq!['/'] + segment;
    assert(path =~= none + seq!['/'] + segment);
    lemma_pieces_of_join(none, segment, '/');
    lemma_one_piece(none, '/');
    lemma_one_piece(segment, '/');
    let list = pieces(path, '/');
    assert(list =~= seq![none, segment]);
    assert(list.drop_last() =~= seq![none]);
    assert(seq![none].drop_last() =~= Seq::<Seq<char>>::empty());
    reveal_with_fuel(template, 3);
    assert(template(list) =~= seq!['/'] + segment_name(segment));
    assert(operation(method, path) =~= method + seq![' ', '/'] + segment_name(segment));
}

/// A serial number of any length, with or without an extension, is shown as `{id}`.
pub proof fn law_a_serial_number_is_a_parameter(
    method: Seq<char>,
    digits: Seq<char>,
    extension: Seq<char>,
)
    requires
        digits.len() > 0,
        all_digits(digits),
        is_extension(extension),
    ensures
        operation(method, seq!['/'] + digits + extension) == method + seq![
            ' ',
            '/',
            '{',
            'i',
            'd',
            '}',
        ],
{
    let segment = digits + extension;
    lemma_stem_and_extension(digits, extension);
    assert(forall|i: int| 0 <= i < digits.len() ==> is_digit(#[trigger] digits[i]));
    assert forall|i: int| 0 <= i < segment.len() implies #[trigger] segment[i] != '/' by {
        if i < digits.len() {
            assert(segment[i] == digits[i]);
        } else {
            assert(segment[i] == extension[i - digits.len()]);
        }
    }
    lemma_one_segment(method, segment);
    assert(seq!['/'] + digits + extension =~= seq!['/'] + segment);
    assert(method + seq![' ', '/'] + seq!['{', 'i', 'd', '}'] =~= method + seq![
        ' ',
        '/',
        '{',
        'i',
        'd',
        '}',
    ]);
}

/// A token of sixteen or more hexadecimal digits, dashes and underscores, a uuid among
/// them, is shown as `{id}`, with or without an extension.
pub proof fn law_a_token_is_a_parameter(
    method: Seq<char>,
    token: Seq<char>,
    extension: Seq<char>,
)
    requires
        token.len() >= 16,
        all_hexadecimal(token),
        is_extension(extension),
    ensures
        operation(method, seq!['/'] + token + extension) == method + seq![
            ' ',
            '/',
            '{',
            'i',
            'd',
            '}',
        ],
{
    let segment = token + extension;
    lemma_stem_and_extension(token, extension);
    assert(forall|i: int| 0 <= i < token.len() ==> is_hexish(#[trigger] token[i]));
    assert forall|i: int| 0 <= i < segment.len() implies #[trigger] segment[i] != '/' by {
        if i < token.len() {
            assert(segment[i] == token[i]);
        } else {
            assert(segment[i] == extension[i - token.len()]);
        }
    }
    lemma_one_segment(method, segment);
    assert(seq!['/'] + token + extension =~= seq!['/'] + segment);
    assert(method + seq![' ', '/'] + seq!['{', 'i', 'd', '}'] =~= method + seq![
        ' ',
        '/',
        '{',
        'i',
        'd',
        '}',
    ]);
}

/// Any other segment is a word, and is shown as it stands, extension and all: one that
/// starts with a dot, one that is not hexadecimal, and one that is too short for a token
/// and no serial number.
pub proof fn law_a_word_keeps_its_name(
    method: Seq<char>,
    word: Seq<char>,
    extension: Seq<char>,
)
    requires
        word.len() + extension.len() > 0,
        forall|i: int| 0 <= i < word.len() ==> #[trigger] word[i] != '/' && word[i] != '.',
        is_extension(extension),
        ({
            ||| word.len() == 0
            ||| !all_hexadecimal(word)
            ||| word.len() < 16 && !all_digits(word)
        }),
    ensures
        operation(method, seq!['/'] + word + extension) == method + seq![' ', '/'] + word
            + extension,
{
    let segment = word + extension;
    lemma_stem_and_extension(word, extension);
    if word.len() > 0 {
        if !all_digits(word) {
            let i = choose|i: int|
                0 <= i < word.len() && !('0' <= #[trigger] word[i] <= '9');
            assert(!is_digit(word[i]));
        }
        if !all_hexadecimal(word) {
            let i = choose|i: int|
                0 <= i < word.len() && !({
                    let c = #[trigger] word[i];
                    ||| '0' <= c <= '9'
                    ||| 'a' <= c <= 'f'
                    ||| 'A' <= c <= 'F'
                    ||| c == '-'
                    ||| c == '_'
                });
            assert(!is_hexish(word[i]));
            assert(!is_digit(word[i]));
        }
    }
    assert(!names_one_row(segment));
    assert forall|i: int| 0 <= i < segment.len() implies #[trigger] segment[i] != '/' by {
        if i < word.len() {
            assert(segment[i] == word[i]);
        } else {
            assert(segment[i] == extension[i - word.len()]);
        }
    }
    lemma_one_segment(method, segment);
    assert(seq!['/'] + word + extension =~= seq!['/'] + segment);
    assert(method + seq![' ', '/'] + word + extension =~= method + seq![' ', '/'] + segment);
}

/// A path is named segment by segment: what a segment adds to a name is what it is shown
/// as alone, an empty one adds nothing, the root is a slash, and the method stands in
/// front of it all.
pub proof fn law_a_path_is_named_segment_by_segment(
    method: Seq<char>,
    path: Seq<char>,
    segment: Seq<char>,
)
    requires
        forall|i: int| 0 <= i < segment.len() ==> #[trigger] segment[i] != '/',
    ensures
        operation(method, path) == method + operation(Seq::empty(), path),
        operation(method, Seq::empty()) == method + seq![' ', '/'],
        operation(method, path + seq!['/']) == operation(method, path),
        operation(method, seq!['/'] + path) == operation(method, path),
        operation(method, segment) == operation(method, seq!['/'] + segment),
        segment.len() > 0 && operation(method, path) == method + seq![' ', '/'] ==> operation(
            method,
            path + seq!['/'] + segment,
        ) == operation(method, seq!['/'] + segment),
        segment.len() > 0 && operation(method, path) != method + seq![' ', '/'] ==> operation(
            method,
            path + seq!['/'] + segment,
        ) == operation(method, path) + operation(Seq::empty(), seq!['/'] + segment).skip(1),
{
    let none = Seq::<char>::empty();
    lemma_one_piece(none, '/');
    lemma_one_piece(segment, '/');
    assert(none + seq![' '] + shown(path) =~= seq![' '] + shown(path));
    assert(operation(method, path) =~= method + operation(none, path));
    reveal_with_fuel(template, 3);
    assert(seq![none].drop_last() =~= Seq::<Seq<char>>::empty());
    assert(operation(method, none) =~= method + seq![' ', '/']);
    // A slash behind.
    lemma_pieces_of_join(path, none, '/');
    assert(path + seq!['/'] =~= path + seq!['/'] + none);
    let behind = pieces(path + seq!['/'], '/');
    assert(behind.drop_last() =~= pieces(path, '/'));
    assert(behind.last() == none);
    // A slash in front.
    lemma_pieces_of_join(none, path, '/');
    assert(seq!['/'] + path =~= none + seq!['/'] + path);
    lemma_empty_segment_in_front(pieces(path, '/'));
    lemma_pieces_of_join(none, segment, '/');
    assert(seq!['/'] + segment =~= none + seq!['/'] + segment);
    lemma_empty_segment_in_front(pieces(segment, '/'));
    // One segment more.
    lemma_pieces_of_join(path, segment, '/');
    let more = pieces(path + seq!['/'] + segment, '/');
    assert(more.drop_last() =~= pieces(path, '/'));
    assert(more.last() == segment);
    if segment.len() > 0 {
        lemma_one_segment(method, segment);
        lemma_one_segment(none, segment);
        lemma_template_starts_with_a_slash(pieces(path, '/'));
        let named = template(pieces(path, '/'));
        assert(template(more) == named + seq!['/'] + segment_name(segment));
        assert(operation(none, seq!['/'] + segment).skip(1) =~= seq!['/'] + segment_name(segment));
        if named.len() == 0 {
            assert(operation(method, path) =~= method + seq![' ', '/']);
            assert(operation(method, path + seq!['/'] + segment) =~= operation(
                method,
                seq!['/'] + segment,
            ));
        } else {
            lemma_template_is_no_root(pieces(path, '/'));
            assert(operation(method, path).len() > (method + seq![' ', '/']).len());
            assert(operation(method, path + seq!['/'] + segment) =~= operation(method, path)
                + operation(none, seq!['/'] + segment).skip(1));
        }
    }
}

proof fn lemma_empty_segment_in_front(segments: Seq<Seq<char>>)
    ensures
        template(seq![Seq::<char>::empty()] + segments) == template(segments),
    decreases segments.len(),
{
    let none = Seq::<char>::empty();
    let all = seq![none] + segments;
    if segments.len() == 0 {
        assert(all.drop_last() =~= segments);
    } else {
        lemma_empty_segment_in_front(segments.drop_last());
        assert(all.drop_last() =~= seq![none] + segments.drop_last());
        assert(all.last() == segments.last());
    }
}

proof fn lemma_template_is_no_root(segments: Seq<Seq<char>>)
    requires
        template(segments).len() > 0,
    ensures
        template(segments).len() > 1,
    decreases segments.len(),
{
    if segments.last().len() == 0 {
        lemma_template_is_no_root(segments.drop_last());
    }
}

/// A span says of a request what was asked for: its method, its path, and its query
/// string if and only if that is recorded and there is one; and its name is the path as it
/// stands behind the method unless names are normalized.
pub proof fn law_a_span_says_what_was_asked_for(
    maker: HttpSpan,
    method: Seq<char>,
    path: Seq<char>,
    query: Option<&str>,
    span: ServerSpan,
)
    requires
        maker.describes(method, path, query, span),
    ensures
        span.method@ == method,
        span.path@ == path,
        span.query is Some <==> maker.record_query && query is Some,
        span.query is Some && query is Some ==> span.query->Some_0@ == query->Some_0@,
        maker.normalize_names ==> span.name@ == operation(method, path),
        !maker.normalize_names ==> span.name@ == method + seq![' '] + path,
{
}

/// A status is a failure of the server exactly when its first of three digits is a five.
pub proof fn law_only_the_five_hundreds_fail(status: u16)
    ensures
        is_server_error(status) <==> status / 100 == 5,
{
}

} // verus!
