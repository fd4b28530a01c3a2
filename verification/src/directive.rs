//! Which filter directives can be parsed without cutting a character in two.
//!
//! The parser of `tracing-subscriber` walks a directive without the white space around it
//! and slices the one with it, at the byte offsets it found. Behind white space an offset
//! can fall inside a character.

use vstd::prelude::*;

use crate::text::{
    characters, is_blank, is_tight, is_white_space, law_trimming_leaves_nothing_to_trim,
    law_trimming_takes_what_surrounds, lemma_one_piece, lemma_pieces_of_join, pieces, split, texts,
    trim, trim_start, trimmed,
};

verus! {

/// How many bytes a character takes in UTF-8.
pub open spec fn width(c: char) -> int {
    if c <= '\u{7f}' {
        1
    } else if c <= '\u{7ff}' {
        2
    } else if c <= '\u{ffff}' {
        3
    } else {
        4
    }
}

/// The byte offset of the character at `k`.
pub open spec fn offset(s: Seq<char>, k: int) -> int
    decreases k,
{
    if k <= 0 {
        0
    } else {
        offset(s, k - 1) + width(s[k - 1])
    }
}

/// Whether a character starts at the byte offset, or the text ends there.
pub open spec fn on_boundary(s: Seq<char>, at: int) -> bool {
    exists|k: int| 0 <= k <= s.len() && #[trigger] offset(s, k) == at
}

/// Where the parser is in a directive.
#[derive(Clone, Copy, Debug)]
pub enum Place {
    /// In front of it.
    Start,
    /// In a level or a target.
    Name,
    /// In the name of a span.
    Span,
    /// In a field.
    Field,
    /// Behind the fields.
    Fields,
    /// Behind a span.
    Target,
    /// In the level behind a target.
    Level,
}

/// Whether a directive may start with the character, as far as that is ASCII.
pub open spec fn may_start(c: char) -> bool {
    ||| c > '\u{7f}'
    ||| '0' <= c <= '9'
    ||| 'A' <= c <= 'Z'
    ||| 'a' <= c <= 'z'
    ||| c == '-'
    ||| c == ':'
    ||| c == '_'
}

/// Whether every slice of `directive` falls on a boundary while `rest` is walked. The walk
/// is at byte offset `at`; what it is in began at `start`.
pub open spec fn walks(
    directive: Seq<char>,
    rest: Seq<char>,
    at: int,
    place: Place,
    start: int,
) -> bool
    decreases rest.len(),
{
    if rest.len() == 0 {
        place is Level ==> on_boundary(directive, start)
    } else {
        let c = rest[0];
        let tail = rest.drop_first();
        let next = at + width(c);
        match place {
            Place::Start => if c == '[' {
                walks(directive, tail, next, Place::Span, next)
            } else {
                may_start(c) ==> walks(directive, tail, next, Place::Name, 0)
            },
            Place::Name => if c == '=' {
                on_boundary(directive, at) && walks(directive, tail, next, Place::Level, next)
            } else if c == '[' {
                on_boundary(directive, at) && walks(directive, tail, next, Place::Span, next)
            } else {
                walks(directive, tail, next, place, start)
            },
            Place::Span => if c == ']' || c == '{' {
                &&& on_boundary(directive, start)
                &&& on_boundary(directive, at)
                &&& walks(
                    directive,
                    tail,
                    next,
                    if c == ']' {
                        Place::Target
                    } else {
                        Place::Field
                    },
                    next,
                )
            } else {
                walks(directive, tail, next, place, start)
            },
            Place::Field => if c == '}' {
                &&& on_boundary(directive, start)
                &&& on_boundary(directive, at)
                &&& walks(directive, tail, next, Place::Fields, next)
            } else {
                walks(directive, tail, next, place, start)
            },
            Place::Fields => c == ']' ==> walks(directive, tail, next, Place::Target, next),
            Place::Target => c == '=' ==> walks(directive, tail, next, Place::Level, next),
            Place::Level => walks(directive, tail, next, place, start),
        }
    }
}

/// Whether directives can be parsed: no slice of any of them falls inside a character.
/// The walk ends where the parser refuses a directive, but for two refusals that it does
/// not see: of a first character that is neither ASCII nor alphanumeric, and of a field.
pub open spec fn sliceable(directives: Seq<char>) -> bool {
    let list = pieces(directives, ',');
    forall|i: int|
        0 <= i < list.len() ==> walks(
            #[trigger] list[i],
            trimmed(list[i]),
            0,
            Place::Start,
            0,
        )
}

/// How many bytes a character takes in UTF-8.
fn width_of(c: char) -> (r: u128)
    ensures
        r == width(c),
{
    if c <= '\u{7f}' {
        1
    } else if c <= '\u{7ff}' {
        2
    } else if c <= '\u{ffff}' {
        3
    } else {
        4
    }
}

/// Whether a character starts at the byte offset, or the text ends there.
fn is_on_boundary(cs: &Vec<char>, at: u128) -> (r: bool)
    ensures
        r == on_boundary(cs@, at as int),
{
    let mut here: u128 = 0;
    let mut k: usize = 0;
    assert(offset(cs@, 0) == 0);
    while k < cs.len()
        invariant
            k <= cs.len(),
            here == offset(cs@, k as int),
            here <= 4 * k,
            forall|j: int| 0 <= j < k ==> #[trigger] offset(cs@, j) != at,
        decreases cs.len() - k,
    {
        if here == at {
            assert(offset(cs@, k as int) == at);
            return true;
        }
        here = here + width_of(cs[k]);
        k += 1;
        assert(offset(cs@, k as int) == offset(cs@, k - 1) + width(cs@[k - 1]));
    }
    if here == at {
        assert(offset(cs@, k as int) == at);
    }
    here == at
}

/// Whether every slice of a directive falls on a boundary.
fn walk(directive: &str) -> (r: bool)
    ensures
        r == walks(directive@, trimmed(directive@), 0, Place::Start, 0),
{
    let cs = characters(directive);
    let inner = characters(trim(directive));
    let ghost whole = walks(directive@, trimmed(directive@), 0, Place::Start, 0);
    let mut place = Place::Start;
    let mut start: u128 = 0;
    let mut at: u128 = 0;
    let mut i: usize = 0;
    assert(inner@.skip(0) =~= inner@);
    while i < inner.len()
        invariant
            cs@ == directive@,
            i <= inner.len(),
            at <= 4 * i,
            start <= 4 * i,
            whole == walks(directive@, trimmed(directive@), 0, Place::Start, 0),
            whole == walks(directive@, inner@.skip(i as int), at as int, place, start as int),
        decreases inner.len() - i,
    {
        let c = inner[i];
        let next: u128 = at + width_of(c);
        proof {
            let rest = inner@.skip(i as int);
            assert(rest[0] == c);
            assert(rest.drop_first() =~= inner@.skip(i + 1));
        }
        match place {
            Place::Start => {
                if c == '[' {
                    place = Place::Span;
                    start = next;
                } else if c > '\u{7f}' || ('0' <= c && c <= '9') || ('A' <= c && c <= 'Z') || (
                'a' <= c && c <= 'z') || c == '-' || c == ':' || c == '_' {
                    place = Place::Name;
                    start = 0;
                } else {
                    return true;
                }
            },
            Place::Name => {
                if c == '=' || c == '[' {
                    if !is_on_boundary(&cs, at) {
                        return false;
                    }
                    place = if c == '=' {
                        Place::Level
                    } else {
                        Place::Span
                    };
                    start = next;
                }
            },
            Place::Span => {
                if c == ']' || c == '{' {
                    if !is_on_boundary(&cs, start) || !is_on_boundary(&cs, at) {
                        return false;
                    }
                    place = if c == ']' {
                        Place::Target
                    } else {
                        Place::Field
                    };
                    start = next;
                }
            },
            Place::Field => {
                if c == '}' {
                    if !is_on_boundary(&cs, start) || !is_on_boundary(&cs, at) {
                        return false;
                    }
                    place = Place::Fields;
                    start = next;
                }
            },
            Place::Fields => {
                if c != ']' {
                    return true;
                }
                place = Place::Target;
                start = next;
            },
            Place::Target => {
                if c != '=' {
                    return true;
                }
                place = Place::Level;
                start = next;
            },
            Place::Level => {},
        }
        at = next;
        i += 1;
    }
    match place {
        Place::Level => is_on_boundary(&cs, start),
        _ => true,
    }
}

/// Whether directives can be parsed: no slice of any of them falls inside a character.
pub fn can_be_sliced(directives: &str) -> (r: bool)
    ensures
        r == sliceable(directives@),
{
    let list = split(directives, ',');
    let ghost all = texts(list@);
    let mut i: usize = 0;
    while i < list.len()
        invariant
            i <= list.len(),
            all == texts(list@),
            all == pieces(directives@, ','),
            forall|j: int|
                0 <= j < i ==> walks(#[trigger] all[j], trimmed(all[j]), 0, Place::Start, 0),
        decreases list.len() - i,
    {
        assert(all[i as int] == list[i as int]@);
        if !walk(list[i]) {
            return false;
        }
        i += 1;
    }
    true
}

/// The directive that is used in place of what is no filter can be parsed.
pub(crate) proof fn lemma_info_is_sliceable()
    ensures
        sliceable("info"@),
{
    reveal_strlit("info");
    lemma_one_piece("info"@, ',');
    assert(trim_start("info"@) == "info"@);
    assert(trimmed("info"@) == "info"@);
    reveal_with_fuel(walks, 5);
}

proof fn lemma_offset_of_the_rest(s: Seq<char>, k: int)
    requires
        s.len() > 0,
        0 <= k <= s.len() - 1,
    ensures
        offset(s, k + 1) == width(s[0]) + offset(s.drop_first(), k),
    decreases k,
{
    if k > 0 {
        lemma_offset_of_the_rest(s, k - 1);
        assert(s.drop_first()[k - 1] == s[k]);
    } else {
        reveal_with_fuel(offset, 2);
    }
}

proof fn lemma_offset_grows(s: Seq<char>, a: int, b: int)
    requires
        0 <= a <= b,
    ensures
        offset(s, a) + (b - a) <= offset(s, b),
    decreases b,
{
    if a < b {
        lemma_offset_grows(s, a, b - 1);
    }
}

proof fn lemma_offset_of_a_prefix(s: Seq<char>, t: Seq<char>, k: int)
    requires
        0 <= k <= s.len(),
        k <= t.len(),
        forall|i: int| 0 <= i < k ==> s[i] == t[i],
    ensures
        offset(s, k) == offset(t, k),
    decreases k,
{
    if k > 0 {
        lemma_offset_of_a_prefix(s, t, k - 1);
    }
}

proof fn lemma_offset_in_ascii(s: Seq<char>, k: int)
    requires
        0 <= k <= s.len(),
        forall|i: int| 0 <= i < s.len() ==> #[trigger] s[i] as int <= 127,
    ensures
        offset(s, k) == k,
    decreases k,
{
    if k > 0 {
        lemma_offset_in_ascii(s, k - 1);
        assert(s[k - 1] as int <= 127);
        assert(s[k - 1] <= '\u{7f}');
    }
}

proof fn lemma_walks(directive: Seq<char>, rest: Seq<char>, at: int, place: Place, start: int)
    requires
        on_boundary(directive, start),
        forall|k: int|
            0 <= k <= rest.len() ==> on_boundary(directive, at + #[trigger] offset(rest, k)),
    ensures
        walks(directive, rest, at, place, start),
    decreases rest.len(),
{
    if rest.len() > 0 {
        let tail = rest.drop_first();
        let next = at + width(rest[0]);
        assert(offset(rest, 0) == 0);
        assert(on_boundary(directive, at));
        assert forall|k: int| 0 <= k <= tail.len() implies on_boundary(
            directive,
            next + #[trigger] offset(tail, k),
        ) by {
            lemma_offset_of_the_rest(rest, k);
            assert(on_boundary(directive, at + offset(rest, k + 1)));
        }
        assert(offset(tail, 0) == 0);
        assert(on_boundary(directive, next));
        assert(offset(directive, 0) == 0);
        assert(on_boundary(directive, 0));
        lemma_walks(directive, tail, next, Place::Name, 0);
        lemma_walks(directive, tail, next, place, start);
        lemma_walks(directive, tail, next, Place::Span, next);
        lemma_walks(directive, tail, next, Place::Field, next);
        lemma_walks(directive, tail, next, Place::Fields, next);
        lemma_walks(directive, tail, next, Place::Target, next);
        lemma_walks(directive, tail, next, Place::Level, next);
    }
}

/// Directives are only kept from the parser where one of them starts with white space and
/// holds a character beyond ASCII: where each is all ASCII or starts with something else,
/// they can be parsed.
pub proof fn law_what_cannot_be_cut_is_parsed(directives: Seq<char>)
    requires
        forall|i: int|
            0 <= i < pieces(directives, ',').len() ==> {
                let directive = #[trigger] pieces(directives, ',')[i];
                ||| directive.len() == 0
                ||| !is_white_space(directive[0])
                ||| forall|j: int|
                    0 <= j < directive.len() ==> #[trigger] directive[j] as int <= 127
            },
    ensures
        sliceable(directives),
{
    let list = pieces(directives, ',');
    assert forall|i: int| 0 <= i < list.len() implies walks(
        #[trigger] list[i],
        trimmed(list[i]),
        0,
        Place::Start,
        0,
    ) by {
        let directive = list[i];
        let inner = trimmed(directive);
        let taken = law_trimming_leaves_nothing_to_trim(directive);
        assert(offset(directive, 0) == 0);
        assert(on_boundary(directive, 0));
        assert forall|k: int| 0 <= k <= inner.len() implies on_boundary(
            directive,
            0 + #[trigger] offset(inner, k),
        ) by {
            if directive.len() == 0 || !is_white_space(directive[0]) {
                if taken.0.len() > 0 {
                    assert(directive[0] == taken.0[0]);
                }
                assert forall|j: int| 0 <= j < k implies inner[j] == directive[j] by {
                    assert(directive[j] == (taken.0 + inner + taken.1)[j]);
                }
                lemma_offset_of_a_prefix(inner, directive, k);
                assert(offset(directive, k) == offset(inner, k));
            } else {
                assert forall|j: int| 0 <= j < inner.len() implies #[trigger] inner[j] as int
                    <= 127 by {
                    assert(inner[j] == directive[taken.0.len() + j]);
                }
                lemma_offset_in_ascii(inner, k);
                lemma_offset_in_ascii(directive, k);
                assert(offset(directive, k) == offset(inner, k));
            }
        }
        lemma_walks(directive, inner, 0, Place::Start, 0);
    }
}

/// A directive whose target is a character beyond ASCII, with a space before it, is kept
/// from the parser: it would be cut inside that character.
pub proof fn law_what_would_be_cut_is_not_parsed(target: char, level: Seq<char>)
    requires
        target as int > 127,
        !is_white_space(target),
        forall|i: int| 0 <= i < level.len() ==> #[trigger] level[i] != ',',
        level.len() > 0 ==> !is_white_space(level.last()),
    ensures
        !sliceable(seq![' ', target, '='] + level),
{
    let directive = seq![' ', target, '='] + level;
    let inner = seq![target, '='] + level;
    assert forall|i: int| 0 <= i < directive.len() implies #[trigger] directive[i] != ',' by {
        if i >= 3 {
            assert(directive[i] == level[i - 3]);
        }
    }
    lemma_one_piece(directive, ',');
    let none = Seq::<char>::empty();
    assert(directive =~= seq![' '] + inner + none);
    assert(inner.last() == '=' || inner.last() == level.last());
    law_trimming_takes_what_surrounds(seq![' '], inner, none);
    assert(pieces(directive, ',')[0] == directive);
    let at = width(target);
    assert(target > '\u{7f}');
    assert(2 <= at <= 4);
    assert(!on_boundary(directive, at)) by {
        reveal_with_fuel(offset, 3);
        assert(offset(directive, 0) == 0);
        assert(offset(directive, 1) == 1);
        assert(offset(directive, 2) == 1 + at);
        assert forall|k: int| 0 <= k <= directive.len() implies #[trigger] offset(directive, k)
            != at by {
            if k >= 2 {
                lemma_offset_grows(directive, 2, k);
            }
        }
    }
    let rest = inner.drop_first();
    assert(rest[0] == '=');
    assert(!walks(directive, rest, at, Place::Name, 0));
    assert(!walks(directive, inner, 0, Place::Start, 0));
}

proof fn lemma_width(c: char)
    ensures
        vstd::utf8::encode_scalar(c as u32).len() == width(c),
        vstd::utf8::is_scalar(c as u32),
{
    vstd::utf8::char_is_scalar(c);
}

/// Offsets are counted in the bytes of UTF-8.
pub proof fn law_offsets_are_counted_in_bytes(s: Seq<char>)
    ensures
        offset(s, s.len() as int) == vstd::utf8::encode_utf8(s).len(),
    decreases s.len(),
{
    if s.len() > 0 {
        let tail = s.drop_first();
        law_offsets_are_counted_in_bytes(tail);
        lemma_offset_of_the_rest(s, s.len() - 1);
        lemma_width(s[0]);
    }
}

/// A text can be cut between two of its characters, and nowhere else.
pub proof fn law_a_boundary_is_between_two_characters(s: Seq<char>, at: int)
    ensures
        on_boundary(s, at) <==> vstd::utf8::is_char_boundary(vstd::utf8::encode_utf8(s), at),
    decreases s.len(),
{
    let bytes = vstd::utf8::encode_utf8(s);
    vstd::utf8::encode_utf8_valid_utf8(s);
    assert(offset(s, 0) == 0);
    if s.len() == 0 {
        assert(on_boundary(s, at) <==> at == 0);
    } else if at != 0 {
        let tail = s.drop_first();
        let w = width(s[0]);
        lemma_width(s[0]);
        vstd::utf8::encode_utf8_first_scalar(s);
        assert(vstd::utf8::pop_first_scalar(bytes) =~= vstd::utf8::encode_utf8(tail));
        vstd::utf8::encode_utf8_valid_utf8(tail);
        law_a_boundary_is_between_two_characters(tail, at - w);
        if on_boundary(s, at) {
            let k = choose|k: int| 0 <= k <= s.len() && #[trigger] offset(s, k) == at;
            lemma_offset_of_the_rest(s, k - 1);
            assert(offset(tail, k - 1) == at - w);
            assert(on_boundary(tail, at - w));
        }
        if on_boundary(tail, at - w) {
            let k = choose|k: int| 0 <= k <= tail.len() && #[trigger] offset(tail, k) == at - w;
            lemma_offset_of_the_rest(s, k);
            assert(offset(s, k + 1) == at);
            assert(on_boundary(s, at));
        }
    }
}

/// Lists of directives with a comma between them can be parsed if and only if each can.
pub proof fn law_each_directive_is_parsed_by_itself(a: Seq<char>, b: Seq<char>)
    ensures
        sliceable(a + seq![','] + b) <==> sliceable(a) && sliceable(b),
{
    lemma_pieces_of_join(a, b, ',');
    let first = pieces(a, ',');
    let second = pieces(b, ',');
    let all = first + second;
    if sliceable(a + seq![','] + b) {
        assert forall|i: int| 0 <= i < first.len() implies walks(
            #[trigger] first[i],
            trimmed(first[i]),
            0,
            Place::Start,
            0,
        ) by {
            assert(all[i] == first[i]);
        }
        assert forall|i: int| 0 <= i < second.len() implies walks(
            #[trigger] second[i],
            trimmed(second[i]),
            0,
            Place::Start,
            0,
        ) by {
            assert(all[first.len() + i] == second[i]);
        }
    }
    if sliceable(a) && sliceable(b) {
        assert forall|i: int| 0 <= i < all.len() implies walks(
            #[trigger] all[i],
            trimmed(all[i]),
            0,
            Place::Start,
            0,
        ) by {
            if i < first.len() {
                assert(all[i] == first[i]);
            } else {
                assert(all[i] == second[i - first.len()]);
            }
        }
    }
}

/// Whether the parser walks over the character without leaving where it is.
spec fn stays(place: Place, c: char) -> bool {
    match place {
        Place::Name => c != '=' && c != '[',
        Place::Span => c != ']' && c != '{',
        Place::Field => c != '}',
        Place::Level => true,
        _ => false,
    }
}

proof fn lemma_walk_over(
    directive: Seq<char>,
    a: Seq<char>,
    rest: Seq<char>,
    at: int,
    place: Place,
    start: int,
)
    requires
        forall|i: int| 0 <= i < a.len() ==> stays(place, #[trigger] a[i]),
    ensures
        walks(directive, a + rest, at, place, start) == walks(
            directive,
            rest,
            at + offset(a, a.len() as int),
            place,
            start,
        ),
    decreases a.len(),
{
    if a.len() == 0 {
        assert(a + rest =~= rest);
    } else {
        let tail = a.drop_first();
        assert(stays(place, a[0]));
        assert forall|i: int| 0 <= i < tail.len() implies stays(place, #[trigger] tail[i]) by {
            assert(tail[i] == a[i + 1]);
        }
        lemma_walk_over(directive, tail, rest, at + width(a[0]), place, start);
        lemma_offset_of_the_rest(a, a.len() - 1);
        assert((a + rest).drop_first() =~= tail + rest);
        assert((a + rest)[0] == a[0]);
    }
}

proof fn lemma_walk_a_level(directive: Seq<char>, level: Seq<char>, at: int)
    ensures
        walks(directive, level, at, Place::Level, at) == on_boundary(directive, at),
{
    let none = Seq::<char>::empty();
    lemma_walk_over(directive, level, none, at, Place::Level, at);
    assert(level + none =~= level);
}

proof fn lemma_walk_behind_a_span(directive: Seq<char>, level: Option<Seq<char>>, at: int)
    ensures
        walks(directive, at_level(level), at, Place::Target, at) == (level is Some ==> on_boundary(
            directive,
            at + 1,
        )),
{
    let rest = at_level(level);
    if level is Some {
        assert(rest[0] == '=');
        assert(rest.drop_first() =~= level->Some_0);
        lemma_walk_a_level(directive, level->Some_0, at + 1);
    }
}

proof fn lemma_walk_a_span(
    directive: Seq<char>,
    span: Seq<char>,
    level: Option<Seq<char>>,
    at: int,
)
    requires
        forall|i: int| 0 <= i < span.len() ==> #[trigger] span[i] != ']' && span[i] != '{',
    ensures
        ({
            let end = at + offset(span, span.len() as int);
            walks(directive, span + (seq![']'] + at_level(level)), at, Place::Span, at) == {
                &&& on_boundary(directive, at)
                &&& on_boundary(directive, end)
                &&& level is Some ==> on_boundary(directive, end + 2)
            }
        }),
{
    let end = at + offset(span, span.len() as int);
    let tail = seq![']'] + at_level(level);
    lemma_walk_over(directive, span, tail, at, Place::Span, at);
    assert(tail[0] == ']');
    assert(tail.drop_first() =~= at_level(level));
    lemma_walk_behind_a_span(directive, level, end + 1);
}

proof fn lemma_walk_a_span_with_fields(
    directive: Seq<char>,
    span: Seq<char>,
    fields: Seq<char>,
    level: Option<Seq<char>>,
    at: int,
)
    requires
        forall|i: int| 0 <= i < span.len() ==> #[trigger] span[i] != ']' && span[i] != '{',
        forall|i: int| 0 <= i < fields.len() ==> #[trigger] fields[i] != '}',
    ensures
        ({
            let end = at + offset(span, span.len() as int);
            let close = end + 1 + offset(fields, fields.len() as int);
            walks(
                directive,
                span + (seq!['{'] + (fields + (seq!['}'] + (seq![']'] + at_level(level))))),
                at,
                Place::Span,
                at,
            ) == {
                &&& on_boundary(directive, at)
                &&& on_boundary(directive, end)
                &&& on_boundary(directive, end + 1)
                &&& on_boundary(directive, close)
                &&& level is Some ==> on_boundary(directive, close + 3)
            }
        }),
{
    let end = at + offset(span, span.len() as int);
    let close = end + 1 + offset(fields, fields.len() as int);
    let tail = seq![']'] + at_level(level);
    let closing = seq!['}'] + tail;
    let opening = seq!['{'] + (fields + closing);
    lemma_walk_over(directive, span, opening, at, Place::Span, at);
    assert(opening[0] == '{');
    assert(opening.drop_first() =~= fields + closing);
    lemma_walk_over(directive, fields, closing, end + 1, Place::Field, end + 1);
    assert(closing[0] == '}');
    assert(closing.drop_first() =~= tail);
    assert(tail[0] == ']');
    assert(tail.drop_first() =~= at_level(level));
    lemma_walk_behind_a_span(directive, level, close + 2);
    assert(walks(directive, tail, close + 1, Place::Fields, close + 1) == walks(
        directive,
        at_level(level),
        close + 2,
        Place::Target,
        close + 2,
    ));
    assert(walks(directive, closing, close, Place::Field, end + 1) == (on_boundary(
        directive,
        end + 1,
    ) && on_boundary(directive, close) && walks(
        directive,
        tail,
        close + 1,
        Place::Fields,
        close + 1,
    )));
}

/// Walks a target up to the bracket of a span.
proof fn lemma_walk_to_a_span(directive: Seq<char>, target: Seq<char>, rest: Seq<char>)
    requires
        target.len() > 0 ==> target[0] != '[' && may_start(target[0]),
        forall|i: int| 0 <= i < target.len() ==> #[trigger] target[i] != '=' && target[i] != '[',
    ensures
        ({
            let at = offset(target, target.len() as int);
            walks(directive, target + (seq!['['] + rest), 0, Place::Start, 0) == {
                &&& target.len() > 0 ==> on_boundary(directive, at)
                &&& walks(directive, rest, at + 1, Place::Span, at + 1)
            }
        }),
{
    let inner = target + (seq!['['] + rest);
    let bracketed = seq!['['] + rest;
    assert(bracketed[0] == '[');
    assert(bracketed.drop_first() =~= rest);
    if target.len() > 0 {
        let c = target[0];
        let tail = target.drop_first();
        assert forall|i: int| 0 <= i < tail.len() implies stays(
            Place::Name,
            #[trigger] tail[i],
        ) by {
            assert(tail[i] == target[i + 1]);
        }
        assert(inner[0] == c);
        assert(inner.drop_first() =~= tail + bracketed);
        lemma_walk_over(directive, tail, bracketed, width(c), Place::Name, 0);
        lemma_offset_of_the_rest(target, target.len() - 1);
    } else {
        assert(inner =~= bracketed);
    }
}

/// The fields of a span, in braces.
pub open spec fn in_braces(fields: Option<Seq<char>>) -> Seq<char> {
    match fields {
        Some(text) => seq!['{'] + text + seq!['}'],
        None => Seq::empty(),
    }
}

/// The level of a directive, behind its sign.
pub open spec fn at_level(level: Option<Seq<char>>) -> Seq<char> {
    match level {
        Some(text) => seq!['='] + text,
        None => Seq::empty(),
    }
}

/// Whether the bytes of a text can be cut at this one.
pub open spec fn can_be_cut(text: Seq<char>, at: int) -> bool {
    vstd::utf8::is_char_boundary(vstd::utf8::encode_utf8(text), at)
}

/// How many bytes a text takes.
pub open spec fn byte_length(text: Seq<char>) -> int {
    vstd::utf8::encode_utf8(text).len() as int
}

proof fn lemma_one_directive(before: Seq<char>, inner: Seq<char>, after: Seq<char>)
    requires
        is_blank(before),
        is_blank(after),
        is_tight(inner),
        forall|i: int| 0 <= i < inner.len() ==> #[trigger] inner[i] != ',',
    ensures
        sliceable(before + inner + after) == walks(
            before + inner + after,
            inner,
            0,
            Place::Start,
            0,
        ),
{
    let directive = before + inner + after;
    assert forall|i: int| 0 <= i < directive.len() implies #[trigger] directive[i] != ',' by {
        if i < before.len() {
            assert(directive[i] == before[i]);
        } else if i < before.len() + inner.len() {
            assert(directive[i] == inner[i - before.len()]);
        } else {
            assert(directive[i] == after[i - before.len() - inner.len()]);
        }
    }
    lemma_one_piece(directive, ',');
    law_trimming_takes_what_surrounds(before, inner, after);
    assert(pieces(directive, ',')[0] == directive);
}

/// A target and its level can be parsed, whatever white space stands around them, if and
/// only if the two offsets they are sliced at fall between characters of the whole.
pub proof fn law_a_target_is_parsed_where_it_can_be_cut(
    before: Seq<char>,
    target: Seq<char>,
    level: Seq<char>,
    after: Seq<char>,
)
    requires
        is_blank(before),
        is_blank(after),
        is_tight(target + seq!['='] + level),
        target.len() > 0,
        ({
            let c = target[0];
            ||| c as int > 127
            ||| 'a' <= c <= 'z'
            ||| 'A' <= c <= 'Z'
            ||| '0' <= c <= '9'
            ||| c == '-'
            ||| c == '_'
            ||| c == ':'
        }),
        forall|i: int|
            0 <= i < target.len() ==> #[trigger] target[i] != '=' && target[i] != '[' && target[i]
                != ',',
        forall|i: int| 0 <= i < level.len() ==> #[trigger] level[i] != ',',
    ensures
        ({
            let whole = before + (target + seq!['='] + level) + after;
            sliceable(whole) <==> can_be_cut(whole, byte_length(target)) && can_be_cut(
                whole,
                byte_length(target) + 1,
            )
        }),
{
    let inner = target + seq!['='] + level;
    let whole = before + inner + after;
    assert forall|i: int| 0 <= i < inner.len() implies #[trigger] inner[i] != ',' by {
        if i < target.len() {
            assert(inner[i] == target[i]);
        } else if i > target.len() {
            assert(inner[i] == level[i - target.len() - 1]);
        }
    }
    lemma_one_directive(before, inner, after);
    let c = target[0];
    let tail = target.drop_first();
    assert forall|i: int| 0 <= i < tail.len() implies stays(Place::Name, #[trigger] tail[i]) by {
        assert(tail[i] == target[i + 1]);
    }
    assert(c > '\u{7f}' || c as int <= 127);
    assert(may_start(c));
    assert(inner[0] == c);
    assert(inner.drop_first() =~= tail + (seq!['='] + level));
    lemma_walk_over(whole, tail, seq!['='] + level, width(c), Place::Name, 0);
    lemma_offset_of_the_rest(target, target.len() - 1);
    law_offsets_are_counted_in_bytes(target);
    let at = byte_length(target);
    assert((seq!['='] + level).drop_first() =~= level);
    lemma_walk_a_level(whole, level, at + 1);
    law_a_boundary_is_between_two_characters(whole, at);
    law_a_boundary_is_between_two_characters(whole, at + 1);
}

/// A span, with a target before it or not, with fields or not, with a level behind it or
/// not, can be parsed if and only if each offset that is sliced at falls between
/// characters of the whole.
pub proof fn law_a_span_is_parsed_where_it_can_be_cut(
    before: Seq<char>,
    target: Seq<char>,
    span: Seq<char>,
    fields: Option<Seq<char>>,
    level: Option<Seq<char>>,
    after: Seq<char>,
)
    requires
        is_blank(before),
        is_blank(after),
        is_tight(target + seq!['['] + span + in_braces(fields) + seq![']'] + at_level(level)),
        target.len() > 0 ==> {
            let c = target[0];
            ||| c as int > 127
            ||| 'a' <= c <= 'z'
            ||| 'A' <= c <= 'Z'
            ||| '0' <= c <= '9'
            ||| c == '-'
            ||| c == '_'
            ||| c == ':'
        },
        forall|i: int|
            0 <= i < target.len() ==> #[trigger] target[i] != '=' && target[i] != '[' && target[i]
                != ',',
        forall|i: int|
            0 <= i < span.len() ==> #[trigger] span[i] != ']' && span[i] != '{' && span[i] != ',',
        fields is Some ==> forall|i: int|
            0 <= i < fields->Some_0.len() ==> #[trigger] fields->Some_0[i] != '}'
                && fields->Some_0[i] != ',',
        level is Some ==> forall|i: int|
            0 <= i < level->Some_0.len() ==> #[trigger] level->Some_0[i] != ',',
    ensures
        ({
            let whole = before + (target + seq!['['] + span + in_braces(fields) + seq![']']
                + at_level(level)) + after;
            let opened = byte_length(target);
            let closed = opened + 1 + byte_length(span);
            sliceable(whole) <==> {
                &&& target.len() > 0 ==> can_be_cut(whole, opened)
                &&& can_be_cut(whole, opened + 1)
                &&& can_be_cut(whole, closed)
                &&& fields is Some ==> {
                    &&& can_be_cut(whole, closed + 1)
                    &&& can_be_cut(whole, closed + 1 + byte_length(fields->Some_0))
                }
                &&& level is Some ==> can_be_cut(
                    whole,
                    closed + 2 + match fields {
                        Some(text) => byte_length(text) + 2,
                        None => 0,
                    },
                )
            }
        }),
{
    let tail = seq![']'] + at_level(level);
    let rest = match fields {
        Some(text) => span + (seq!['{'] + (text + (seq!['}'] + tail))),
        None => span + tail,
    };
    let inner = target + seq!['['] + span + in_braces(fields) + seq![']'] + at_level(level);
    assert(inner =~= target + (seq!['['] + rest));
    let whole = before + inner + after;
    lemma_no_comma(target, span, fields, level);
    lemma_one_directive(before, inner, after);
    law_offsets_are_counted_in_bytes(target);
    law_offsets_are_counted_in_bytes(span);
    let opened = byte_length(target);
    let closed = opened + 1 + byte_length(span);
    if target.len() > 0 {
        assert(target[0] > '\u{7f}' || target[0] as int <= 127);
    }
    lemma_walk_to_a_span(whole, target, rest);
    law_a_boundary_is_between_two_characters(whole, opened);
    law_a_boundary_is_between_two_characters(whole, opened + 1);
    law_a_boundary_is_between_two_characters(whole, closed);
    match fields {
        Some(text) => {
            law_offsets_are_counted_in_bytes(text);
            lemma_walk_a_span_with_fields(whole, span, text, level, opened + 1);
            law_a_boundary_is_between_two_characters(whole, closed + 1);
            law_a_boundary_is_between_two_characters(whole, closed + 1 + byte_length(text));
            law_a_boundary_is_between_two_characters(whole, closed + 2 + (byte_length(text) + 2));
        },
        None => {
            lemma_walk_a_span(whole, span, level, opened + 1);
            law_a_boundary_is_between_two_characters(whole, closed + 2);
        },
    }
}

proof fn lemma_no_comma(
    target: Seq<char>,
    span: Seq<char>,
    fields: Option<Seq<char>>,
    level: Option<Seq<char>>,
)
    requires
        forall|i: int| 0 <= i < target.len() ==> #[trigger] target[i] != ',',
        forall|i: int| 0 <= i < span.len() ==> #[trigger] span[i] != ',',
        fields is Some ==> forall|i: int|
            0 <= i < fields->Some_0.len() ==> #[trigger] fields->Some_0[i] != ',',
        level is Some ==> forall|i: int|
            0 <= i < level->Some_0.len() ==> #[trigger] level->Some_0[i] != ',',
    ensures
        ({
            let inner = target + seq!['['] + span + in_braces(fields) + seq![']'] + at_level(level);
            forall|i: int| 0 <= i < inner.len() ==> #[trigger] inner[i] != ','
        }),
{
    let braced = in_braces(fields);
    let signed = at_level(level);
    assert forall|i: int| 0 <= i < braced.len() implies #[trigger] braced[i] != ',' by {
        if 0 < i < braced.len() - 1 {
            assert(braced[i] == fields->Some_0[i - 1]);
        }
    }
    assert forall|i: int| 0 <= i < signed.len() implies #[trigger] signed[i] != ',' by {
        if i > 0 {
            assert(signed[i] == level->Some_0[i - 1]);
        }
    }
    let inner = target + seq!['['] + span + braced + seq![']'] + signed;
    assert forall|i: int| 0 <= i < inner.len() implies #[trigger] inner[i] != ',' by {
        let a = target.len() as int;
        let b = a + 1 + span.len();
        let c = b + braced.len();
        if i < a {
            assert(inner[i] == target[i]);
        } else if a < i < b {
            assert(inner[i] == span[i - a - 1]);
        } else if b <= i < c {
            assert(inner[i] == braced[i - b]);
        } else if c < i {
            assert(inner[i] == signed[i - c - 1]);
        }
    }
}

/// A name alone is sliced nowhere, and what starts with a sign that no directive starts
/// with is refused before it is: both can be parsed, whatever white space stands around
/// them.
pub proof fn law_a_bare_name_is_parsed(before: Seq<char>, name: Seq<char>, after: Seq<char>)
    requires
        is_blank(before),
        is_blank(after),
        is_tight(name),
        forall|i: int|
            0 <= i < name.len() ==> #[trigger] name[i] != '=' && name[i] != '[' && name[i] != ',',
    ensures
        sliceable(before + name + after),
{
    let whole = before + name + after;
    let none = Seq::<char>::empty();
    let tail = name.drop_first();
    lemma_one_directive(before, name, after);
    assert forall|i: int| 0 <= i < tail.len() implies stays(Place::Name, #[trigger] tail[i]) by {
        assert(tail[i] == name[i + 1]);
    }
    lemma_walk_over(whole, tail, none, width(name[0]), Place::Name, 0);
    assert(tail + none =~= tail);
    assert(name[0] != '[');
}

} // verus!
