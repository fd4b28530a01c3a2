//! Strings as sequences of characters: trimming, splitting and comparing.

use vstd::prelude::*;

verus! {

/// Whether `c` has the Unicode property `White_Space`.
pub open spec fn is_white_space(c: char) -> bool {
    ||| '\u{9}' <= c <= '\u{d}'
    ||| c == ' '
    ||| c == '\u{85}'
    ||| c == '\u{a0}'
    ||| c == '\u{1680}'
    ||| '\u{2000}' <= c <= '\u{200a}'
    ||| '\u{2028}' <= c <= '\u{2029}'
    ||| c == '\u{202f}'
    ||| c == '\u{205f}'
    ||| c == '\u{3000}'
}

/// `s` without the white space it starts with.
pub open spec fn trim_start(s: Seq<char>) -> Seq<char>
    decreases s.len(),
{
    if s.len() > 0 && is_white_space(s[0]) {
        trim_start(s.drop_first())
    } else {
        s
    }
}

/// `s` without the white space it ends in.
pub open spec fn trim_end(s: Seq<char>) -> Seq<char>
    decreases s.len(),
{
    if s.len() > 0 && is_white_space(s.last()) {
        trim_end(s.drop_last())
    } else {
        s
    }
}

/// `s` without white space at either end.
pub open spec fn trimmed(s: Seq<char>) -> Seq<char> {
    trim_end(trim_start(s))
}

/// `s` without the run of `c` it ends in.
pub open spec fn strip_end(s: Seq<char>, c: char) -> Seq<char>
    decreases s.len(),
{
    if s.len() > 0 && s.last() == c {
        strip_end(s.drop_last(), c)
    } else {
        s
    }
}

/// The position of the first `c` in `s`, and the length of `s` when it has none.
pub open spec fn first_index(s: Seq<char>, c: char) -> int
    decreases s.len(),
{
    if s.len() == 0 || s[0] == c {
        0
    } else {
        1 + first_index(s.drop_first(), c)
    }
}

/// The pieces of `s` between the occurrences of `c`, one more than there are occurrences.
pub open spec fn pieces(s: Seq<char>, c: char) -> Seq<Seq<char>>
    decreases s.len(),
{
    let i = first_index(s, c);
    if 0 <= i < s.len() {
        seq![s.take(i)] + pieces(s.skip(i + 1), c)
    } else {
        seq![s]
    }
}

/// Whether `s` ends in `suffix`.
pub open spec fn has_suffix(s: Seq<char>, suffix: Seq<char>) -> bool {
    suffix.len() <= s.len() && s.skip(s.len() - suffix.len()) == suffix
}

/// Whether every character of the text is ASCII.
pub open spec fn is_ascii(text: Seq<char>) -> bool {
    forall|i: int| 0 <= i < text.len() ==> #[trigger] text[i] <= '\u{7f}'
}

/// The characters of each string in `v`.
pub open spec fn texts(v: Seq<&str>) -> Seq<Seq<char>> {
    Seq::new(v.len(), |i: int| v[i]@)
}

/// `first_index` is what its name says.
pub(crate) proof fn lemma_first_index(s: Seq<char>, c: char)
    ensures
        0 <= first_index(s, c) <= s.len(),
        forall|j: int| 0 <= j < first_index(s, c) ==> s[j] != c,
        first_index(s, c) < s.len() ==> s[first_index(s, c)] == c,
    decreases s.len(),
{
    if s.len() > 0 && s[0] != c {
        let rest = s.drop_first();
        lemma_first_index(rest, c);
        assert forall|j: int| 0 <= j < first_index(s, c) implies s[j] != c by {
            if j > 0 {
                assert(s[j] == rest[j - 1]);
            }
        }
    }
}

/// There is only one first position.
pub(crate) proof fn lemma_first_index_unique(s: Seq<char>, c: char, k: int)
    requires
        0 <= k <= s.len(),
        forall|j: int| 0 <= j < k ==> s[j] != c,
        k < s.len() ==> s[k] == c,
    ensures
        first_index(s, c) == k,
{
    lemma_first_index(s, c);
    let i = first_index(s, c);
    if i < k {
        assert(s[i] != c);
    }
}

/// `trim_start` drops exactly the leading white space.
pub(crate) proof fn lemma_trim_start(s: Seq<char>, k: int)
    requires
        0 <= k <= s.len(),
        forall|j: int| 0 <= j < k ==> is_white_space(s[j]),
        k < s.len() ==> !is_white_space(s[k]),
    ensures
        trim_start(s) == s.skip(k),
    decreases s.len(),
{
    if k == 0 {
        assert(s.skip(0) =~= s);
    } else {
        assert(is_white_space(s[0]));
        let rest = s.drop_first();
        assert forall|j: int| 0 <= j < k - 1 implies is_white_space(rest[j]) by {
            assert(rest[j] == s[j + 1]);
        }
        lemma_trim_start(rest, k - 1);
        assert(rest.skip(k - 1) =~= s.skip(k));
    }
}

/// `trim_end` drops exactly the trailing white space.
pub(crate) proof fn lemma_trim_end(s: Seq<char>, k: int)
    requires
        0 <= k <= s.len(),
        forall|j: int| k <= j < s.len() ==> is_white_space(s[j]),
        0 < k ==> !is_white_space(s[k - 1]),
    ensures
        trim_end(s) == s.take(k),
    decreases s.len(),
{
    if k == s.len() {
        assert(s.take(k) =~= s);
    } else {
        assert(is_white_space(s.last()));
        lemma_trim_end(s.drop_last(), k);
        assert(s.drop_last().take(k) =~= s.take(k));
    }
}

/// `strip_end` drops exactly the trailing run.
pub(crate) proof fn lemma_strip_end(s: Seq<char>, c: char, k: int)
    requires
        0 <= k <= s.len(),
        forall|j: int| k <= j < s.len() ==> s[j] == c,
        0 < k ==> s[k - 1] != c,
    ensures
        strip_end(s, c) == s.take(k),
    decreases s.len(),
{
    if k == s.len() {
        assert(s.take(k) =~= s);
    } else {
        lemma_strip_end(s.drop_last(), c, k);
        assert(s.drop_last().take(k) =~= s.take(k));
    }
}

/// A text without `c` is its only piece.
pub(crate) proof fn lemma_one_piece(s: Seq<char>, c: char)
    requires
        forall|j: int| 0 <= j < s.len() ==> s[j] != c,
    ensures
        pieces(s, c) == seq![s],
{
    lemma_first_index_unique(s, c, s.len() as int);
}

/// No piece holds the separator.
pub(crate) proof fn lemma_pieces_hold_no_separator(s: Seq<char>, c: char)
    ensures
        pieces(s, c).len() > 0,
        forall|i: int, j: int|
            0 <= i < pieces(s, c).len() && 0 <= j < pieces(s, c)[i].len() ==> #[trigger] pieces(
                s,
                c,
            )[i][j] != c,
    decreases s.len(),
{
    lemma_first_index(s, c);
    let k = first_index(s, c);
    if k < s.len() {
        let rest = s.skip(k + 1);
        lemma_pieces_hold_no_separator(rest, c);
        let all = pieces(s, c);
        assert forall|i: int, j: int| 0 <= i < all.len() && 0 <= j < all[i].len() implies
            #[trigger] all[i][j] != c by {
            if i > 0 {
                assert(all[i] == pieces(rest, c)[i - 1]);
                assert(pieces(rest, c)[i - 1][j] != c);
            }
        }
    }
}

/// The pieces of two texts joined by the separator are the pieces of both.
pub(crate) proof fn lemma_pieces_of_join(a: Seq<char>, b: Seq<char>, c: char)
    ensures
        pieces(a + seq![c] + b, c) == pieces(a, c) + pieces(b, c),
    decreases a.len(),
{
    let whole = a + seq![c] + b;
    lemma_first_index(a, c);
    let k = first_index(a, c);
    assert(whole[k] == c);
    lemma_first_index_unique(whole, c, k);
    assert(whole.take(k) =~= a.take(k));
    if k < a.len() {
        let rest = a.skip(k + 1);
        assert(whole.skip(k + 1) =~= rest + seq![c] + b);
        lemma_pieces_of_join(rest, b, c);
        assert(seq![a.take(k)] + (pieces(rest, c) + pieces(b, c)) =~= (seq![a.take(k)] + pieces(
            rest,
            c,
        )) + pieces(b, c));
    } else {
        assert(a.take(k) =~= a);
        assert(whole.skip(k + 1) =~= b);
    }
}

/// The characters of `s`, to be reached by position.
pub(crate) fn characters(s: &str) -> (out: Vec<char>)
    ensures
        out@ == s@,
{
    let mut out: Vec<char> = Vec::new();
    for c in it: s.chars()
        invariant
            out@ == s@.take(it.index()),
            it.seq() == s@,
    {
        out.push(c);
    }
    out
}

/// Whether `c` is white space.
pub(crate) fn white_space(c: char) -> (r: bool)
    ensures
        r == is_white_space(c),
{
    ('\u{9}' <= c && c <= '\u{d}') || c == ' ' || c == '\u{85}' || c == '\u{a0}' || c == '\u{1680}'
        || ('\u{2000}' <= c && c <= '\u{200a}') || ('\u{2028}' <= c && c <= '\u{2029}') || c
        == '\u{202f}' || c == '\u{205f}' || c == '\u{3000}'
}

/// Whether every character of the text is ASCII.
pub(crate) fn only_ascii(text: &str) -> (r: bool)
    ensures
        r == is_ascii(text@),
{
    let cs = characters(text);
    let mut i: usize = 0;
    while i < cs.len()
        invariant
            cs@ == text@,
            i <= cs.len(),
            forall|j: int| 0 <= j < i ==> #[trigger] text@[j] <= '\u{7f}',
        decreases cs.len() - i,
    {
        if cs[i] > '\u{7f}' {
            assert(text@[i as int] > '\u{7f}');
            return false;
        }
        i += 1;
    }
    true
}

/// `s` without white space at either end.
pub(crate) fn trim(s: &str) -> (r: &str)
    ensures
        r@ == trimmed(s@),
{
    let cs = characters(s);
    let mut from: usize = 0;
    while from < cs.len() && white_space(cs[from])
        invariant
            cs@ == s@,
            from <= cs.len(),
            forall|j: int| 0 <= j < from ==> is_white_space(s@[j]),
        decreases cs.len() - from,
    {
        from += 1;
    }
    let mut to: usize = cs.len();
    while from < to && white_space(cs[to - 1])
        invariant
            cs@ == s@,
            from <= to <= cs.len(),
            forall|j: int| to <= j < cs.len() ==> is_white_space(s@[j]),
        decreases to,
    {
        to -= 1;
    }
    proof {
        lemma_trim_start(s@, from as int);
        let rest = s@.skip(from as int);
        lemma_trim_end(rest, to - from);
        assert(rest.take(to - from) =~= s@.subrange(from as int, to as int));
    }
    s.substring_char(from, to)
}

/// `s` without the run of `c` it ends in.
pub(crate) fn trim_end_matches(s: &str, c: char) -> (r: &str)
    ensures
        r@ == strip_end(s@, c),
{
    let cs = characters(s);
    let mut to: usize = cs.len();
    while 0 < to && cs[to - 1] == c
        invariant
            cs@ == s@,
            to <= cs.len(),
            forall|j: int| to <= j < cs.len() ==> s@[j] == c,
        decreases to,
    {
        to -= 1;
    }
    proof {
        lemma_strip_end(s@, c, to as int);
    }
    s.substring_char(0, to)
}

/// The pieces of `s` between the occurrences of `c`.
pub(crate) fn split(s: &str, c: char) -> (out: Vec<&str>)
    ensures
        texts(out@) == pieces(s@, c),
{
    let cs = characters(s);
    let mut out: Vec<&str> = Vec::new();
    let mut start: usize = 0;
    let mut i: usize = 0;
    assert(s@.skip(0) =~= s@);
    while i < cs.len()
        invariant
            cs@ == s@,
            start <= i <= cs.len(),
            forall|j: int| start <= j < i ==> s@[j] != c,
            pieces(s@, c) == texts(out@) + pieces(s@.skip(start as int), c),
        decreases cs.len() - i,
    {
        if cs[i] == c {
            let ghost rest = s@.skip(start as int);
            let ghost before = texts(out@);
            let ghost piece = rest.take(i - start);
            proof {
                lemma_first_index_unique(rest, c, i - start);
                assert(piece =~= s@.subrange(start as int, i as int));
                assert(rest.skip(i - start + 1) =~= s@.skip(i + 1));
            }
            out.push(s.substring_char(start, i));
            start = i + 1;
            assert(texts(out@) =~= before + seq![piece]);
            assert(before + (seq![piece] + pieces(s@.skip(i + 1), c)) =~= (before + seq![piece])
                + pieces(s@.skip(i + 1), c));
        }
        i += 1;
    }
    let ghost rest = s@.skip(start as int);
    let ghost before = texts(out@);
    proof {
        lemma_first_index_unique(rest, c, rest.len() as int);
        assert(rest =~= s@.subrange(start as int, s@.len() as int));
    }
    out.push(s.substring_char(start, cs.len()));
    assert(texts(out@) =~= before + seq![rest]);
    out
}

/// The position of the first `c` in `s`.
pub(crate) fn find(s: &str, c: char) -> (r: Option<usize>)
    ensures
        match r {
            Some(i) => i == first_index(s@, c) && i < s@.len(),
            None => first_index(s@, c) == s@.len(),
        },
{
    let cs = characters(s);
    let mut i: usize = 0;
    while i < cs.len()
        invariant
            cs@ == s@,
            i <= cs.len(),
            forall|j: int| 0 <= j < i ==> s@[j] != c,
        decreases cs.len() - i,
    {
        if cs[i] == c {
            proof {
                lemma_first_index_unique(s@, c, i as int);
            }
            return Some(i);
        }
        i += 1;
    }
    proof {
        lemma_first_index_unique(s@, c, i as int);
    }
    None
}

/// Whether `a` and `b` are the same text.
pub(crate) fn same(a: &str, b: &str) -> (r: bool)
    ensures
        r == (a@ == b@),
{
    a.to_owned() == b.to_owned()
}

/// Whether `s` ends in `suffix`.
pub(crate) fn ends_with(s: &str, suffix: &str) -> (r: bool)
    ensures
        r == has_suffix(s@, suffix@),
{
    let n = s.unicode_len();
    let m = suffix.unicode_len();
    if m > n {
        return false;
    }
    assert(s@.skip(n - m) =~= s@.subrange(n - m, n as int));
    same(s.substring_char(n - m, n), suffix)
}

/// The two texts one after the other.
pub(crate) fn concat(a: &str, b: &str) -> (r: String)
    ensures
        r@ == a@ + b@,
{
    let mut out = a.to_owned();
    out.append(b);
    out
}

/// Whether a text is white space throughout.
pub open spec fn is_blank(s: Seq<char>) -> bool {
    forall|i: int| 0 <= i < s.len() ==> is_white_space(#[trigger] s[i])
}

/// Whether a text holds something, with no white space at either end.
pub open spec fn is_tight(s: Seq<char>) -> bool {
    s.len() > 0 && !is_white_space(s[0]) && !is_white_space(s.last())
}

/// `n` times the character.
pub open spec fn repeated(c: char, n: nat) -> Seq<char> {
    Seq::new(n, |i: int| c)
}

/// Trimming takes the white space at both ends and nothing else, whatever stands between.
pub proof fn law_trimming_takes_what_surrounds(
    before: Seq<char>,
    text: Seq<char>,
    after: Seq<char>,
)
    requires
        is_blank(before),
        is_blank(after),
        text.len() == 0 || is_tight(text),
    ensures
        trimmed(before + text + after) == text,
{
    let s = before + text + after;
    if text.len() == 0 {
        assert forall|j: int| 0 <= j < s.len() implies is_white_space(s[j]) by {
            if j < before.len() {
                assert(s[j] == before[j]);
            } else {
                assert(s[j] == after[j - before.len()]);
            }
        }
        lemma_trim_start(s, s.len() as int);
        assert(trimmed(s) =~= text);
    } else {
        let k = before.len() as int;
        assert forall|j: int| 0 <= j < k implies is_white_space(s[j]) by {
            assert(s[j] == before[j]);
        }
        assert(s[k] == text[0]);
        lemma_trim_start(s, k);
        let rest = s.skip(k);
        assert(rest =~= text + after);
        assert forall|j: int| text.len() <= j < rest.len() implies is_white_space(rest[j]) by {
            assert(rest[j] == after[j - text.len()]);
        }
        assert(rest[text.len() - 1] == text.last());
        lemma_trim_end(rest, text.len() as int);
        assert(rest.take(text.len() as int) =~= text);
    }
}

/// A trimmed text has no white space at either end, and what was taken is white space.
pub proof fn law_trimming_leaves_nothing_to_trim(s: Seq<char>) -> (r: (Seq<char>, Seq<char>))
    ensures
        trimmed(s).len() == 0 || is_tight(trimmed(s)),
        is_blank(r.0),
        is_blank(r.1),
        s == r.0 + trimmed(s) + r.1,
{
    let before = lemma_trimmed_start(s);
    let rest = trim_start(s);
    let after = lemma_trimmed_end(rest);
    assert(s =~= before + trimmed(s) + after);
    if trimmed(s).len() > 0 {
        assert(trimmed(s)[0] == rest[0]);
    }
    (before, after)
}

proof fn lemma_trimmed_start(s: Seq<char>) -> (before: Seq<char>)
    ensures
        is_blank(before),
        s == before + trim_start(s),
        trim_start(s).len() > 0 ==> !is_white_space(trim_start(s)[0]),
    decreases s.len(),
{
    if s.len() > 0 && is_white_space(s[0]) {
        let more = lemma_trimmed_start(s.drop_first());
        let before = seq![s[0]] + more;
        let rest = trim_start(s.drop_first());
        assert(trim_start(s) == rest);
        assert(s =~= seq![s[0]] + s.drop_first());
        assert(seq![s[0]] + (more + rest) =~= before + rest);
        assert forall|i: int| 0 <= i < before.len() implies is_white_space(
            #[trigger] before[i],
        ) by {
            if i > 0 {
                assert(before[i] == more[i - 1]);
            }
        }
        before
    } else {
        assert(s =~= Seq::<char>::empty() + s);
        Seq::empty()
    }
}

proof fn lemma_trimmed_end(s: Seq<char>) -> (after: Seq<char>)
    ensures
        is_blank(after),
        s == trim_end(s) + after,
        trim_end(s).len() > 0 ==> !is_white_space(trim_end(s).last()),
    decreases s.len(),
{
    if s.len() > 0 && is_white_space(s.last()) {
        let more = lemma_trimmed_end(s.drop_last());
        let after = more.push(s.last());
        let rest = trim_end(s.drop_last());
        assert(trim_end(s) == rest);
        assert(s =~= s.drop_last().push(s.last()));
        assert((rest + more).push(s.last()) =~= rest + after);
        after
    } else {
        assert(s =~= s + Seq::<char>::empty());
        Seq::empty()
    }
}

/// Splitting is undone by joining: a text without the separator is its one piece, and the
/// pieces of two texts with the separator between them are those of the first and then
/// those of the second.
pub proof fn law_splitting_follows_the_separators(a: Seq<char>, b: Seq<char>, c: char)
    ensures
        (forall|i: int| 0 <= i < a.len() ==> a[i] != c) ==> pieces(a, c) == seq![a],
        pieces(a + seq![c] + b, c) == pieces(a, c) + pieces(b, c),
{
    if forall|i: int| 0 <= i < a.len() ==> a[i] != c {
        lemma_one_piece(a, c);
    }
    lemma_pieces_of_join(a, b, c);
}

/// The run of a character at the end goes, however long it is, and nothing else.
pub proof fn law_a_run_at_the_end_goes(s: Seq<char>, c: char, n: nat)
    requires
        s.len() > 0 ==> s.last() != c,
    ensures
        strip_end(s + repeated(c, n), c) == s,
{
    let long = s + repeated(c, n);
    lemma_strip_end(long, c, s.len() as int);
    assert(long.take(s.len() as int) =~= s);
}

/// A text ends in what was put behind it, and in nothing that was not.
pub proof fn law_a_suffix_is_what_stands_last(a: Seq<char>, b: Seq<char>, s: Seq<char>)
    ensures
        has_suffix(a + b, b),
        has_suffix(s, b) ==> s == s.take(s.len() - b.len()) + b,
{
    assert((a + b).skip(a.len() as int) =~= b);
    if has_suffix(s, b) {
        assert(s =~= s.take(s.len() - b.len()) + s.skip(s.len() - b.len()));
    }
}

/// White space is what Unicode gives that property: of ASCII the five controls from the
/// tab on and the space, and nineteen characters beyond.
pub proof fn law_white_space_is_a_property_of_unicode(c: char)
    ensures
        c < '!' ==> (is_white_space(c) <==> 9 <= c as int <= 13 || c as int == 32),
        '!' <= c <= '~' ==> !is_white_space(c),
        c > '~' ==> (is_white_space(c) <==> set![
            0x85int,
            0xa0,
            0x1680,
            0x2000,
            0x2001,
            0x2002,
            0x2003,
            0x2004,
            0x2005,
            0x2006,
            0x2007,
            0x2008,
            0x2009,
            0x200a,
            0x2028,
            0x2029,
            0x202f,
            0x205f,
            0x3000,
        ].contains(c as int)),
{
}

} // verus!
