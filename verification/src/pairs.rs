//! `key=value,key=value`, the encoding that the headers and the resource
//! attributes of an exporter are configured in.

use vstd::prelude::*;

use crate::error::{Error, Failure};
use crate::string_map::pair_texts;
use crate::text::{
    find, first_index, is_blank, is_tight, is_white_space, law_trimming_leaves_nothing_to_trim,
    law_trimming_takes_what_surrounds, lemma_first_index, lemma_first_index_unique,
    lemma_one_piece, lemma_pieces_of_join, pieces, split, texts, trim, trim_start, trimmed,
};

verus! {

/// Whether every character of `text` is printable ASCII and none is a quote or a
/// backslash: quoting such a text escapes nothing.
pub open spec fn is_plain(text: Seq<char>) -> bool {
    forall|i: int|
        0 <= i < text.len() ==> {
            let c = #[trigger] text[i];
            ' ' <= c <= '~' && c != '"' && c != '\'' && c != '\\'
        }
}

/// What `{:?}` prints for a text that holds something to escape.
pub uninterp spec fn escaped(text: Seq<char>) -> Seq<char>;

/// A text in quotes, as a message shows it.
pub open spec fn quoted(text: Seq<char>) -> Seq<char> {
    if is_plain(text) {
        seq!['"'] + text + seq!['"']
    } else {
        escaped(text)
    }
}

/// `{:?}` of std's `Debug` for `str`.
///
/// Claimed of it: a text of printable ASCII without quotes and backslashes comes
/// out between two quotes and otherwise unchanged; what comes out of any other
/// text depends on that text alone.
#[verifier::external_body]
pub(crate) fn quote(text: &str) -> (r: String)
    ensures
        r@ == (if is_plain(text@) {
            seq!['"'] + text@ + seq!['"']
        } else {
            escaped(text@)
        }),
{
    format!("{text:?}")
}

/// The entries of a list: the pieces between commas, trimmed, the blank ones left
/// out.
pub open spec fn entries(list: Seq<Seq<char>>) -> Seq<Seq<char>>
    decreases list.len(),
{
    if list.len() == 0 {
        Seq::empty()
    } else {
        let front = entries(list.drop_last());
        let entry = trimmed(list.last());
        if entry.len() == 0 {
            front
        } else {
            front.push(entry)
        }
    }
}

/// The message for an entry without a separator.
pub open spec fn no_separator(source: Seq<char>, entry: Seq<char>) -> Seq<char> {
    source + " is key=value,key=value; "@ + quoted(entry) + " has no '='"@
}

/// The message for an entry without a key.
pub open spec fn no_key(source: Seq<char>) -> Seq<char> {
    source + " has an entry with no key"@
}

/// The pair that an entry spells: the first `=` separates, since a value may hold
/// one itself.
pub open spec fn pair_of(entry: Seq<char>, source: Seq<char>) -> Result<
    (Seq<char>, Seq<char>),
    Failure,
> {
    let i = first_index(entry, '=');
    if i >= entry.len() {
        Err(Failure::Config(no_separator(source, entry)))
    } else if trimmed(entry.take(i)).len() == 0 {
        Err(Failure::Config(no_key(source)))
    } else {
        Ok((trimmed(entry.take(i)), trimmed(entry.skip(i + 1))))
    }
}

/// The pairs that the entries spell, or what is wrong with the first that spells
/// none.
pub open spec fn pairs_of(entries: Seq<Seq<char>>, source: Seq<char>) -> Result<
    Seq<(Seq<char>, Seq<char>)>,
    Failure,
>
    decreases entries.len(),
{
    if entries.len() == 0 {
        Ok(Seq::empty())
    } else {
        match pairs_of(entries.drop_last(), source) {
            Err(e) => Err(e),
            Ok(front) => match pair_of(entries.last(), source) {
                Err(e) => Err(e),
                Ok(pair) => Ok(front.push(pair)),
            },
        }
    }
}

/// What `raw` spells.
pub open spec fn parsed(raw: Seq<char>, source: Seq<char>) -> Result<
    Seq<(Seq<char>, Seq<char>)>,
    Failure,
> {
    pairs_of(entries(pieces(raw, ',')), source)
}

proof fn lemma_first_error_wins(list: Seq<Seq<char>>, source: Seq<char>, k: int)
    requires
        0 <= k <= list.len(),
        pairs_of(entries(list.take(k)), source) is Err,
    ensures
        pairs_of(entries(list), source) == pairs_of(entries(list.take(k)), source),
    decreases list.len(),
{
    if k == list.len() {
        assert(list.take(k) =~= list);
    } else {
        let front = list.drop_last();
        assert(front.take(k) =~= list.take(k));
        lemma_first_error_wins(front, source, k);
        if trimmed(list.last()).len() > 0 {
            assert(entries(list).drop_last() =~= entries(front));
        }
    }
}

/// Reads `key=value,key=value`.
///
/// An entry with no `=` is an error rather than a silent skip: a header that was
/// meant to be sent and was not is the hardest kind of misconfiguration to see
/// from the outside.
pub fn parse_pairs(raw: &str, source: &str) -> (r: Result<Vec<(String, String)>, Error>)
    ensures
        match r {
            Ok(pairs) => parsed(raw@, source@) == Ok::<_, Failure>(pair_texts(pairs@)),
            Err(e) => parsed(raw@, source@) == Err::<Seq<(Seq<char>, Seq<char>)>, _>(e@),
        },
{
    let items = split(raw, ',');
    let ghost all = texts(items@);
    let mut pairs: Vec<(String, String)> = Vec::new();
    let mut i: usize = 0;
    assert(all.take(0) =~= Seq::empty());
    assert(pair_texts(pairs@) =~= Seq::empty());
    while i < items.len()
        invariant
            all == texts(items@),
            all == pieces(raw@, ','),
            i <= items.len(),
            pairs_of(entries(all.take(i as int)), source@) == Ok::<_, Failure>(pair_texts(pairs@)),
        decreases items.len() - i,
    {
        let ghost upto = all.take(i + 1);
        assert(upto.drop_last() =~= all.take(i as int));
        assert(upto.last() == items[i as int]@);
        let entry = trim(items[i]);
        let n = entry.unicode_len();
        if n > 0 {
            proof {
                assert(entries(upto).drop_last() =~= entries(all.take(i as int)));
                assert(entries(upto).last() == entry@);
                lemma_first_index(entry@, '=');
            }
            match find(entry, '=') {
                None => {
                    let mut message = source.to_owned();
                    message.append(" is key=value,key=value; ");
                    message.append(quote(entry).as_str());
                    message.append(" has no '='");
                    let error = Error::Config(message);
                    proof {
                        lemma_first_error_wins(all, source@, i + 1);
                    }
                    return Err(error);
                },
                Some(at) => {
                    assert(entry@.take(at as int) =~= entry@.subrange(0, at as int));
                    assert(entry@.skip(at + 1) =~= entry@.subrange(at + 1, n as int));
                    let key = trim(entry.substring_char(0, at));
                    if key.unicode_len() == 0 {
                        let mut message = source.to_owned();
                        message.append(" has an entry with no key");
                        let error = Error::Config(message);
                        proof {
                            lemma_first_error_wins(all, source@, i + 1);
                        }
                        return Err(error);
                    }
                    let value = trim(entry.substring_char(at + 1, n));
                    let ghost before = pair_texts(pairs@);
                    pairs.push((key.to_owned(), value.to_owned()));
                    assert(pair_texts(pairs@) =~= before.push((key@, value@)));
                },
            }
        }
        i += 1;
    }
    assert(all.take(i as int) =~= all);
    Ok(pairs)
}

/// Only the first `=` separates: a value may hold more of them.
pub proof fn law_only_the_first_separator_counts(
    key: Seq<char>,
    value: Seq<char>,
    source: Seq<char>,
)
    requires
        trimmed(key).len() > 0,
        forall|i: int| 0 <= i < key.len() ==> key[i] != '=',
    ensures
        pair_of(key + seq!['='] + value, source) == Ok::<_, Failure>(
            (trimmed(key), trimmed(value)),
        ),
{
    let entry = key + seq!['='] + value;
    lemma_first_index_unique(entry, '=', key.len() as int);
    assert(entry.take(key.len() as int) =~= key);
    assert(entry.skip(key.len() as int + 1) =~= value);
}

/// A list is read entry by entry: into the pair that each spells, or into what is
/// wrong with the first that spells none.
pub proof fn law_the_first_bad_entry_is_reported(raw: Seq<char>, source: Seq<char>)
    ensures
        match parsed(raw, source) {
            Ok(pairs) => {
                let read = entries(pieces(raw, ','));
                &&& pairs.len() == read.len()
                &&& forall|i: int|
                    0 <= i < read.len() ==> pair_of(#[trigger] read[i], source) == Ok::<_, Failure>(
                        pairs[i],
                    )
            },
            Err(failure) => exists|i: int|
                first_bad(entries(pieces(raw, ',')), source, i, failure),
        },
{
    lemma_first_bad(entries(pieces(raw, ',')), source);
}

/// Whether entry `i` is the first that spells no pair, and `failure` says why.
pub open spec fn first_bad(
    read: Seq<Seq<char>>,
    source: Seq<char>,
    i: int,
    failure: Failure,
) -> bool {
    &&& 0 <= i < read.len()
    &&& pair_of(read[i], source) == Err::<(Seq<char>, Seq<char>), _>(failure)
    &&& forall|j: int| 0 <= j < i ==> pair_of(#[trigger] read[j], source) is Ok
}

proof fn lemma_first_bad(read: Seq<Seq<char>>, source: Seq<char>)
    ensures
        match pairs_of(read, source) {
            Ok(pairs) => {
                &&& pairs.len() == read.len()
                &&& forall|i: int|
                    0 <= i < read.len() ==> pair_of(#[trigger] read[i], source) == Ok::<_, Failure>(
                        pairs[i],
                    )
            },
            Err(failure) => exists|i: int| first_bad(read, source, i, failure),
        },
    decreases read.len(),
{
    if read.len() > 0 {
        let front = read.drop_last();
        lemma_first_bad(front, source);
        match pairs_of(front, source) {
            Err(failure) => {
                let i = choose|i: int| first_bad(front, source, i, failure);
                assert forall|j: int| 0 <= j < i implies pair_of(
                    #[trigger] read[j],
                    source,
                ) is Ok by {
                    assert(front[j] == read[j]);
                }
                assert(first_bad(read, source, i, failure));
            },
            Ok(pairs) => {
                assert forall|j: int| 0 <= j < front.len() implies pair_of(
                    #[trigger] read[j],
                    source,
                ) == Ok::<_, Failure>(pairs[j]) by {
                    assert(front[j] == read[j]);
                }
                if pair_of(read.last(), source) is Err {
                    assert(first_bad(
                        read,
                        source,
                        read.len() - 1,
                        pair_of(read.last(), source)->Err_0,
                    ));
                }
            },
        }
    }
}

/// The refusal of an entry without a separator names the entry and where it was read.
pub proof fn law_a_refusal_names_the_entry(source: Seq<char>, entry: Seq<char>)
    requires
        is_plain(entry),
    ensures
        no_separator(source, entry).take(source.len() as int) == source,
        exists|at: int|
            0 <= at <= no_separator(source, entry).len() - entry.len() && #[trigger] no_separator(
                source,
                entry,
            ).subrange(at, at + entry.len()) == entry,
{
    let message = no_separator(source, entry);
    let at: int = source.len() + " is key=value,key=value; "@.len() + 1int;
    assert(message.take(source.len() as int) =~= source);
    assert(message.subrange(at, at + entry.len()) =~= entry);
}

/// Whether a pair can be written in a list and read back: no space around the key or
/// the value, no comma in them, a key, and no `=` in the key.
pub open spec fn writable(pair: (Seq<char>, Seq<char>)) -> bool {
    &&& pair.0.len() > 0
    &&& !is_white_space(pair.0[0]) && !is_white_space(pair.0.last())
    &&& pair.1.len() > 0 ==> !is_white_space(pair.1[0]) && !is_white_space(pair.1.last())
    &&& forall|i: int| 0 <= i < pair.0.len() ==> pair.0[i] != '=' && pair.0[i] != ','
    &&& forall|i: int| 0 <= i < pair.1.len() ==> pair.1[i] != ','
}

/// The pairs as a list: `key=value,key=value`.
pub open spec fn written(pairs: Seq<(Seq<char>, Seq<char>)>) -> Seq<char>
    decreases pairs.len(),
{
    if pairs.len() == 0 {
        Seq::empty()
    } else {
        let front = if pairs.len() == 1 {
            Seq::empty()
        } else {
            written(pairs.drop_last()) + seq![',']
        };
        front + pairs.last().0 + seq!['='] + pairs.last().1
    }
}

/// What is written in a list is read back from it.
pub proof fn law_written_pairs_are_read_back(
    pairs: Seq<(Seq<char>, Seq<char>)>,
    source: Seq<char>,
)
    requires
        forall|i: int| 0 <= i < pairs.len() ==> writable(#[trigger] pairs[i]),
    ensures
        parsed(written(pairs), source) == Ok::<_, Failure>(pairs),
    decreases pairs.len(),
{
    reveal_with_fuel(entries, 2);
    reveal_with_fuel(pairs_of, 2);
    let none = Seq::<char>::empty();
    if pairs.len() == 0 {
        lemma_one_piece(none, ',');
        assert(pieces(none, ',').drop_last() =~= Seq::empty());
        assert(trimmed(none) =~= none);
        assert(entries(pieces(none, ',')) =~= Seq::empty());
        assert(parsed(written(pairs), source) == Ok::<_, Failure>(pairs)) by {
            assert(pairs =~= Seq::empty());
        }
    } else {
        let front = pairs.drop_last();
        let (key, value) = pairs.last();
        assert forall|i: int| 0 <= i < front.len() implies writable(#[trigger] front[i]) by {
            assert(front[i] == pairs[i]);
        }
        law_written_pairs_are_read_back(front, source);
        assert(writable(pairs[pairs.len() - 1]));
        let entry = key + seq!['='] + value;
        lemma_one_piece(entry, ',');
        let all = pieces(written(pairs), ',');
        if pairs.len() == 1 {
            assert(written(pairs) =~= entry);
            assert(all.drop_last() =~= Seq::empty());
            assert(entries(all.drop_last()) =~= Seq::empty());
            assert(front =~= Seq::empty());
        } else {
            lemma_pieces_of_join(written(front), entry, ',');
            assert(written(pairs) =~= written(front) + seq![','] + entry);
            assert(all.drop_last() =~= pieces(written(front), ','));
        }
        assert(all.last() == entry);
        lemma_already_trimmed(entry);
        lemma_already_trimmed(key);
        lemma_already_trimmed(value);
        law_only_the_first_separator_counts(key, value, source);
        assert(entries(all).drop_last() =~= entries(all.drop_last()));
        assert(front.push((key, value)) =~= pairs);
    }
}

proof fn lemma_already_trimmed(s: Seq<char>)
    requires
        s.len() > 0 ==> !is_white_space(s[0]) && !is_white_space(s.last()),
    ensures
        trimmed(s) == s,
{
    assert(trim_start(s) == s);
}

proof fn lemma_entries_of_both(a: Seq<Seq<char>>, b: Seq<Seq<char>>)
    ensures
        entries(a + b) == entries(a) + entries(b),
    decreases b.len(),
{
    if b.len() == 0 {
        assert(a + b =~= a);
        assert(entries(a) + entries(b) =~= entries(a));
    } else {
        lemma_entries_of_both(a, b.drop_last());
        assert((a + b).drop_last() =~= a + b.drop_last());
        assert((a + b).last() == b.last());
        assert(entries(a + b) =~= entries(a) + entries(b));
    }
}

proof fn lemma_pairs_of_both(a: Seq<Seq<char>>, b: Seq<Seq<char>>, source: Seq<char>)
    ensures
        pairs_of(a + b, source) == joined(pairs_of(a, source), pairs_of(b, source)),
    decreases b.len(),
{
    if b.len() == 0 {
        assert(a + b =~= a);
        if pairs_of(a, source) is Ok {
            let pairs = pairs_of(a, source)->Ok_0;
            assert(pairs + Seq::empty() =~= pairs);
        }
    } else {
        lemma_pairs_of_both(a, b.drop_last(), source);
        assert((a + b).drop_last() =~= a + b.drop_last());
        assert((a + b).last() == b.last());
        if pairs_of(a, source) is Ok && pairs_of(b, source) is Ok {
            let front = pairs_of(a, source)->Ok_0;
            let back = pairs_of(b.drop_last(), source)->Ok_0;
            let pair = pair_of(b.last(), source)->Ok_0;
            assert((front + back).push(pair) =~= front + back.push(pair));
        }
    }
}

/// The pairs of one list behind those of another, or what is wrong with the first that
/// could not be read.
spec fn joined(
    first: Result<Seq<(Seq<char>, Seq<char>)>, Failure>,
    second: Result<Seq<(Seq<char>, Seq<char>)>, Failure>,
) -> Result<Seq<(Seq<char>, Seq<char>)>, Failure> {
    match (first, second) {
        (Ok(a), Ok(b)) => Ok(a + b),
        (Err(e), _) => Err(e),
        (_, Err(e)) => Err(e),
    }
}

/// Two lists with a comma between them are read as the pairs of the first and then those
/// of the second; a first that cannot be read is refused as it would be alone, and so is a
/// second behind a first that can.
pub proof fn law_a_list_is_read_from_front_to_back(
    a: Seq<char>,
    b: Seq<char>,
    source: Seq<char>,
)
    ensures
        match (parsed(a, source), parsed(b, source)) {
            (Ok(x), Ok(y)) => parsed(a + seq![','] + b, source) == Ok::<_, Failure>(x + y),
            (Err(e), _) => parsed(a + seq![','] + b, source) == Err::<
                Seq<(Seq<char>, Seq<char>)>,
                _,
            >(e),
            (Ok(_), Err(e)) => parsed(a + seq![','] + b, source) == Err::<
                Seq<(Seq<char>, Seq<char>)>,
                _,
            >(e),
        },
{
    lemma_pieces_of_join(a, b, ',');
    lemma_entries_of_both(pieces(a, ','), pieces(b, ','));
    lemma_pairs_of_both(entries(pieces(a, ',')), entries(pieces(b, ',')), source);
}

/// Every piece of a list that is not blank is an entry, however long, without the white
/// space around it and in its place; a blank one is none.
pub proof fn law_every_piece_that_is_not_blank_is_an_entry(
    front: Seq<Seq<char>>,
    before: Seq<char>,
    text: Seq<char>,
    after: Seq<char>,
    back: Seq<Seq<char>>,
)
    requires
        is_blank(before),
        is_blank(after),
    ensures
        is_tight(text) ==> entries(front + seq![before + text + after] + back) == entries(front)
            + seq![text] + entries(back),
        entries(front + seq![before] + back) == entries(front) + entries(back),
        entries(front + back) == entries(front) + entries(back),
        entries(Seq::empty()) == Seq::<Seq<char>>::empty(),
{
    let none = Seq::<char>::empty();
    reveal_with_fuel(entries, 2);
    lemma_entries_of_both(front, back);
    if is_tight(text) {
        let piece = seq![before + text + after];
        law_trimming_takes_what_surrounds(before, text, after);
        assert(piece.drop_last() =~= Seq::empty());
        assert(entries(piece) =~= seq![text]);
        lemma_entries_of_both(front, piece);
        lemma_entries_of_both(front + piece, back);
    }
    let blank = seq![before];
    law_trimming_takes_what_surrounds(before, none, none);
    assert(before + none + none =~= before);
    assert(blank.drop_last() =~= Seq::empty());
    assert(entries(blank) =~= Seq::empty());
    lemma_entries_of_both(front, blank);
    lemma_entries_of_both(front + blank, back);
    assert(entries(front) + entries(blank) =~= entries(front));
}

proof fn lemma_one_entry(before: Seq<char>, text: Seq<char>, after: Seq<char>, source: Seq<char>)
    requires
        is_blank(before),
        is_blank(after),
        is_tight(text),
        forall|i: int| 0 <= i < text.len() ==> #[trigger] text[i] != ',',
    ensures
        parsed(before + text + after, source) == (match pair_of(text, source) {
            Ok(pair) => Ok::<_, Failure>(seq![pair]),
            Err(e) => Err(e),
        }),
{
    reveal_with_fuel(entries, 2);
    reveal_with_fuel(pairs_of, 2);
    let raw = before + text + after;
    assert forall|i: int| 0 <= i < raw.len() implies #[trigger] raw[i] != ',' by {
        if i < before.len() {
            assert(raw[i] == before[i]);
        } else if i < before.len() + text.len() {
            assert(raw[i] == text[i - before.len()]);
        } else {
            assert(raw[i] == after[i - before.len() - text.len()]);
        }
    }
    lemma_one_piece(raw, ',');
    law_trimming_takes_what_surrounds(before, text, after);
    let all = pieces(raw, ',');
    assert(all.drop_last() =~= Seq::empty());
    assert(entries(all) =~= seq![text]);
    assert(entries(all).drop_last() =~= Seq::empty());
    if pair_of(text, source) is Ok {
        let pair = pair_of(text, source)->Ok_0;
        assert(Seq::empty().push(pair) =~= seq![pair]);
    }
}

/// One entry spells its pair whatever white space stands around the key and the value, and
/// whatever `=` the value holds.
pub proof fn law_padding_does_not_show_in_an_entry(
    pads: (Seq<char>, Seq<char>, Seq<char>, Seq<char>),
    key: Seq<char>,
    value: Seq<char>,
    source: Seq<char>,
)
    requires
        is_blank(pads.0) && is_blank(pads.1) && is_blank(pads.2) && is_blank(pads.3),
        is_tight(key),
        forall|i: int| 0 <= i < key.len() ==> #[trigger] key[i] != '=' && key[i] != ',',
        value.len() == 0 || is_tight(value),
        forall|i: int| 0 <= i < value.len() ==> #[trigger] value[i] != ',',
    ensures
        parsed(pads.0 + key + pads.1 + seq!['='] + pads.2 + value + pads.3, source) == Ok::<
            _,
            Failure,
        >(seq![(key, value)]),
{
    let none = Seq::<char>::empty();
    let left = key + pads.1;
    let right = if value.len() == 0 {
        none
    } else {
        pads.2 + value
    };
    let after = if value.len() == 0 {
        pads.2 + pads.3
    } else {
        pads.3
    };
    let text = left + seq!['='] + right;
    let raw = pads.0 + key + pads.1 + seq!['='] + pads.2 + value + pads.3;
    assert(raw =~= pads.0 + text + after);
    assert forall|i: int| 0 <= i < left.len() implies left[i] != '=' && left[i] != ',' by {
        if i < key.len() {
            assert(left[i] == key[i]);
        } else {
            assert(left[i] == pads.1[i - key.len()]);
        }
    }
    assert forall|i: int| 0 <= i < right.len() implies right[i] != ',' by {
        if i < pads.2.len() {
            assert(right[i] == pads.2[i]);
        } else {
            assert(right[i] == value[i - pads.2.len()]);
        }
    }
    assert forall|i: int| 0 <= i < text.len() implies #[trigger] text[i] != ',' by {
        if i < left.len() {
            assert(text[i] == left[i]);
        } else if i > left.len() {
            assert(text[i] == right[i - left.len() - 1]);
        }
    }
    assert forall|i: int| 0 <= i < after.len() implies is_white_space(#[trigger] after[i]) by {
        if value.len() == 0 && i < pads.2.len() {
            assert(after[i] == pads.2[i]);
        } else if value.len() == 0 {
            assert(after[i] == pads.3[i - pads.2.len()]);
        }
    }
    assert(text[0] == key[0]);
    if value.len() > 0 {
        assert(text.last() == value.last());
    }
    lemma_one_entry(pads.0, text, after, source);
    assert(left =~= none + key + pads.1);
    law_trimming_takes_what_surrounds(none, key, pads.1);
    if value.len() > 0 {
        assert(right =~= pads.2 + value + none);
        law_trimming_takes_what_surrounds(pads.2, value, none);
    } else {
        assert(trimmed(right) == none);
        assert(value =~= none);
    }
    law_only_the_first_separator_counts(left, right, source);
}

/// A blank piece of a list holds no pair and is not refused; one that is not blank and has
/// no `=`, and one with nothing but white space before its first `=`, are refused, each in
/// its own words.
pub proof fn law_what_is_no_pair_is_refused(
    before: Seq<char>,
    text: Seq<char>,
    after: Seq<char>,
    source: Seq<char>,
)
    requires
        is_blank(before),
        is_blank(after),
        forall|i: int| 0 <= i < text.len() ==> #[trigger] text[i] != ',',
    ensures
        parsed(before, source) == Ok::<_, Failure>(Seq::<(Seq<char>, Seq<char>)>::empty()),
        is_tight(text) && is_plain(text) && (forall|i: int|
            0 <= i < text.len() ==> #[trigger] text[i] != '=') ==> parsed(
            before + text + after,
            source,
        ) == Err::<Seq<(Seq<char>, Seq<char>)>, _>(
            Failure::Config(
                source + " is key=value,key=value; \""@ + text + "\" has no '='"@,
            ),
        ),
        is_tight(text) && (forall|i: int| 0 <= i < text.len() ==> #[trigger] text[i] != '=')
            ==> parsed(before + text + after, source) == Err::<Seq<(Seq<char>, Seq<char>)>, _>(
            Failure::Config(
                source + " is key=value,key=value; "@ + quoted(text) + " has no '='"@,
            ),
        ),
        !is_plain(text) ==> quoted(text) == escaped(text),
        parsed(before + seq!['='] + text, source) == Err::<Seq<(Seq<char>, Seq<char>)>, _>(
            Failure::Config(source + " has an entry with no key"@),
        ),
{
    reveal_with_fuel(entries, 2);
    let none = Seq::<char>::empty();
    assert forall|i: int| 0 <= i < before.len() implies #[trigger] before[i] != ',' by {}
    lemma_one_piece(before, ',');
    law_trimming_takes_what_surrounds(before, none, none);
    assert(before + none + none =~= before);
    assert(pieces(before, ',').drop_last() =~= Seq::empty());
    assert(entries(pieces(before, ',')) =~= Seq::empty());
    if is_tight(text) && forall|i: int| 0 <= i < text.len() ==> #[trigger] text[i] != '=' {
        lemma_one_entry(before, text, after, source);
        lemma_first_index_unique(text, '=', text.len() as int);
        if is_plain(text) {
            reveal_strlit(" is key=value,key=value; ");
            reveal_strlit(" is key=value,key=value; \"");
            reveal_strlit(" has no '='");
            reveal_strlit("\" has no '='");
            assert(no_separator(source, text) =~= source + " is key=value,key=value; \""@ + text
                + "\" has no '='"@);
        }
    }
    let whole = seq!['='] + text;
    assert(before + seq!['='] + text =~= before + whole);
    let entry = trimmed(whole);
    let rest = law_trimming_leaves_nothing_to_trim(whole);
    if rest.0.len() > 0 {
        assert(whole[0] == rest.0[0]);
    }
    if entry.len() == 0 && rest.1.len() > 0 {
        assert(whole[0] == rest.1[0]);
    }
    assert(rest.0 =~= none);
    assert(whole =~= entry + rest.1);
    assert(entry[0] == '=');
    assert forall|i: int| 0 <= i < entry.len() implies #[trigger] entry[i] != ',' by {
        assert(entry[i] == whole[i]);
    }
    assert(before + whole =~= before + entry + rest.1);
    lemma_one_entry(before, entry, rest.1, source);
    lemma_first_index_unique(entry, '=', 0);
    assert(entry.take(0) =~= none);
    assert(trimmed(none) == none);
}

/// The pairs as a list with white space around the keys, the values and the commas.
pub open spec fn written_with(
    pairs: Seq<(Seq<char>, Seq<char>)>,
    pads: Seq<(Seq<char>, Seq<char>, Seq<char>, Seq<char>)>,
) -> Seq<char>
    decreases pairs.len(),
{
    if pairs.len() == 0 {
        Seq::empty()
    } else {
        let pad = pads[pairs.len() - 1];
        let entry = pad.0 + pairs.last().0 + pad.1 + seq!['='] + pad.2 + pairs.last().1 + pad.3;
        if pairs.len() == 1 {
            entry
        } else {
            written_with(pairs.drop_last(), pads) + seq![','] + entry
        }
    }
}

/// Padding does not show: whatever white space is written around the keys, the values and
/// the commas of a list, the same pairs are read from it.
pub proof fn law_padding_does_not_show(
    pairs: Seq<(Seq<char>, Seq<char>)>,
    pads: Seq<(Seq<char>, Seq<char>, Seq<char>, Seq<char>)>,
    source: Seq<char>,
)
    requires
        pads.len() >= pairs.len(),
        forall|i: int| 0 <= i < pairs.len() ==> writable(#[trigger] pairs[i]),
        forall|i: int|
            0 <= i < pads.len() ==> is_blank((#[trigger] pads[i]).0) && is_blank(pads[i].1)
                && is_blank(pads[i].2) && is_blank(pads[i].3),
    ensures
        parsed(written_with(pairs, pads), source) == Ok::<_, Failure>(pairs),
    decreases pairs.len(),
{
    if pairs.len() == 0 {
        let none = Seq::<char>::empty();
        law_what_is_no_pair_is_refused(none, none, none, source);
        assert(pairs =~= Seq::empty());
    } else {
        let last = pairs.len() - 1;
        let pad = pads[last];
        let (key, value) = pairs[last];
        assert(writable(pairs[last]));
        law_padding_does_not_show_in_an_entry(pad, key, value, source);
        let entry = pad.0 + key + pad.1 + seq!['='] + pad.2 + value + pad.3;
        if last == 0 {
            assert(pairs =~= seq![(key, value)]);
        } else {
            let front = pairs.drop_last();
            assert forall|i: int| 0 <= i < front.len() implies writable(#[trigger] front[i]) by {
                assert(front[i] == pairs[i]);
            }
            law_padding_does_not_show(front, pads, source);
            law_a_list_is_read_from_front_to_back(written_with(front, pads), entry, source);
            assert(front + seq![(key, value)] =~= pairs);
        }
    }
}

} // verus!
