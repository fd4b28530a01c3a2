//! Whole numbers in decimal, and binary64 numbers by their bits.

use vstd::prelude::*;

use crate::text::{characters, repeated};

verus! {

/// An ASCII decimal digit.
pub open spec fn is_digit(c: char) -> bool {
    '0' <= c <= '9'
}

/// The number that decimal digits spell.
pub open spec fn value_of(digits: Seq<char>) -> nat
    decreases digits.len(),
{
    if digits.len() == 0 {
        0
    } else {
        value_of(digits.drop_last()) * 10 + (digits.last() as nat - '0' as nat) as nat
    }
}

/// `text` without the plus sign it may start with.
pub open spec fn unsigned(text: Seq<char>) -> Seq<char> {
    if text.len() > 0 && text[0] == '+' {
        text.drop_first()
    } else {
        text
    }
}

/// The number that `text` spells: an optional plus sign and at least one digit,
/// and nothing above the largest `u64`.
pub open spec fn decimal(text: Seq<char>) -> Option<nat> {
    let digits = unsigned(text);
    if digits.len() > 0 && (forall|i: int| 0 <= i < digits.len() ==> is_digit(#[trigger] digits[i]))
        && value_of(digits) <= u64::MAX {
        Some(value_of(digits))
    } else {
        None
    }
}

proof fn lemma_prefix_is_no_larger(digits: Seq<char>, k: int)
    requires
        0 <= k <= digits.len(),
    ensures
        value_of(digits.take(k)) <= value_of(digits),
    decreases digits.len(),
{
    if k == digits.len() {
        assert(digits.take(k) =~= digits);
    } else {
        assert(digits.drop_last().take(k) =~= digits.take(k));
        lemma_prefix_is_no_larger(digits.drop_last(), k);
    }
}

/// The number that `text` spells.
pub(crate) fn parse_u64(text: &str) -> (r: Option<u64>)
    ensures
        match r {
            Some(n) => decimal(text@) == Some(n as nat),
            None => decimal(text@) is None,
        },
{
    let cs = characters(text);
    let start: usize = if cs.len() > 0 && cs[0] == '+' {
        1
    } else {
        0
    };
    let ghost digits = unsigned(text@);
    assert(digits =~= text@.skip(start as int));
    if start == cs.len() {
        return None;
    }
    let mut n: u64 = 0;
    let mut i: usize = start;
    while i < cs.len()
        invariant
            cs@ == text@,
            start <= i <= cs.len(),
            digits == unsigned(text@),
            digits == text@.skip(start as int),
            forall|j: int| 0 <= j < i - start ==> is_digit(#[trigger] digits[j]),
            n == value_of(digits.take(i - start)),
        decreases cs.len() - i,
    {
        let c = cs[i];
        assert(digits[i - start] == c);
        if !('0' <= c && c <= '9') {
            return None;
        }
        let d: u64 = c as u64 - '0' as u64;
        let ghost so_far = digits.take(i - start + 1);
        proof {
            assert(so_far.drop_last() =~= digits.take(i - start));
            assert(so_far.last() == c);
            lemma_prefix_is_no_larger(digits, i - start + 1);
        }
        n = match n.checked_mul(10) {
            Some(m) => match m.checked_add(d) {
                Some(m) => m,
                None => {
                    return None;
                },
            },
            None => {
                return None;
            },
        };
        i += 1;
    }
    assert(digits.take(i - start) =~= digits);
    Some(n)
}

/// The bits of the binary64 number one.
pub const ONE: u64 = 0x3ff0_0000_0000_0000;

/// The bits of positive infinity.
pub const INFINITY: u64 = 0x7ff0_0000_0000_0000;

/// The sign bit of a binary64 number.
pub const SIGN: u64 = 0x8000_0000_0000_0000;

/// Where a binary64 number stands among the others: IEEE 754 orders the numbers by
/// their ranks, both zeros at rank 0.
pub open spec fn rank(bits: u64) -> int {
    if bits < SIGN {
        bits as int
    } else {
        SIGN - bits
    }
}

/// Whether the bits are no number.
pub open spec fn is_nan(bits: u64) -> bool {
    rank(bits) > INFINITY || rank(bits) < -INFINITY
}

/// Whether two bit patterns are numbers and equal as numbers: both zeros are one number,
/// and what is no number equals nothing.
pub open spec fn equal_numbers(a: u64, b: u64) -> bool {
    !is_nan(a) && !is_nan(b) && rank(a) == rank(b)
}

/// Whether two bit patterns are numbers and equal as numbers.
pub(crate) fn same_number(a: u64, b: u64) -> (r: bool)
    ensures
        r == equal_numbers(a, b),
{
    let x: u64 = if a >= SIGN {
        a - SIGN
    } else {
        a
    };
    let y: u64 = if b >= SIGN {
        b - SIGN
    } else {
        b
    };
    x <= INFINITY && y <= INFINITY && (a == b || (x == 0 && y == 0))
}

/// The decimal digit.
pub open spec fn digit(n: nat) -> char {
    "0123456789"@[n as int]
}

/// A number in decimal, without leading zeros.
pub open spec fn digits_of(n: nat) -> Seq<char>
    decreases n,
{
    if n < 10 {
        seq![digit(n)]
    } else {
        digits_of(n / 10).push(digit(n % 10))
    }
}

proof fn lemma_digit(n: nat)
    requires
        n < 10,
    ensures
        is_digit(digit(n)),
        digit(n) as nat - '0' as nat == n,
{
    reveal_strlit("0123456789");
}

proof fn lemma_value_of_digits(n: nat)
    ensures
        digits_of(n).len() > 0,
        forall|i: int| 0 <= i < digits_of(n).len() ==> is_digit(#[trigger] digits_of(n)[i]),
        value_of(digits_of(n)) == n,
    decreases n,
{
    reveal_with_fuel(value_of, 2);
    if n < 10 {
        lemma_digit(n);
        assert(digits_of(n).drop_last() =~= Seq::empty());
    } else {
        lemma_value_of_digits(n / 10);
        lemma_digit(n % 10);
        assert(digits_of(n).drop_last() =~= digits_of(n / 10));
    }
}

proof fn lemma_leading_zeros(zeros: nat, digits: Seq<char>)
    ensures
        value_of(repeated('0', zeros) + digits) == value_of(digits),
    decreases zeros + digits.len(),
{
    let s = repeated('0', zeros) + digits;
    if digits.len() > 0 {
        lemma_leading_zeros(zeros, digits.drop_last());
        assert(s.drop_last() =~= repeated('0', zeros) + digits.drop_last());
    } else if zeros > 0 {
        lemma_leading_zeros((zeros - 1) as nat, digits);
        assert(s.drop_last() =~= repeated('0', (zeros - 1) as nat) + digits);
    } else {
        assert(s =~= digits);
    }
}

/// Every number that fits is read from its decimal text, also behind zeros and a plus
/// sign, and none that does not fit.
pub proof fn law_a_number_is_read_from_its_decimal_text(n: nat, zeros: nat)
    ensures
        n <= u64::MAX ==> decimal(repeated('0', zeros) + digits_of(n)) == Some(n),
        n <= u64::MAX ==> decimal(seq!['+'] + repeated('0', zeros) + digits_of(n)) == Some(n),
        n > u64::MAX ==> decimal(repeated('0', zeros) + digits_of(n)) is None,
        n > u64::MAX ==> decimal(seq!['+'] + repeated('0', zeros) + digits_of(n)) is None,
{
    let text = repeated('0', zeros) + digits_of(n);
    lemma_value_of_digits(n);
    lemma_leading_zeros(zeros, digits_of(n));
    assert forall|i: int| 0 <= i < text.len() implies is_digit(#[trigger] text[i]) by {
        if i >= zeros {
            assert(text[i] == digits_of(n)[i - zeros]);
        }
    }
    assert(is_digit(text[0]));
    let signed = seq!['+'] + repeated('0', zeros) + digits_of(n);
    assert(signed.drop_first() =~= text);
}

/// A text without a digit, or with anything but digits behind an optional plus sign, is no
/// number.
pub proof fn law_only_digits_are_a_number(text: Seq<char>, i: int)
    ensures
        text.len() == 0 || text == seq!['+'] ==> decimal(text) is None,
        0 <= i < text.len() && !('0' <= text[i] <= '9') && (i > 0 || text[i] != '+') ==> decimal(
            text,
        ) is None,
{
    if 0 <= i < text.len() && !('0' <= text[i] <= '9') && (i > 0 || text[i] != '+') {
        let digits = unsigned(text);
        if text[0] == '+' {
            assert(digits[i - 1] == text[i]);
        } else {
            assert(digits[i] == text[i]);
        }
    }
}

/// Of two numbers without a sign the one with the larger bits is the larger; a sign turns
/// a number round; and nothing beyond the infinities is a number.
pub proof fn law_numbers_are_ordered_by_their_bits(a: u64, b: u64)
    ensures
        a < b < 0x8000_0000_0000_0000 ==> rank(a) < rank(b),
        a < 0x8000_0000_0000_0000 && b == a + 0x8000_0000_0000_0000 ==> rank(b) == -rank(a),
        rank(0) == 0,
        is_nan(a) <==> {
            ||| 0x7ff0_0000_0000_0000 < a < 0x8000_0000_0000_0000
            ||| 0xfff0_0000_0000_0000 < a
        },
{
}

/// A number equals itself alone, but for the two zeros, which are equal; what is no number
/// does not even equal itself.
pub proof fn law_numbers_are_equal_by_value(a: u64, b: u64)
    ensures
        equal_numbers(a, a) <==> !is_nan(a),
        a != b ==> (equal_numbers(a, b) <==> {
            ||| a == 0 && b == 0x8000_0000_0000_0000
            ||| a == 0x8000_0000_0000_0000 && b == 0
        }),
{
}

} // verus!
