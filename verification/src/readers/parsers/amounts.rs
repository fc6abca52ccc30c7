//! Amounts written in decimal notation, read into minor units.

use vstd::prelude::*;
use crate::text::{char_position, find_char, lemma_char_position};

verus! {

/// The character is one of the ten digits.
pub open spec fn is_digit(c: char) -> bool {
    '0' <= c <= '9'
}

/// The number that a digit stands for.
pub open spec fn digit_value(c: char) -> int {
    c as int - '0' as int
}

/// Every character is a digit.
pub open spec fn all_digits(text: Seq<char>) -> bool {
    forall|i: int| 0 <= i < text.len() ==> is_digit(#[trigger] text[i])
}

/// The number that a row of digits writes.
pub open spec fn digits_number(text: Seq<char>) -> int
    decreases text.len(),
{
    if text.len() == 0 {
        0
    } else {
        digits_number(text.drop_last()) * 10 + digit_value(text.last())
    }
}

/// The hundredths that the digits behind the point write: the first two
/// of them count, further digits are dropped.
pub open spec fn hundredths(fraction: Seq<char>) -> int {
    (if fraction.len() >= 1 {
        digit_value(fraction[0]) * 10
    } else {
        0
    }) + (if fraction.len() >= 2 {
        digit_value(fraction[1])
    } else {
        0
    })
}

/// The text has a sign at its start.
pub open spec fn has_sign(text: Seq<char>) -> bool {
    text.len() > 0 && (text[0] == '-' || text[0] == '+')
}

/// The digits and the point of an amount, without its sign.
pub open spec fn unsigned_part(text: Seq<char>) -> Seq<char> {
    if has_sign(text) {
        text.drop_first()
    } else {
        text
    }
}

/// The digits before the point.
pub open spec fn whole_part(text: Seq<char>) -> Seq<char> {
    let body = unsigned_part(text);
    body.take(char_position(body, '.', 0))
}

/// The digits behind the point.
pub open spec fn fraction_part(text: Seq<char>) -> Seq<char> {
    let body = unsigned_part(text);
    let dot = char_position(body, '.', 0);
    if dot < body.len() {
        body.skip(dot + 1)
    } else {
        Seq::<char>::empty()
    }
}

/// The text writes an amount: an optional sign, digits, and optionally a
/// point with digits behind it; at least one digit in all.
pub open spec fn is_amount(text: Seq<char>) -> bool {
    &&& all_digits(whole_part(text))
    &&& all_digits(fraction_part(text))
    &&& whole_part(text).len() + fraction_part(text).len() > 0
}

/// The amount that a text writes, in hundredths, without its sign.
pub open spec fn magnitude(text: Seq<char>) -> int {
    digits_number(whole_part(text)) * 100 + hundredths(fraction_part(text))
}

/// The amount that a text writes, in minor units: `12.5` is 1250 and
/// `-0.07` is -7. A text that writes no amount, or one that is too large
/// to be stored, counts as zero.
pub open spec fn amount_of(text: Seq<char>) -> int {
    if is_amount(text) && magnitude(text) <= i64::MAX {
        if text[0] == '-' {
            -magnitude(text)
        } else {
            magnitude(text)
        }
    } else {
        0
    }
}

/// The number that the first digits of a row write is no larger than the
/// number that all of them write.
pub proof fn lemma_digits_grow(text: Seq<char>, count: int)
    requires
        all_digits(text),
        0 <= count <= text.len(),
    ensures
        0 <= digits_number(text.take(count)) <= digits_number(text),
    decreases text.len(),
{
    if text.len() == 0 {
        assert(text.take(count) =~= text);
    } else if count == text.len() {
        assert(text.take(count) =~= text);
        lemma_digits_grow(text.drop_last(), count - 1);
        assert(is_digit(text.last()));
    } else {
        let rest = text.drop_last();
        assert forall|i: int| 0 <= i < rest.len() implies is_digit(#[trigger] rest[i]) by {
            assert(rest[i] == text[i]);
        }
        lemma_digits_grow(rest, count);
        assert(rest.take(count) =~= text.take(count));
        assert(is_digit(text.last()));
    }
}

/// The amount that the characters write, in minor units; zero where they
/// write none or one too large to be stored.
pub fn parse_amount(text: &Vec<char>) -> (amount: i64)
    ensures
        amount == amount_of(text@),
{
    let n: usize = text.len();
    let signed: bool = n > 0 && (text[0] == '-' || text[0] == '+');
    let negative: bool = n > 0 && text[0] == '-';
    let start: usize = if signed {
        1
    } else {
        0
    };
    let ghost body = unsigned_part(text@);
    assert(body =~= text@.skip(start as int));
    let dot_in_text: usize = find_char(text, '.', start);
    let ghost dot = char_position(body, '.', 0);
    proof {
        lemma_positions_agree(text@, start as int, 0);
        lemma_char_position(body, '.', 0);
    }
    let ghost whole = whole_part(text@);
    let ghost fraction = fraction_part(text@);
    assert(whole =~= text@.subrange(start as int, dot_in_text as int));
    let mut value: i64 = 0;
    let mut i: usize = start;
    while i < dot_in_text
        invariant
            start <= i <= dot_in_text <= n,
            n == text.len(),
            whole == text@.subrange(start as int, dot_in_text as int),
            whole == whole_part(text@),
            fraction == fraction_part(text@),
            value == digits_number(whole.take(i - start)),
            0 <= value,
            forall|k: int| 0 <= k < i - start ==> is_digit(#[trigger] whole[k]),
        decreases dot_in_text - i,
    {
        let c: char = text[i];
        assert(whole[i - start] == c);
        if c < '0' || c > '9' {
            assert(!is_digit(whole[i - start]));
            return 0;
        }
        let digit: i64 = (c as u32 - '0' as u32) as i64;
        proof {
            let part = whole.take(i - start + 1);
            assert(part.drop_last() =~= whole.take(i - start));
            assert(part.last() == c);
        }
        if value > (i64::MAX - digit) / 10 {
            proof {
                if is_amount(text@) {
                    lemma_digits_grow(whole, i - start + 1);
                    assert(hundredths(fraction) >= 0) by {
                        if fraction.len() >= 1 {
                            assert(is_digit(fraction[0]));
                        }
                        if fraction.len() >= 2 {
                            assert(is_digit(fraction[1]));
                        }
                    }
                }
            }
            return 0;
        }
        value = value * 10 + digit;
        i = i + 1;
    }
    assert(whole.take(dot_in_text - start) =~= whole);
    let behind: usize = if dot_in_text < n {
        dot_in_text + 1
    } else {
        n
    };
    assert(fraction =~= text@.subrange(behind as int, n as int));
    let mut cents: i64 = 0;
    let mut j: usize = behind;
    while j < n
        invariant
            behind <= j <= n,
            start <= dot_in_text <= behind,
            n == text.len(),
            fraction == text@.subrange(behind as int, n as int),
            fraction == fraction_part(text@),
            whole == whole_part(text@),
            whole.len() == dot_in_text - start,
            all_digits(whole),
            value == digits_number(whole),
            0 <= value,
            negative == (text@.len() > 0 && text@[0] == '-'),
            forall|k: int| 0 <= k < j - behind ==> is_digit(#[trigger] fraction[k]),
            cents == hundredths(fraction.take(j - behind)),
            0 <= cents <= 99,
        decreases n - j,
    {
        let c: char = text[j];
        assert(fraction[j - behind] == c);
        if c < '0' || c > '9' {
            assert(!is_digit(fraction[j - behind]));
            return 0;
        }
        let digit: i64 = (c as u32 - '0' as u32) as i64;
        if j == behind {
            cents = digit * 10;
        } else if j == behind + 1 {
            cents = cents + digit;
        }
        proof {
            let before = fraction.take(j - behind);
            let after = fraction.take(j - behind + 1);
            if j - behind >= 1 {
                assert(after[0] == before[0]);
            }
            if j - behind >= 2 {
                assert(after[1] == before[1]);
            }
        }
        j = j + 1;
    }
    assert(fraction.take(n - behind) =~= fraction);
    assert(all_digits(whole));
    assert(all_digits(fraction));
    if dot_in_text - start + (n - behind) == 0 {
        return 0;
    }
    if value > (i64::MAX - cents) / 100 {
        return 0;
    }
    let total: i64 = value * 100 + cents;
    if negative {
        -total
    } else {
        total
    }
}

/// The place of a character in the text behind a sign is its place in
/// the whole text, less the sign.
pub proof fn lemma_positions_agree(text: Seq<char>, start: int, from: int)
    requires
        0 <= start <= text.len(),
        0 <= from <= text.len() - start,
    ensures
        char_position(text.skip(start), '.', from) + start == char_position(
            text,
            '.',
            from + start,
        ),
    decreases text.len() - start - from,
{
    let body = text.skip(start);
    if from < body.len() {
        assert(body[from] == text[from + start]);
        if body[from] != '.' {
            lemma_positions_agree(text, start, from + 1);
        }
    }
}

} // verus!
