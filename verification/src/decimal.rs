//! Decimal numbers in text: written without a sign or leading zeros, read as
//! `str::parse` reads an unsigned integer.

use vstd::prelude::*;

use crate::text::chars_of;

verus! {

/// The digit that stands for `d`, which is below ten.
pub open spec fn digit(d: nat) -> char {
    (48 + d) as char
}

/// `n` in decimal.
pub open spec fn decimal(n: nat) -> Seq<char>
    decreases n,
{
    if n < 10 {
        seq![digit(n)]
    } else {
        decimal(n / 10).push(digit(n % 10))
    }
}

/// Whether `ch` is an ASCII digit.
pub open spec fn is_digit(ch: char) -> bool {
    '0' <= ch <= '9'
}

/// Whether `text` is digits alone.
pub open spec fn all_digits(text: Seq<char>) -> bool {
    forall|i: int| 0 <= i < text.len() ==> is_digit(#[trigger] text[i])
}

/// The number that a row of digits stands for.
pub open spec fn digits_value(digits: Seq<char>) -> nat
    decreases digits.len(),
{
    if digits.len() == 0 {
        0
    } else {
        digits_value(digits.drop_last()) * 10 + (digits.last() as nat - 48) as nat
    }
}

/// `text` without one leading `+`.
pub open spec fn unsigned(text: Seq<char>) -> Seq<char> {
    if text.len() > 0 && text[0] == '+' {
        text.skip(1)
    } else {
        text
    }
}

/// The number that `text` denotes: digits, at least one, behind at most one
/// `+`, with a value of at most `max`.
pub open spec fn number(text: Seq<char>, max: nat) -> Option<nat> {
    let digits = unsigned(text);
    if digits.len() > 0 && all_digits(digits) && digits_value(digits) <= max {
        Some(digits_value(digits))
    } else {
        None
    }
}

/// Writing a number and reading it gives the number back.
pub proof fn decimal_reads_back(n: nat, max: nat)
    requires
        n <= max,
    ensures
        number(decimal(n), max) == Some(n),
{
    lemma_decimal_digits(n);
    assert(is_digit(decimal(n)[0]));
}

/// A number is written in digits alone, at least one, and they stand for it.
pub proof fn lemma_decimal_digits(n: nat)
    ensures
        decimal(n).len() > 0,
        all_digits(decimal(n)),
        digits_value(decimal(n)) == n,
    decreases n,
{
    if n < 10 {
        assert(decimal(n).drop_last() == Seq::<char>::empty());
        assert(digits_value(Seq::<char>::empty()) == 0);
    } else {
        lemma_decimal_digits(n / 10);
        assert(decimal(n).drop_last() == decimal(n / 10));
    }
}

/// Digits at the end only add to the value.
proof fn lemma_value_grows(digits: Seq<char>, n: int)
    requires
        0 <= n <= digits.len(),
    ensures
        digits_value(digits.take(n)) <= digits_value(digits),
    decreases digits.len() - n,
{
    if n < digits.len() {
        lemma_value_grows(digits, n + 1);
        assert(digits.take(n + 1).drop_last() == digits.take(n));
    } else {
        assert(digits.take(n) == digits);
    }
}

/// Append `n` in decimal.
pub fn push_decimal(out: &mut String, n: u64)
    ensures
        final(out)@ == old(out)@ + decimal(n as nat),
    decreases n,
{
    if n >= 10 {
        push_decimal(out, n / 10);
    }
    out.push(('0' as u8 + (n % 10) as u8) as char);
    assert(out@ == old(out)@ + decimal(n as nat));
}

/// Read a number of at most `max`.
pub fn read_number(text: &str, max: u64) -> (value: Option<u64>)
    ensures
        value is Some <==> number(text@, max as nat) is Some,
        value is Some ==> number(text@, max as nat) == Some(value->0 as nat),
{
    let chars = chars_of(text);
    let start: usize = if chars.len() > 0 && chars[0] == '+' {
        1
    } else {
        0
    };
    if start == chars.len() {
        return None;
    }
    let ghost digits = unsigned(text@);
    assert(digits == chars@.skip(start as int));
    let mut value: u128 = 0;
    let mut i: usize = start;
    while i < chars.len()
        invariant
            start <= i <= chars@.len(),
            start < chars@.len(),
            chars@ == text@,
            digits == unsigned(text@),
            digits == chars@.skip(start as int),
            forall|j: int| 0 <= j < i - start ==> is_digit(digits[j]),
            value == digits_value(digits.take(i - start)),
            value <= max,
        decreases chars@.len() - i,
    {
        let ch = chars[i];
        assert(digits[i - start] == ch);
        if ch < '0' || ch > '9' {
            assert(!all_digits(digits));
            return None;
        }
        value = value * 10 + (ch as u128 - 48);
        assert(digits.take(i - start + 1).drop_last() == digits.take(i - start));
        if value > max as u128 {
            proof {
                lemma_value_grows(digits, i - start + 1);
            }
            return None;
        }
        i += 1;
    }
    assert(digits.take(i - start) == digits);
    Some(value as u64)
}

/// A number is written digit by digit: one below ten as its digit, and any other
/// as what it has tens, and behind that its last digit.
pub proof fn a_number_is_its_tens_and_its_last_digit(tens: nat, d: nat)
    requires
        d < 10,
    ensures
        decimal(d) == seq![('0' as int + d) as char],
        tens > 0 ==> decimal(tens * 10 + d) == decimal(tens).push(('0' as int + d) as char),
{
    if tens > 0 {
        assert((tens * 10 + d) / 10 == tens);
        assert((tens * 10 + d) % 10 == d);
    }
}

/// Different numbers are written differently.
pub proof fn different_numbers_look_different(a: nat, b: nat)
    requires
        decimal(a) == decimal(b),
    ensures
        a == b,
{
    lemma_decimal_digits(a);
    lemma_decimal_digits(b);
}

/// A text denotes a number only if it is digits, at least one, behind at most
/// one `+`; and then the number does not depend on the limit, which it must
/// keep.
pub proof fn only_digits_are_numbers(text: Seq<char>, max: nat, other: nat)
    ensures
        number(Seq::<char>::empty(), max) is None,
        number(seq!['+'], max) is None,
        number(text, max) matches Some(n) ==> {
            &&& n <= max
            &&& text.len() > 0
            &&& '0' <= text.last() <= '9'
            &&& forall|i: int|
                0 <= i < text.len() ==> '0' <= #[trigger] text[i] <= '9' || i == 0 && text[i] == '+'
            &&& n <= other <==> number(text, other) is Some
            &&& number(text, other) is Some ==> number(text, other) == Some(n)
        },
{
    let digits = unsigned(text);
    assert(unsigned(seq!['+']) == Seq::<char>::empty());
    if number(text, max) is Some {
        assert forall|i: int| 0 <= i < text.len() implies '0' <= #[trigger] text[i] <= '9' || i == 0
            && text[i] == '+' by {
            if text[0] == '+' {
                if i > 0 {
                    assert(is_digit(digits[i - 1]));
                }
            } else {
                assert(is_digit(digits[i]));
            }
        }
        assert(is_digit(digits[digits.len() - 1]));
        assert(digits.last() == text.last());
    }
}

/// One more digit at the end makes ten times the number, and the digit; a `+`
/// before it changes nothing; and a digit is itself.
pub proof fn a_digit_more_is_ten_times_as_much(text: Seq<char>, ch: char, n: nat, max: nat)
    requires
        '0' <= ch <= '9',
        number(text, n) == Some(n),
    ensures
        number(seq![ch], max) == if ch as int - '0' as int <= max {
            Some((ch as int - '0' as int) as nat)
        } else {
            None
        },
        number(text.push(ch), max) == if n * 10 + (ch as int - '0' as int) <= max {
            Some((n * 10 + (ch as int - '0' as int)) as nat)
        } else {
            None
        },
        text[0] != '+' ==> number(seq!['+'] + text, max) == number(text, max),
{
    let digits = unsigned(text);
    let more = unsigned(text.push(ch));
    let one = seq![ch];
    assert(more == digits.push(ch));
    assert(more.drop_last() == digits);
    assert forall|i: int| 0 <= i < more.len() implies is_digit(#[trigger] more[i]) by {
        if i < digits.len() {
            assert(is_digit(digits[i]));
        }
    }
    assert(unsigned(one) == one);
    assert(one.drop_last() == Seq::<char>::empty());
    assert(digits_value(Seq::<char>::empty()) == 0);
    assert(digits_value(one) == ch as int - '0' as int);
    assert forall|i: int| 0 <= i < one.len() implies is_digit(#[trigger] one[i]) by {}
    if text[0] != '+' {
        assert(unsigned(seq!['+'] + text) == text);
    }
}

} // verus!
