//! Natural numbers as decimal text, written and read.

use vstd::prelude::*;

verus! {

/// Whether a character is one of the decimal digits `0` to `9`.
pub open spec fn is_decimal_digit(c: char) -> bool {
    '0' <= c <= '9'
}

/// The decimal digit that stands for a value from 0 to 9.
pub open spec fn decimal_digit(value: int) -> char {
    (value + 48) as char
}

/// The decimal digits of a natural number, without leading zeros.
pub open spec fn decimal_digits(value: nat) -> Seq<char>
    decreases value,
{
    if value < 10 {
        seq![decimal_digit(value as int)]
    } else {
        decimal_digits(value / 10).push(decimal_digit(value as int % 10))
    }
}

/// The value of a text read as a base-ten natural number. The empty text has
/// none, nor has a text with a character that is no decimal digit.
pub open spec fn decimal_value(text: Seq<char>) -> Option<nat>
    decreases text.len(),
{
    if text.len() == 0 || !is_decimal_digit(text.last()) {
        None
    } else if text.len() == 1 {
        Some((text.last() as int - 48) as nat)
    } else {
        match decimal_value(text.drop_last()) {
            Some(upper) => Some((10 * upper + (text.last() as int - 48)) as nat),
            None => None,
        }
    }
}

/// Reading the digits of a number gives the number back.
pub proof fn lemma_decimal_round_trip(value: nat)
    ensures
        decimal_value(decimal_digits(value)) == Some(value),
    decreases value,
{
    if value >= 10 {
        lemma_decimal_round_trip(value / 10);
        assert(decimal_digits(value).drop_last() =~= decimal_digits(value / 10));
    }
}

/// Different numbers have different digits.
pub proof fn lemma_decimal_digits_injective(a: nat, b: nat)
    requires
        decimal_digits(a) == decimal_digits(b),
    ensures
        a == b,
{
    lemma_decimal_round_trip(a);
    lemma_decimal_round_trip(b);
}

/// A text that starts with a character that is no digit reads as no number.
pub proof fn lemma_leading_non_digit(text: Seq<char>)
    requires
        text.len() > 0,
        !is_decimal_digit(text[0]),
    ensures
        decimal_value(text) is None,
    decreases text.len(),
{
    if text.len() > 1 {
        lemma_leading_non_digit(text.drop_last());
    }
}

/// A text reads as the number zero exactly when it is not empty and each of
/// its characters is `'0'`.
pub proof fn lemma_reads_as_zero(text: Seq<char>)
    ensures
        decimal_value(text) == Some(0nat) <==> text.len() > 0 && forall|i: int|
            0 <= i < text.len() ==> text[i] == '0',
    decreases text.len(),
{
    if text.len() > 1 {
        let upper = text.drop_last();
        lemma_reads_as_zero(upper);
        if decimal_value(text) == Some(0nat) {
            assert forall|i: int| 0 <= i < text.len() implies text[i] == '0' by {
                if i < text.len() - 1 {
                    assert(text[i] == upper[i]);
                }
            }
        }
        if forall|i: int| 0 <= i < text.len() ==> text[i] == '0' {
            assert forall|i: int| 0 <= i < upper.len() implies upper[i] == '0' by {
                assert(upper[i] == text[i]);
            }
        }
    }
}

} // verus!
