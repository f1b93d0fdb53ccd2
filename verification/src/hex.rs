//! Lowercase hexadecimal text for byte strings.

use vstd::prelude::*;
use crate::chain::Chain;

verus! {

/// The lowercase hexadecimal digit that stands for a value from 0 to 15.
pub open spec fn hex_digit(value: int) -> char {
    if value < 10 {
        (value + 48) as char
    } else {
        (value + 87) as char
    }
}

/// Whether a character is a lowercase hexadecimal digit.
pub open spec fn is_hex_digit(c: char) -> bool {
    '0' <= c <= '9' || 'a' <= c <= 'f'
}

/// Two lowercase hexadecimal digits for every byte, in the order of the bytes,
/// the upper half of each byte first.
pub open spec fn hex_text(bytes: Seq<u8>) -> Seq<char> {
    Seq::new(
        2 * bytes.len(),
        |i: int|
            if i % 2 == 0 {
                hex_digit(bytes[i / 2] as int / 16)
            } else {
                hex_digit(bytes[i / 2] as int % 16)
            },
    )
}

/// Different values below sixteen have different digits.
pub proof fn lemma_hex_digit_injective(a: int, b: int)
    requires
        0 <= a < 16,
        0 <= b < 16,
        hex_digit(a) == hex_digit(b),
    ensures
        a == b,
{
}

/// The text of a byte string is twice as long as the byte string and holds
/// lowercase hexadecimal digits only.
pub proof fn lemma_hex_text_shape(bytes: Seq<u8>)
    ensures
        hex_text(bytes).len() == 2 * bytes.len(),
        forall|i: int| 0 <= i < 2 * bytes.len() ==> is_hex_digit(#[trigger] hex_text(bytes)[i]),
{
}

/// Different byte strings have different hexadecimal texts.
pub proof fn lemma_hex_text_injective(a: Seq<u8>, b: Seq<u8>)
    requires
        hex_text(a) == hex_text(b),
    ensures
        a == b,
{
    assert(hex_text(a).len() == 2 * a.len());
    assert(hex_text(b).len() == 2 * b.len());
    assert forall|i: int| 0 <= i < a.len() implies a[i] == b[i] by {
        assert(hex_text(a)[2 * i] == hex_digit(a[i] as int / 16));
        assert(hex_text(b)[2 * i] == hex_digit(b[i] as int / 16));
        assert(hex_text(a)[2 * i + 1] == hex_digit(a[i] as int % 16));
        assert(hex_text(b)[2 * i + 1] == hex_digit(b[i] as int % 16));
        lemma_hex_digit_injective(a[i] as int / 16, b[i] as int / 16);
        lemma_hex_digit_injective(a[i] as int % 16, b[i] as int % 16);
    }
}

/// The one-character text of a hexadecimal digit.
fn hex_digit_text(value: u8) -> (text: &'static str)
    requires
        value < 16,
    ensures
        text@ == seq![hex_digit(value as int)],
{
    let digits = "0123456789abcdef";
    proof {
        reveal_strlit("0123456789abcdef");
    }
    let index: usize = value as usize;
    digits.substring_ascii(index, index + 1)
}

impl Chain {
    /// Writes a byte string as lowercase hexadecimal text, two digits per
    /// byte, so that a byte below sixteen keeps its leading zero.
    pub fn hex_to_string(vec_result: &[u8]) -> (text: String)
        ensures
            text@ == hex_text(vec_result@),
    {
        let mut text = String::new();
        let mut i: usize = 0;
        while i < vec_result.len()
            invariant
                i <= vec_result.len(),
                text@ == hex_text(vec_result@.take(i as int)),
            decreases vec_result.len() - i,
        {
            let byte: u8 = vec_result[i];
            text.append(hex_digit_text(byte / 16));
            text.append(hex_digit_text(byte % 16));
            i += 1;
        }
        text
    }
}

} // verus!
