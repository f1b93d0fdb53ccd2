//! The canonical text of a record: compact JSON, every declared field under
//! its own name and in the order of declaration, with no white space.

use vstd::prelude::*;
use crate::decimal::{
    decimal_digits, lemma_decimal_digits_injective, lemma_decimal_round_trip,
    lemma_leading_non_digit,
};
use crate::hex::{hex_digit, lemma_hex_digit_injective};
use crate::record::{BlockHeader, HeaderView, Transaction, TransactionView};

verus! {

/// The text that stands for one character inside a JSON string: the quotation
/// mark and the backslash behind a backslash, the control characters below
/// U+0020 by their short escape where JSON has one and as `\u00XX` otherwise,
/// every other character as itself.
pub open spec fn escaped_char(c: char) -> Seq<char> {
    if c == '"' {
        seq!['\\', '"']
    } else if c == '\\' {
        seq!['\\', '\\']
    } else if c == '\u{8}' {
        seq!['\\', 'b']
    } else if c == '\t' {
        seq!['\\', 't']
    } else if c == '\n' {
        seq!['\\', 'n']
    } else if c == '\u{c}' {
        seq!['\\', 'f']
    } else if c == '\r' {
        seq!['\\', 'r']
    } else if (c as int) < 32 {
        seq!['\\', 'u', '0', '0', hex_digit(c as int / 16), hex_digit(c as int % 16)]
    } else {
        seq![c]
    }
}

/// The characters of a text, each one escaped, in order.
pub open spec fn escaped(text: Seq<char>) -> Seq<char>
    decreases text.len(),
{
    if text.len() == 0 {
        Seq::empty()
    } else {
        escaped_char(text.first()) + escaped(text.drop_first())
    }
}

/// A text as a JSON string: its escaped characters between quotation marks.
pub open spec fn json_string(text: Seq<char>) -> Seq<char> {
    seq!['"'] + escaped(text) + seq!['"']
}

/// An integer as a JSON number: a minus sign if it is negative, then the
/// decimal digits of its magnitude.
pub open spec fn json_integer(value: int) -> Seq<char> {
    if value < 0 {
        seq!['-'] + decimal_digits((-value) as nat)
    } else {
        decimal_digits(value as nat)
    }
}

/// The canonical text of a transaction.
pub open spec fn transaction_json(t: TransactionView) -> Seq<char> {
    "{\"sender\":"@ + json_string(t.sender) + ",\"recipient\":"@ + json_string(t.recipient)
        + ",\"amount\":"@ + json_integer(t.amount) + "}"@
}

/// The canonical text of a block header.
pub open spec fn header_json(h: HeaderView) -> Seq<char> {
    "{\"timestamp\":"@ + json_integer(h.timestamp) + ",\"nonce\":"@ + json_integer(h.nonce as int)
        + ",\"previous_hash\":"@ + json_string(h.previous_hash) + ",\"merkle_root\":"@
        + json_string(h.merkle_root) + ",\"difficulty\":"@ + json_integer(h.difficulty as int)
        + "}"@
}

/// `serde_json::to_string` on a `str`. The serializer writes a quotation mark,
/// the characters of the text with `"`, `\` and the characters below U+0020
/// escaped and all others unchanged, and a closing quotation mark. It writes
/// into a byte vector, which cannot fail, so the call returns `Ok` for every
/// text.
#[verifier::external_body]
fn to_json_string(text: &str) -> (json: String)
    ensures
        json@ == json_string(text@),
{
    serde_json::to_string(text).unwrap_or_default()
}

/// `serde_json::to_string` on an `i64`. The serializer writes the integer in
/// decimal, with a leading minus sign if it is negative, into a byte vector,
/// which cannot fail, so the call returns `Ok` for every integer.
#[verifier::external_body]
fn to_json_integer(value: i64) -> (json: String)
    ensures
        json@ == json_integer(value as int),
{
    serde_json::to_string(&value).unwrap_or_default()
}

/// A record with a canonical text, over which its content hash is taken.
pub trait Canonical {
    /// The canonical text of the record.
    spec fn canonical(&self) -> Seq<char>;

    /// Writes the canonical text of the record.
    fn to_canonical(&self) -> (text: String)
        ensures
            text@ == self.canonical(),
    ;
}

impl Canonical for Transaction {
    open spec fn canonical(&self) -> Seq<char> {
        transaction_json(self@)
    }

    fn to_canonical(&self) -> (text: String) {
        let mut text = String::from_str("{\"sender\":");
        text.append(to_json_string(self.sender.as_str()).as_str());
        text.append(",\"recipient\":");
        text.append(to_json_string(self.recipient.as_str()).as_str());
        text.append(",\"amount\":");
        text.append(to_json_integer(self.amount).as_str());
        text.append("}");
        text
    }
}

impl Canonical for BlockHeader {
    open spec fn canonical(&self) -> Seq<char> {
        header_json(self@)
    }

    fn to_canonical(&self) -> (text: String) {
        let mut text = String::from_str("{\"timestamp\":");
        text.append(to_json_integer(self.timestamp).as_str());
        text.append(",\"nonce\":");
        text.append(to_json_integer(self.nonce as i64).as_str());
        text.append(",\"previous_hash\":");
        text.append(to_json_string(self.previous_hash.as_str()).as_str());
        text.append(",\"merkle_root\":");
        text.append(to_json_string(self.merkle_root.as_str()).as_str());
        text.append(",\"difficulty\":");
        text.append(to_json_integer(self.difficulty as i64).as_str());
        text.append("}");
        text
    }
}

impl Canonical for String {
    open spec fn canonical(&self) -> Seq<char> {
        json_string(self@)
    }

    fn to_canonical(&self) -> (text: String) {
        to_json_string(self.as_str())
    }
}

/// A sequence that follows the same prefix twice is the same sequence.
proof fn lemma_cancel_prefix<T>(prefix: Seq<T>, x: Seq<T>, y: Seq<T>)
    requires
        prefix + x == prefix + y,
    ensures
        x == y,
{
    assert(x =~= (prefix + x).skip(prefix.len() as int));
    assert(y =~= (prefix + y).skip(prefix.len() as int));
}

/// A sequence that precedes the same suffix twice is the same sequence.
proof fn lemma_cancel_suffix<T>(x: Seq<T>, y: Seq<T>, suffix: Seq<T>)
    requires
        x + suffix == y + suffix,
    ensures
        x == y,
{
    assert(x =~= (x + suffix).take(x.len() as int));
    assert(y =~= (y + suffix).take(y.len() as int));
}

/// No escape is the beginning of another: where two escapes, each followed by
/// more text, give the same text, they are escapes of the same character and
/// what follows them is the same.
proof fn lemma_escaped_char_prefix_free(c: char, d: char, x: Seq<char>, y: Seq<char>)
    requires
        escaped_char(c) + x == escaped_char(d) + y,
    ensures
        c == d,
        x == y,
{
    let a = escaped_char(c);
    let b = escaped_char(d);
    let whole = a + x;
    assert(whole[0] == a[0] && whole[0] == b[0]);
    if a[0] == '\\' {
        assert(whole[1] == a[1] && whole[1] == b[1]);
        if a[1] == 'u' {
            assert(whole[4] == a[4] && whole[4] == b[4]);
            assert(whole[5] == a[5] && whole[5] == b[5]);
            lemma_hex_digit_injective(c as int / 16, d as int / 16);
            lemma_hex_digit_injective(c as int % 16, d as int % 16);
        }
    }
    lemma_cancel_prefix(a, x, y);
}

/// The escaped characters of a text end where the next quotation mark
/// stands: where two escaped texts, each followed by a quotation mark and more
/// text, give the same text, they are the same text with the same
/// continuation.
proof fn lemma_escaped_prefix_free(s: Seq<char>, t: Seq<char>, x: Seq<char>, y: Seq<char>)
    requires
        escaped(s) + seq!['"'] + x == escaped(t) + seq!['"'] + y,
    ensures
        s == t,
        x == y,
    decreases s.len(),
{
    let quote = seq!['"'];
    let left = escaped(s) + quote + x;
    let right = escaped(t) + quote + y;
    if s.len() == 0 {
        if t.len() > 0 {
            assert(right[0] == escaped_char(t.first())[0]);
            assert(false);
        }
        lemma_cancel_prefix(quote, x, y);
    } else {
        if t.len() == 0 {
            assert(left[0] == escaped_char(s.first())[0]);
            assert(false);
        }
        let s_rest = escaped(s.drop_first()) + quote + x;
        let t_rest = escaped(t.drop_first()) + quote + y;
        assert(left =~= escaped_char(s.first()) + s_rest);
        assert(right =~= escaped_char(t.first()) + t_rest);
        lemma_escaped_char_prefix_free(s.first(), t.first(), s_rest, t_rest);
        lemma_escaped_prefix_free(s.drop_first(), t.drop_first(), x, y);
        assert(s =~= seq![s.first()] + s.drop_first());
        assert(t =~= seq![t.first()] + t.drop_first());
    }
}

/// A JSON string ends at its closing quotation mark: where two JSON strings,
/// each followed by more text, give the same text, they are strings of the
/// same text with the same continuation.
pub proof fn lemma_json_string_prefix_free(s: Seq<char>, t: Seq<char>, x: Seq<char>, y: Seq<char>)
    requires
        json_string(s) + x == json_string(t) + y,
    ensures
        s == t,
        x == y,
{
    let quote = seq!['"'];
    assert(json_string(s) + x =~= quote + (escaped(s) + quote + x));
    assert(json_string(t) + y =~= quote + (escaped(t) + quote + y));
    lemma_cancel_prefix(quote, escaped(s) + quote + x, escaped(t) + quote + y);
    lemma_escaped_prefix_free(s, t, x, y);
}

/// Different texts have different JSON strings.
pub proof fn lemma_json_string_injective(s: Seq<char>, t: Seq<char>)
    requires
        json_string(s) == json_string(t),
    ensures
        s == t,
{
    lemma_json_string_prefix_free(s, t, Seq::empty(), Seq::empty());
}

/// Different integers have different JSON numbers.
pub proof fn lemma_json_integer_injective(a: int, b: int)
    requires
        json_integer(a) == json_integer(b),
    ensures
        a == b,
{
    let minus = seq!['-'];
    if a < 0 {
        lemma_leading_non_digit(json_integer(a));
    } else {
        lemma_decimal_round_trip(a as nat);
    }
    if b < 0 {
        lemma_leading_non_digit(json_integer(b));
    } else {
        lemma_decimal_round_trip(b as nat);
    }
    if a < 0 && b < 0 {
        lemma_cancel_prefix(minus, decimal_digits((-a) as nat), decimal_digits((-b) as nat));
        lemma_decimal_digits_injective((-a) as nat, (-b) as nat);
    }
}

/// Different transactions have different canonical texts: a change of any
/// field changes the text.
pub proof fn lemma_transaction_json_injective(a: TransactionView, b: TransactionView)
    requires
        transaction_json(a) == transaction_json(b),
    ensures
        a == b,
{
    let open = "{\"sender\":"@;
    let second = ",\"recipient\":"@;
    let third = ",\"amount\":"@;
    let close = "}"@;
    let a_amount = json_integer(a.amount) + close;
    let b_amount = json_integer(b.amount) + close;
    let a_recipient = json_string(a.recipient) + (third + a_amount);
    let b_recipient = json_string(b.recipient) + (third + b_amount);
    let a_sender = json_string(a.sender) + (second + a_recipient);
    let b_sender = json_string(b.sender) + (second + b_recipient);
    assert(transaction_json(a) =~= open + a_sender);
    assert(transaction_json(b) =~= open + b_sender);
    lemma_cancel_prefix(open, a_sender, b_sender);
    lemma_json_string_prefix_free(a.sender, b.sender, second + a_recipient, second + b_recipient);
    lemma_cancel_prefix(second, a_recipient, b_recipient);
    lemma_json_string_prefix_free(a.recipient, b.recipient, third + a_amount, third + b_amount);
    lemma_cancel_prefix(third, a_amount, b_amount);
    lemma_cancel_suffix(json_integer(a.amount), json_integer(b.amount), close);
    lemma_json_integer_injective(a.amount, b.amount);
}

} // verus!
