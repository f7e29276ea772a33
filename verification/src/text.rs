//! Text primitives: byte escaping, case folding, comparison, and decimal
//! numbers.

use bstr::ByteSlice;
use vstd::prelude::*;
use vstd::string::StringExecFns;
use vstd::utf8::is_ascii_chars;

verus! {

/// The text that `bstr` writes for a byte string when it escapes it: printable
/// ASCII and well-formed non-ASCII UTF-8 are kept, everything else is written
/// with a backslash.
pub uninterp spec fn escaped(bytes: Seq<u8>) -> Seq<char>;

/// The Unicode lower-case form of a text, as `str::to_lowercase` computes it.
pub uninterp spec fn lowercased(text: Seq<char>) -> Seq<char>;

/// Calls `bstr::ByteSlice::escape_bytes` and collects the characters it yields.
/// Nothing is proved of the call: the contract only gives its result the name
/// [`escaped`], which depends on the bytes alone.
#[verifier::external_body]
pub(crate) fn escape_text(bytes: &[u8]) -> (text: String)
    ensures
        text@ == escaped(bytes@),
{
    bytes.escape_bytes().to_string()
}

/// Calls `str::to_lowercase`. Nothing is proved of the call: the contract only
/// gives its result the name [`lowercased`], which depends on the text alone.
#[verifier::external_body]
pub(crate) fn lowercase_text(text: &str) -> (lower: String)
    ensures
        lower@ == lowercased(text@),
{
    text.to_lowercase()
}

/// Whether two texts have the same characters.
pub fn text_eq(a: &str, b: &str) -> (same: bool)
    ensures
        same == (a@ == b@),
{
    let n = a.unicode_len();
    if n != b.unicode_len() {
        return false;
    }
    let mut i: usize = 0;
    while i < n
        invariant
            i <= n,
            n == a@.len(),
            n == b@.len(),
            forall|j: int| 0 <= j < i ==> a@[j] == b@[j],
        decreases n - i,
    {
        if a.get_char(i) != b.get_char(i) {
            return false;
        }
        i += 1;
    }
    assert(a@ =~= b@);
    true
}

/// The marks that the parser and the reports write.
#[derive(Debug, Copy, Clone, PartialEq, Eq, Structural)]
pub enum Mark {
    Space,
    Quote,
    Backslash,
    Dot,
    Colon,
}

impl Mark {
    pub open spec fn as_char(self) -> char {
        match self {
            Mark::Space => ' ',
            Mark::Quote => '"',
            Mark::Backslash => '\\',
            Mark::Dot => '.',
            Mark::Colon => ':',
        }
    }
}

/// Appends one mark to a text.
pub fn push_mark(text: &mut String, mark: Mark)
    ensures
        final(text)@ == old(text)@.push(mark.as_char()),
{
    proof {
        reveal_strlit(" ");
        reveal_strlit("\"");
        reveal_strlit("\\");
        reveal_strlit(".");
        reveal_strlit(":");
    }
    let ghost before = text@;
    match mark {
        Mark::Space => text.append(" "),
        Mark::Quote => text.append("\""),
        Mark::Backslash => text.append("\\"),
        Mark::Dot => text.append("."),
        Mark::Colon => text.append(":"),
    }
    assert(text@ =~= before.push(mark.as_char()));
}

/// The lower-case word that a token of a zone file stands for.
pub open spec fn word_of(bytes: Seq<u8>) -> Seq<char> {
    lowercased(escaped(bytes))
}

/// Escapes a token and folds it to lower case.
pub fn word(bytes: &[u8]) -> (w: String)
    ensures
        w@ == word_of(bytes@),
{
    let text = escape_text(bytes);
    lowercase_text(text.as_str())
}

pub open spec fn is_digit(c: char) -> bool {
    '0' <= c <= '9'
}

pub open spec fn digit_value(c: char) -> nat {
    (c as int - '0' as int) as nat
}

pub open spec fn all_digits(s: Seq<char>) -> bool {
    forall|i: int| 0 <= i < s.len() ==> is_digit(#[trigger] s[i])
}

/// The number that a sequence of decimal digits writes; the empty sequence
/// writes zero.
pub open spec fn digits_value(s: Seq<char>) -> nat
    decreases s.len(),
{
    if s.len() == 0 {
        0
    } else {
        digits_value(s.drop_last()) * 10 + digit_value(s.last())
    }
}

/// The digits of a decimal number: the text without one optional leading `+`.
pub open spec fn unsigned_part(s: Seq<char>) -> Seq<char> {
    if s.len() > 0 && s[0] == '+' {
        s.skip(1)
    } else {
        s
    }
}

/// The value of a decimal number: an optional `+`, then one or more decimal
/// digits and nothing else.
pub open spec fn decimal_value(s: Seq<char>) -> Option<nat> {
    let body = unsigned_part(s);
    if body.len() > 0 && all_digits(body) {
        Some(digits_value(body))
    } else {
        None
    }
}

/// The value of a decimal number that does not exceed `max`.
pub open spec fn bounded_decimal(s: Seq<char>, max: nat) -> Option<nat> {
    match decimal_value(s) {
        Some(v) => if v <= max {
            Some(v)
        } else {
            None
        },
        None => None,
    }
}

/// A number grows when digits are written behind it.
pub proof fn lemma_digits_value_grows(s: Seq<char>, n: int)
    requires
        0 <= n <= s.len(),
    ensures
        digits_value(s.take(n)) <= digits_value(s),
    decreases s.len() - n,
{
    if n == s.len() {
        assert(s.take(n) =~= s);
    } else {
        lemma_digits_value_grows(s, n + 1);
        assert(s.take(n + 1).drop_last() =~= s.take(n));
    }
}

fn digit_of(b: u8) -> (d: Option<u64>)
    ensures
        d is Some <==> is_digit(b as char),
        d matches Some(v) ==> v == digit_value(b as char),
{
    if 48 <= b && b <= 57 {
        Some((b - 48) as u64)
    } else {
        None
    }
}

/// A text with a character that is not ASCII is no decimal number.
proof fn lemma_decimal_is_ascii(s: Seq<char>)
    requires
        !is_ascii_chars(s),
    ensures
        decimal_value(s) is None,
{
    let i = choose|i: int| 0 <= i < s.len() && !('\0' <= #[trigger] s[i] <= '\u{7f}');
    let body = unsigned_part(s);
    if body.len() > 0 && all_digits(body) {
        if s[0] == '+' {
            assert(i > 0);
            assert(is_digit(body[i - 1]));
        } else {
            assert(is_digit(body[i]));
        }
    }
}

/// Reads a decimal number of at most `max`.
pub fn parse_decimal(s: &str, max: u64) -> (r: Option<u64>)
    requires
        max <= u32::MAX,
    ensures
        r is Some <==> bounded_decimal(s@, max as nat) is Some,
        r matches Some(v) ==> bounded_decimal(s@, max as nat) == Some(v as nat),
{
    if !s.is_ascii() {
        proof {
            lemma_decimal_is_ascii(s@);
        }
        return None;
    }
    broadcast use vstd::string::is_ascii_spec_bytes;

    let bytes = s.as_bytes();
    let len = bytes.len();
    assert(len == s@.len());
    assert(forall|i: int| 0 <= i < len ==> (#[trigger] bytes@[i]) as char == s@[i]);
    if len == 0 {
        return None;
    }
    let start: usize = if bytes[0] == 43 {
        1
    } else {
        0
    };
    assert(start == 1 <==> s@[0] == '+');
    if start == len {
        return None;
    }
    let ghost body = unsigned_part(s@);
    let mut value: u64 = 0;
    let mut i: usize = start;
    while i < len
        invariant
            start <= i <= len,
            len == s@.len(),
            len == bytes@.len(),
            forall|j: int| 0 <= j < len ==> (#[trigger] bytes@[j]) as char == s@[j],
            body == s@.skip(start as int),
            body == unsigned_part(s@),
            all_digits(body.take(i - start)),
            value == digits_value(body.take(i - start)),
            value <= max <= u32::MAX,
        decreases len - i,
    {
        let b = bytes[i];
        assert(body[i - start] == b as char);
        assert(body.take(i - start + 1).drop_last() =~= body.take(i - start));
        match digit_of(b) {
            None => {
                return None;
            },
            Some(d) => {
                let next = value * 10 + d;
                if next > max {
                    proof {
                        if all_digits(body) {
                            lemma_digits_value_grows(body, i - start + 1);
                        }
                    }
                    return None;
                }
                value = next;
            },
        }
        i += 1;
    }
    assert(body.take(len - start) =~= body);
    Some(value)
}

/// The decimal digits that write a number, without leading zeros.
pub open spec fn decimal_text(n: nat) -> Seq<char>
    decreases n,
{
    if n < 10 {
        seq![digit_char(n)]
    } else {
        decimal_text(n / 10).push(digit_char(n % 10))
    }
}

pub open spec fn digit_char(d: nat) -> char {
    if d == 0 {
        '0'
    } else if d == 1 {
        '1'
    } else if d == 2 {
        '2'
    } else if d == 3 {
        '3'
    } else if d == 4 {
        '4'
    } else if d == 5 {
        '5'
    } else if d == 6 {
        '6'
    } else if d == 7 {
        '7'
    } else if d == 8 {
        '8'
    } else {
        '9'
    }
}

fn digit_text(d: u64) -> (text: &'static str)
    requires
        d < 10,
    ensures
        text@ == seq![digit_char(d as nat)],
{
    proof {
        reveal_strlit("0");
        reveal_strlit("1");
        reveal_strlit("2");
        reveal_strlit("3");
        reveal_strlit("4");
        reveal_strlit("5");
        reveal_strlit("6");
        reveal_strlit("7");
        reveal_strlit("8");
        reveal_strlit("9");
    }
    let text = if d == 0 {
        "0"
    } else if d == 1 {
        "1"
    } else if d == 2 {
        "2"
    } else if d == 3 {
        "3"
    } else if d == 4 {
        "4"
    } else if d == 5 {
        "5"
    } else if d == 6 {
        "6"
    } else if d == 7 {
        "7"
    } else if d == 8 {
        "8"
    } else {
        "9"
    };
    assert(text@ =~= seq![digit_char(d as nat)]);
    text
}

/// Writes a number in decimal.
pub fn format_decimal(n: u64) -> (text: String)
    ensures
        text@ == decimal_text(n as nat),
    decreases n,
{
    if n < 10 {
        String::from_str(digit_text(n))
    } else {
        let mut text = format_decimal(n / 10);
        text.append(digit_text(n % 10));
        assert(text@ =~= decimal_text((n / 10) as nat).push(digit_char((n % 10) as nat)));
        text
    }
}

} // verus!
