//! Parsing hexadecimal byte text such as `DE AD be ef`.

use vstd::prelude::*;
use vstd::string::*;
use vstd::utf8::{decode_utf8, encode_utf8, valid_utf8};

use crate::text::push_char;

verus! {

/// The characters with the Unicode White_Space property.
pub open spec fn is_white_space(c: char) -> bool {
    let u = c as u32;
    ||| 0x09 <= u <= 0x0d
    ||| u == 0x20
    ||| u == 0x85
    ||| u == 0xa0
    ||| u == 0x1680
    ||| 0x2000 <= u <= 0x200a
    ||| u == 0x2028
    ||| u == 0x2029
    ||| u == 0x202f
    ||| u == 0x205f
    ||| u == 0x3000
}

/// Whether `c` has the Unicode White_Space property, which is what
/// `char::is_whitespace` answers.
pub(crate) fn char_is_whitespace(c: char) -> (b: bool)
    ensures
        b == is_white_space(c),
{
    let u = c as u32;
    (0x09 <= u && u <= 0x0d) || u == 0x20 || u == 0x85 || u == 0xa0 || u == 0x1680 || (0x2000 <= u
        && u <= 0x200a) || u == 0x2028 || u == 0x2029 || u == 0x202f || u == 0x205f || u == 0x3000
}

/// `s` without its white space.
pub open spec fn strip_white_space(s: Seq<char>) -> Seq<char>
    decreases s.len(),
{
    if s.len() == 0 {
        Seq::empty()
    } else if is_white_space(s.last()) {
        strip_white_space(s.drop_last())
    } else {
        strip_white_space(s.drop_last()).push(s.last())
    }
}

pub open spec fn is_hex_digit(b: u8) -> bool {
    (0x30 <= b <= 0x39) || (0x41 <= b <= 0x46) || (0x61 <= b <= 0x66)
}

pub open spec fn hex_digit_value(b: u8) -> int {
    if 0x30 <= b <= 0x39 {
        b - 0x30
    } else if 0x41 <= b <= 0x46 {
        b - 0x41 + 10
    } else {
        b - 0x61 + 10
    }
}

/// Two bytes that read as one byte in base 16, the way `u8::from_str_radix`
/// reads them: two hex digits, or `+` and one hex digit.
pub open spec fn pair_ok(b0: u8, b1: u8) -> bool {
    (is_hex_digit(b0) || b0 == 0x2b) && is_hex_digit(b1)
}

pub open spec fn pair_value(b0: u8, b1: u8) -> u8 {
    if b0 == 0x2b {
        hex_digit_value(b1) as u8
    } else {
        (hex_digit_value(b0) * 16 + hex_digit_value(b1)) as u8
    }
}

/// Why hex text was refused.
#[derive(Debug, Clone)]
pub enum HexParseError {
    /// The text without white space is an odd number of bytes long.
    OddDigitCount,
    /// A pair of bytes splits a character, so it is no text; `detail` says
    /// where the encoding breaks.
    NotUtf8 { detail: String },
    /// A pair of bytes, `text`, is no hex byte.
    InvalidHexByte { text: String },
}

/// A refusal as plain values.
pub enum HexErrorView {
    OddDigitCount,
    NotUtf8(Seq<char>),
    InvalidHexByte(Seq<char>),
}

impl View for HexParseError {
    type V = HexErrorView;

    open spec fn view(&self) -> HexErrorView {
        match self {
            HexParseError::OddDigitCount => HexErrorView::OddDigitCount,
            HexParseError::NotUtf8 { detail } => HexErrorView::NotUtf8(detail@),
            HexParseError::InvalidHexByte { text } => HexErrorView::InvalidHexByte(text@),
        }
    }
}

/// The sentence that reports a refusal.
pub open spec fn hex_error_text(e: HexErrorView) -> Seq<char> {
    match e {
        HexErrorView::OddDigitCount => "hex input must contain an even number of digits"@,
        HexErrorView::NotUtf8(detail) => detail,
        HexErrorView::InvalidHexByte(text) => "invalid hex byte "@ + text
            + ": invalid digit found in string"@,
    }
}

impl HexParseError {
    /// The sentence that reports the refusal.
    pub fn message(&self) -> (s: String)
        ensures
            s@ == hex_error_text(self@),
    {
        match self {
            HexParseError::OddDigitCount => String::from_str("hex input must contain an even number of digits"),
            HexParseError::NotUtf8 { detail } => detail.clone(),
            HexParseError::InvalidHexByte { text } => {
                let s = String::from_str("invalid hex byte ");
                let s = s.concat(text.as_str());
                s.concat(": invalid digit found in string")
            },
        }
    }
}

/// The text that `std::str::Utf8Error` gives for bytes that are not UTF-8.
pub uninterp spec fn utf8_error_text(bytes: Seq<u8>) -> Seq<char>;

/// `std::str::from_utf8`, as its documentation says: the text the bytes
/// encode when they are UTF-8, an error otherwise, here taken as the error's
/// text.
#[verifier::external_body]
fn utf8_text(bytes: &[u8]) -> (r: Result<String, String>)
    ensures
        match r {
            Ok(s) => valid_utf8(bytes@) && s@ == decode_utf8(bytes@),
            Err(e) => !valid_utf8(bytes@) && e@ == utf8_error_text(bytes@),
        },
{
    match std::str::from_utf8(bytes) {
        Ok(s) => Ok(s.to_string()),
        Err(e) => Err(e.to_string()),
    }
}

/// The UTF-8 bytes of the text without its white space.
pub open spec fn hex_digits_of(input: Seq<char>) -> Seq<u8> {
    encode_utf8(strip_white_space(input))
}

/// How the pair `b0 b1` is refused: as no text, or as text that is no hex
/// byte.
pub open spec fn pair_error(b0: u8, b1: u8) -> HexErrorView {
    let pair = seq![b0, b1];
    if valid_utf8(pair) {
        HexErrorView::InvalidHexByte(decode_utf8(pair))
    } else {
        HexErrorView::NotUtf8(utf8_error_text(pair))
    }
}

/// The first pair, from pair `k` on, that is no hex byte.
pub open spec fn first_bad_pair(d: Seq<u8>, k: int) -> Option<int>
    decreases d.len() - 2 * k,
{
    if k < 0 || 2 * k + 1 >= d.len() {
        None
    } else if !pair_ok(d[2 * k], d[2 * k + 1]) {
        Some(k)
    } else {
        first_bad_pair(d, k + 1)
    }
}

/// What `parse_hex_bytes` gives: the digits, white space dropped, read two
/// bytes at a time; the first pair that is no hex byte is reported.
pub open spec fn spec_parse_hex(input: Seq<char>) -> Result<Seq<u8>, HexErrorView> {
    let d = hex_digits_of(input);
    if d.len() % 2 != 0 {
        Err(HexErrorView::OddDigitCount)
    } else {
        match first_bad_pair(d, 0) {
            None => Ok(Seq::new((d.len() / 2) as nat, |k: int| pair_value(d[2 * k], d[2 * k + 1]))),
            Some(k) => Err(pair_error(d[2 * k], d[2 * k + 1])),
        }
    }
}

pub proof fn lemma_first_bad_pair(d: Seq<u8>, k: int)
    requires
        0 <= k,
        d.len() % 2 == 0,
    ensures
        first_bad_pair(d, k) is None <==> forall|j: int| k <= j < d.len() / 2 ==> #[trigger] pair_ok(d[2 * j], d[2 * j + 1]),
        first_bad_pair(d, k) matches Some(j) ==> k <= j < d.len() / 2 && !pair_ok(d[2 * j], d[2 * j + 1])
            && forall|i: int| k <= i < j ==> #[trigger] pair_ok(d[2 * i], d[2 * i + 1]),
    decreases d.len() - 2 * k,
{
    if 2 * k + 1 < d.len() {
        lemma_first_bad_pair(d, k + 1);
    }
}

fn hex_value_of(b: u8) -> (r: Option<u8>)
    ensures
        r is Some <==> is_hex_digit(b),
        r matches Some(v) ==> v == hex_digit_value(b) && v < 16,
{
    if 0x30 <= b && b <= 0x39 {
        Some(b - 0x30)
    } else if 0x41 <= b && b <= 0x46 {
        Some(b - 0x41 + 10)
    } else if 0x61 <= b && b <= 0x66 {
        Some(b - 0x61 + 10)
    } else {
        None
    }
}

/// Parses hex digits, ignoring white space; two digits make a byte.
pub fn parse_hex_bytes(input: &str) -> (r: Result<Vec<u8>, HexParseError>)
    ensures
        match r {
            Ok(v) => spec_parse_hex(input@) == Ok::<Seq<u8>, HexErrorView>(v@),
            Err(e) => spec_parse_hex(input@) == Err::<Seq<u8>, HexErrorView>(e@),
        },
{
    let mut compact = String::new();
    let ghost chars = input@;
    for ch in it: input.chars()
        invariant
            chars == input@,
            it.seq() == chars,
            compact@ == strip_white_space(chars.take(it.index() as int)),
    {
        proof {
            assert(chars.take(it.index() + 1).drop_last() =~= chars.take(it.index() as int));
        }
        if !char_is_whitespace(ch) {
            push_char(&mut compact, ch);
        }
    }
    assert(chars.take(chars.len() as int) =~= chars);
    let digits = compact.as_str().as_bytes();
    let ghost d = digits@;
    assert(d == hex_digits_of(input@));
    if digits.len() % 2 != 0 {
        return Err(HexParseError::OddDigitCount);
    }
    let count = digits.len() / 2;
    let mut out: Vec<u8> = Vec::with_capacity(count);
    let mut k: usize = 0;
    while k < count
        invariant
            d == digits@,
            d == hex_digits_of(input@),
            d.len() == digits.len(),
            count * 2 == d.len(),
            k <= count,
            forall|j: int| 0 <= j < k ==> #[trigger] pair_ok(d[2 * j], d[2 * j + 1]),
            out@ == Seq::new(k as nat, |j: int| pair_value(d[2 * j], d[2 * j + 1])),
        decreases count - k,
    {
        let b0 = digits[2 * k];
        let b1 = digits[2 * k + 1];
        match pair_byte(b0, b1) {
            Some(value) => {
                out.push(value);
                k = k + 1;
                assert(out@ =~= Seq::new(k as nat, |j: int| pair_value(d[2 * j], d[2 * j + 1])));
            },
            None => {
                proof {
                    lemma_first_bad_pair(d, 0);
                    lemma_first_bad_pair(d, k as int);
                    assert(first_bad_pair(d, k as int) == Some(k as int));
                    lemma_first_bad_from(d, k as int);
                }
                let mut pair: Vec<u8> = Vec::new();
                pair.push(b0);
                pair.push(b1);
                assert(pair@ =~= seq![b0, b1]);
                return match utf8_text(pair.as_slice()) {
                    Ok(text) => Err(HexParseError::InvalidHexByte { text }),
                    Err(detail) => Err(HexParseError::NotUtf8 { detail }),
                };
            },
        }
    }
    proof {
        lemma_first_bad_pair(d, 0);
    }
    Ok(out)
}

/// The byte that the pair `b0 b1` reads as, if it is a hex byte.
fn pair_byte(b0: u8, b1: u8) -> (r: Option<u8>)
    ensures
        r is Some <==> pair_ok(b0, b1),
        r matches Some(v) ==> v == pair_value(b0, b1),
{
    match hex_value_of(b1) {
        None => None,
        Some(lo) => {
            if b0 == 0x2b {
                Some(lo)
            } else {
                match hex_value_of(b0) {
                    None => None,
                    Some(hi) => Some(hi * 16 + lo),
                }
            }
        },
    }
}

/// With every pair before `k` a hex byte, the first bad pair from the start
/// is the first bad pair from `k`.
proof fn lemma_first_bad_from(d: Seq<u8>, k: int)
    requires
        0 <= k,
        forall|j: int| 0 <= j < k ==> #[trigger] pair_ok(d[2 * j], d[2 * j + 1]),
        2 * k + 1 < d.len(),
    ensures
        first_bad_pair(d, 0) == first_bad_pair(d, k),
    decreases k,
{
    if k > 0 {
        assert forall|j: int| 0 <= j < k - 1 implies #[trigger] pair_ok(d[2 * j], d[2 * j + 1]) by {}
        lemma_first_bad_from(d, k - 1);
        assert(pair_ok(d[2 * (k - 1)], d[2 * (k - 1) + 1]));
    }
}

} // verus!
