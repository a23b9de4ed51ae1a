//! Building strings: digits in a radix, zero padding, printable previews.

use vstd::prelude::*;
use vstd::string::*;

verus! {

/// The character of a digit below sixteen, upper case for ten and above.
pub open spec fn digit_char(d: int) -> char {
    if d < 10 {
        (48 + d) as char
    } else {
        (55 + d) as char
    }
}

/// The digits of `n` in `radix`, most significant first, without leading zeros
/// (zero is the single digit `0`).
pub open spec fn spec_digits(n: nat, radix: nat) -> Seq<char>
    decreases n,
{
    if radix < 2 || n < radix {
        seq![digit_char(n as int)]
    } else {
        proof {
            assert(n / radix < n) by (nonlinear_arith)
                requires
                    radix >= 2,
                    n >= radix,
            ;
        }
        spec_digits(n / radix, radix).push(digit_char((n % radix) as int))
    }
}

/// `s` with `0` characters in front until it is `width` long.
pub open spec fn zero_padded(s: Seq<char>, width: nat) -> Seq<char> {
    if s.len() < width {
        Seq::new((width - s.len()) as nat, |i: int| '0') + s
    } else {
        s
    }
}

/// Decimal text of an unsigned number, as `{}` prints it.
pub open spec fn spec_decimal(n: nat) -> Seq<char> {
    spec_digits(n, 10)
}

/// Decimal text of a signed number, as `{}` prints it.
pub open spec fn spec_signed_decimal(v: int) -> Seq<char> {
    if v < 0 {
        seq!['-'] + spec_digits((-v) as nat, 10)
    } else {
        spec_digits(v as nat, 10)
    }
}

/// Upper-case hexadecimal text padded to `width`, as `{:0width$X}` prints it.
pub open spec fn spec_hex(n: nat, width: nat) -> Seq<char> {
    zero_padded(spec_digits(n, 16), width)
}

/// Binary text padded to `width`, as `{:0width$b}` prints it.
pub open spec fn spec_binary(n: nat, width: nat) -> Seq<char> {
    zero_padded(spec_digits(n, 2), width)
}

/// The digits of a number are ASCII characters, and there is at least one.
pub proof fn lemma_digits_ascii(n: nat, radix: nat)
    requires
        2 <= radix <= 16,
    ensures
        spec_digits(n, radix).len() >= 1,
        forall|i: int| 0 <= i < spec_digits(n, radix).len() ==> '0' <= #[trigger] spec_digits(n, radix)[i] <= 'F',
    decreases n,
{
    if n < radix {
        assert(spec_digits(n, radix)[0] == digit_char(n as int));
    } else {
        assert(n / radix < n) by (nonlinear_arith)
            requires
                radix >= 2,
                n >= radix,
        ;
        lemma_digits_ascii(n / radix, radix);
        assert((n % radix) < 16) by (nonlinear_arith)
            requires
                radix >= 2,
                radix <= 16,
        ;
    }
}

/// Hexadecimal text is ASCII, at least one character long.
pub proof fn lemma_hex_ascii(n: nat, width: nat)
    ensures
        spec_hex(n, width).len() >= 1,
        forall|i: int| 0 <= i < spec_hex(n, width).len() ==> '0' <= #[trigger] spec_hex(n, width)[i] <= 'F',
{
    lemma_digits_ascii(n, 16);
    let d = spec_digits(n, 16);
    if d.len() < width {
        let pad = Seq::new((width - d.len()) as nat, |i: int| '0');
        assert forall|i: int| 0 <= i < spec_hex(n, width).len() implies '0' <= #[trigger] spec_hex(n, width)[i] <= 'F' by {
            if i < pad.len() {
                assert(spec_hex(n, width)[i] == pad[i]);
            } else {
                assert(spec_hex(n, width)[i] == d[i - pad.len()]);
            }
        }
    }
}

/// Appends one character to a string.
#[verifier::external_body]
pub(crate) fn push_char(s: &mut String, c: char)
    ensures
        final(s)@ == old(s)@.push(c),
{
    s.push(c);
}

fn digit_of(d: u64) -> (c: char)
    requires
        d < 16,
    ensures
        c == digit_char(d as int),
{
    if d < 10 {
        ((48 + d) as u8) as char
    } else {
        ((55 + d) as u8) as char
    }
}

/// The digits of `n` in `radix`.
pub fn radix_digits(n: u64, radix: u64) -> (v: Vec<char>)
    requires
        2 <= radix <= 16,
    ensures
        v@ == spec_digits(n as nat, radix as nat),
    decreases n,
{
    if n < radix {
        let mut v = Vec::new();
        v.push(digit_of(n));
        v
    } else {
        assert(n / radix < n) by (nonlinear_arith)
            requires
                radix >= 2,
                n >= radix,
        ;
        let mut v = radix_digits(n / radix, radix);
        v.push(digit_of(n % radix));
        v
    }
}

/// Appends the characters of `chars` to `s`.
pub fn append_chars(s: &mut String, chars: &Vec<char>)
    ensures
        final(s)@ == old(s)@ + chars@,
{
    let mut i: usize = 0;
    while i < chars.len()
        invariant
            i <= chars@.len(),
            s@ == old(s)@ + chars@.take(i as int),
        decreases chars@.len() - i,
    {
        push_char(s, chars[i]);
        i = i + 1;
        assert(chars@.take(i as int) =~= chars@.take(i - 1).push(chars@[i - 1]));
    }
    assert(chars@.take(chars@.len() as int) =~= chars@);
}

/// Appends `n` in `radix`, padded with zeros to `width` digits.
pub fn append_padded(s: &mut String, n: u64, radix: u64, width: usize)
    requires
        2 <= radix <= 16,
    ensures
        final(s)@ == old(s)@ + zero_padded(spec_digits(n as nat, radix as nat), width as nat),
{
    let digits = radix_digits(n, radix);
    let ghost start = s@;
    if digits.len() < width {
        let fill = width - digits.len();
        let mut k: usize = 0;
        while k < fill
            invariant
                k <= fill,
                s@ == start + Seq::new(k as nat, |i: int| '0'),
            decreases fill - k,
        {
            push_char(s, '0');
            k = k + 1;
            assert(Seq::new(k as nat, |i: int| '0') =~= Seq::new((k - 1) as nat, |i: int| '0').push('0'));
        }
    }
    append_chars(s, &digits);
    assert(s@ =~= start + zero_padded(spec_digits(n as nat, radix as nat), width as nat));
}

/// Decimal text of `n`.
pub fn decimal_string(n: u64) -> (s: String)
    ensures
        s@ == spec_decimal(n as nat),
{
    let mut s = String::new();
    append_padded(&mut s, n, 10, 0);
    assert(s@ =~= spec_decimal(n as nat));
    s
}

/// Upper-case hexadecimal text of `n`, as `{:X}` prints it.
pub fn upper_hex_string(n: u64) -> (s: String)
    ensures
        s@ == spec_hex(n as nat, 0),
{
    let mut s = String::new();
    append_padded(&mut s, n, 16, 0);
    assert(s@ =~= spec_hex(n as nat, 0));
    s
}

/// Appends the decimal text of a signed number.
pub fn append_signed_decimal(s: &mut String, v: i64)
    ensures
        final(s)@ == old(s)@ + spec_signed_decimal(v as int),
{
    if v < 0 {
        push_char(s, '-');
        let magnitude: u64 = ((-(v + 1)) as u64) + 1;
        append_padded(s, magnitude, 10, 0);
    } else {
        append_padded(s, v as u64, 10, 0);
    }
    assert(s@ =~= old(s)@ + spec_signed_decimal(v as int));
}

} // verus!
