//! The data inspector: the bytes at an offset read as integers of several
//! widths and as text in a chosen encoding.

use vstd::prelude::*;
use vstd::string::*;

use crate::numbers::{read_uint, signed_of, to_signed, uint_of, Endianness};
use crate::pieces::imin;
use crate::text::{
    append_padded, append_signed_decimal, push_char, spec_binary, spec_decimal, spec_hex,
    spec_signed_decimal,
};

verus! {

/// How the inspector previews bytes as text.
#[derive(Clone, Copy, Debug, PartialEq, Eq, Structural)]
pub enum PreviewEncoding {
    Utf8,
    Utf16Le,
    Utf16Be,
    ShiftJis,
    Ascii,
}

pub open spec fn spec_label(e: PreviewEncoding) -> Seq<char> {
    match e {
        PreviewEncoding::Utf8 => "UTF-8"@,
        PreviewEncoding::Utf16Le => "UTF-16LE"@,
        PreviewEncoding::Utf16Be => "UTF-16BE"@,
        PreviewEncoding::ShiftJis => "Shift-JIS"@,
        PreviewEncoding::Ascii => "ASCII"@,
    }
}

/// The encodings in the order the preview cycles through them.
pub open spec fn spec_next(e: PreviewEncoding) -> PreviewEncoding {
    match e {
        PreviewEncoding::Utf8 => PreviewEncoding::Utf16Le,
        PreviewEncoding::Utf16Le => PreviewEncoding::Utf16Be,
        PreviewEncoding::Utf16Be => PreviewEncoding::ShiftJis,
        PreviewEncoding::ShiftJis => PreviewEncoding::Ascii,
        PreviewEncoding::Ascii => PreviewEncoding::Utf8,
    }
}

impl PreviewEncoding {
    /// The name shown for the encoding.
    pub fn label(self) -> (s: &'static str)
        ensures
            s@ == spec_label(self),
    {
        match self {
            PreviewEncoding::Utf8 => "UTF-8",
            PreviewEncoding::Utf16Le => "UTF-16LE",
            PreviewEncoding::Utf16Be => "UTF-16BE",
            PreviewEncoding::ShiftJis => "Shift-JIS",
            PreviewEncoding::Ascii => "ASCII",
        }
    }

    /// The encoding after this one; after the last comes the first again.
    pub fn next(self) -> (e: Self)
        ensures
            e == spec_next(self),
    {
        match self {
            PreviewEncoding::Utf8 => PreviewEncoding::Utf16Le,
            PreviewEncoding::Utf16Le => PreviewEncoding::Utf16Be,
            PreviewEncoding::Utf16Be => PreviewEncoding::ShiftJis,
            PreviewEncoding::ShiftJis => PreviewEncoding::Ascii,
            PreviewEncoding::Ascii => PreviewEncoding::Utf8,
        }
    }
}

/// A text encoding that the decoder library knows.
#[derive(Clone, Copy, PartialEq, Eq, Structural)]
pub enum TextCodec {
    Utf8,
    Utf16Le,
    Utf16Be,
    ShiftJis,
}

/// The codec's name in the WHATWG Encoding Standard.
pub open spec fn codec_name(c: TextCodec) -> Seq<char> {
    match c {
        TextCodec::Utf8 => "UTF-8"@,
        TextCodec::Utf16Le => "UTF-16LE"@,
        TextCodec::Utf16Be => "UTF-16BE"@,
        TextCodec::ShiftJis => "Shift_JIS"@,
    }
}

/// The codec a preview encoding decodes with; none for the ASCII preview.
pub open spec fn codec_of(e: PreviewEncoding) -> Option<TextCodec> {
    match e {
        PreviewEncoding::Utf8 => Some(TextCodec::Utf8),
        PreviewEncoding::Utf16Le => Some(TextCodec::Utf16Le),
        PreviewEncoding::Utf16Be => Some(TextCodec::Utf16Be),
        PreviewEncoding::ShiftJis => Some(TextCodec::ShiftJis),
        PreviewEncoding::Ascii => None,
    }
}

/// The text that decoding `bytes` with the named encoding gives, with a byte
/// order mark honoured and malformed sequences replaced by U+FFFD.
pub uninterp spec fn decoded_text(encoding_name: Seq<char>, bytes: Seq<u8>) -> Seq<char>;

/// Decodes `bytes` with `codec` by `encoding_rs::Encoding::decode`. The
/// contract claims only that the result is the named function of the codec's
/// name and the bytes; what that text is, is encoding_rs's business. The call
/// panics when its buffer size overflows `usize`, so only short inputs are
/// admitted.
#[verifier::external_body]
fn decode_text(codec: TextCodec, bytes: &[u8]) -> (text: String)
    requires
        bytes@.len() <= 64,
    ensures
        text@ == decoded_text(codec_name(codec), bytes@),
{
    let encoding = match codec {
        TextCodec::Utf8 => encoding_rs::UTF_8,
        TextCodec::Utf16Le => encoding_rs::UTF_16LE,
        TextCodec::Utf16Be => encoding_rs::UTF_16BE,
        TextCodec::ShiftJis => encoding_rs::SHIFT_JIS,
    };
    let (text, _, _) = encoding.decode(bytes);
    text.into_owned()
}

/// The control characters (general category Cc).
pub open spec fn is_cc(c: char) -> bool {
    (c as u32) <= 0x1f || (0x7f <= (c as u32) && (c as u32) <= 0x9f)
}

/// Whether `c` is of general category Cc, U+0000 to U+001F and U+007F to
/// U+009F, which is what `char::is_control` answers.
fn char_is_control(c: char) -> (b: bool)
    ensures
        b == is_cc(c),
{
    let u = c as u32;
    u <= 0x1f || (0x7f <= u && u <= 0x9f)
}

/// How the preview shows a decoded character: control characters other than
/// newline and tab become `.`.
pub open spec fn preview_char(c: char) -> char {
    if is_cc(c) && c != '\n' && c != '\t' {
        '.'
    } else {
        c
    }
}

/// How a byte shows as ASCII: printable bytes as themselves, others as `.`.
pub open spec fn printable_or_dot(b: u8) -> char {
    if 0x20 <= b <= 0x7e {
        b as char
    } else {
        '.'
    }
}

/// The text preview of the first 64 bytes.
pub open spec fn spec_decode_preview(bytes: Seq<u8>, e: PreviewEncoding) -> Seq<char> {
    let head = bytes.take(imin(bytes.len() as int, 64));
    match codec_of(e) {
        None => head.map_values(|b: u8| printable_or_dot(b)),
        Some(codec) => decoded_text(codec_name(codec), head).map_values(|c: char| preview_char(c)),
    }
}

/// `.` or the printable byte itself.
pub fn printable_char(b: u8) -> (c: char)
    ensures
        c == printable_or_dot(b),
{
    if 0x20 <= b && b <= 0x7e {
        b as char
    } else {
        '.'
    }
}

/// The text preview of the first 64 bytes in `encoding`.
pub fn decode_preview(bytes: &[u8], encoding: PreviewEncoding) -> (s: String)
    ensures
        s@ == spec_decode_preview(bytes@, encoding),
{
    let take = if bytes.len() < 64 {
        bytes.len()
    } else {
        64
    };
    let ghost head = bytes@.take(take as int);
    let mut out = String::new();
    let codec = match encoding {
        PreviewEncoding::Utf8 => TextCodec::Utf8,
        PreviewEncoding::Utf16Le => TextCodec::Utf16Le,
        PreviewEncoding::Utf16Be => TextCodec::Utf16Be,
        PreviewEncoding::ShiftJis => TextCodec::ShiftJis,
        PreviewEncoding::Ascii => {
            let mut k: usize = 0;
            while k < take
                invariant
                    take <= bytes@.len(),
                    head == bytes@.take(take as int),
                    k <= take,
                    out@ == head.take(k as int).map_values(|b: u8| printable_or_dot(b)),
                decreases take - k,
            {
                push_char(&mut out, printable_char(bytes[k]));
                k = k + 1;
                assert(out@ =~= head.take(k as int).map_values(|b: u8| printable_or_dot(b)));
            }
            assert(head.take(take as int) =~= head);
            return out;
        },
    };
    let mut prefix: Vec<u8> = Vec::new();
    let mut k: usize = 0;
    while k < take
        invariant
            take <= bytes@.len(),
            k <= take,
            prefix@ == bytes@.take(k as int),
        decreases take - k,
    {
        prefix.push(bytes[k]);
        k = k + 1;
        assert(prefix@ =~= bytes@.take(k as int));
    }
    let text = decode_text(codec, prefix.as_slice());
    preview_decoded(text.as_str())
}

/// How decoded text shows in the preview: control characters other than
/// newline and tab become `.`.
pub fn preview_decoded(text: &str) -> (s: String)
    ensures
        s@ == text@.map_values(|c: char| preview_char(c)),
{
    let mut out = String::new();
    let ghost decoded = text@;
    for ch in it: text.chars()
        invariant
            decoded == text@,
            it.seq() == decoded,
            out@ == decoded.take(it.index() as int).map_values(|c: char| preview_char(c)),
    {
        let shown = if char_is_control(ch) && ch != '\n' && ch != '\t' {
            '.'
        } else {
            ch
        };
        push_char(&mut out, shown);
        assert(out@ =~= decoded.take(it.index() + 1).map_values(|c: char| preview_char(c)));
    }
    assert(decoded.take(decoded.len() as int) =~= decoded);
    out
}


/// One line of the inspector: what the bytes are read as, and the reading.
#[derive(Debug, Clone)]
pub struct InspectorValue {
    pub label: &'static str,
    pub value: String,
}

/// The lines as label and value texts.
pub open spec fn inspector_view(vs: Seq<InspectorValue>) -> Seq<(Seq<char>, Seq<char>)> {
    vs.map_values(|v: InspectorValue| (v.label@, v.value@))
}

/// `offset` as sixteen hexadecimal digits and in decimal.
pub open spec fn offset_text(offset: nat) -> Seq<char> {
    "0x"@ + spec_hex(offset, 16) + " / "@ + spec_decimal(offset)
}

/// A byte in decimal, as two hexadecimal digits and as eight binary digits.
pub open spec fn byte_text(b: nat) -> Seq<char> {
    spec_decimal(b) + " / 0x"@ + spec_hex(b, 2) + " / "@ + spec_binary(b, 8)
}

/// An unsigned value in decimal and in hexadecimal.
pub open spec fn unsigned_text(u: nat) -> Seq<char> {
    spec_decimal(u) + " / 0x"@ + spec_hex(u, 0)
}

/// The two lines for the `size`-byte integer at the start of `bytes`, if there
/// are that many bytes.
pub open spec fn int_lines(
    bytes: Seq<u8>,
    size: nat,
    unsigned_label: Seq<char>,
    signed_label: Seq<char>,
    e: Endianness,
) -> Seq<(Seq<char>, Seq<char>)> {
    if bytes.len() >= size {
        let u = uint_of(bytes.take(size as int), e);
        seq![
            (unsigned_label, unsigned_text(u)),
            (signed_label, spec_signed_decimal(signed_of(u, 8 * size))),
        ]
    } else {
        Seq::empty()
    }
}

/// The inspector's lines for `bytes` at `offset`: the offset; the first byte
/// unsigned and signed; the 16-, 32- and 64-bit integers unsigned and signed
/// as far as the bytes reach; the text preview.
pub open spec fn spec_inspector(
    bytes: Seq<u8>,
    offset: nat,
    e: Endianness,
    encoding: PreviewEncoding,
) -> Seq<(Seq<char>, Seq<char>)> {
    seq![("Offset"@, offset_text(offset))] + (if bytes.len() >= 1 {
        seq![("u8"@, byte_text(bytes[0] as nat)), ("i8"@, spec_signed_decimal(signed_of(bytes[0] as nat, 8)))]
    } else {
        Seq::empty()
    }) + int_lines(bytes, 2, "16-bit unsigned"@, "16-bit signed"@, e) + int_lines(
        bytes,
        4,
        "32-bit unsigned"@,
        "32-bit signed"@,
        e,
    ) + int_lines(bytes, 8, "64-bit unsigned"@, "64-bit signed"@, e) + seq![
        (spec_label(encoding), spec_decode_preview(bytes, encoding)),
    ]
}

fn push_int_lines(
    out: &mut Vec<InspectorValue>,
    bytes: &[u8],
    size: usize,
    unsigned_label: &'static str,
    signed_label: &'static str,
    e: Endianness,
)
    requires
        size == 2 || size == 4 || size == 8,
    ensures
        inspector_view(final(out)@) == inspector_view(old(out)@) + int_lines(
            bytes@,
            size as nat,
            unsigned_label@,
            signed_label@,
            e,
        ),
{
    if bytes.len() >= size {
        let u = read_uint(bytes, 0, size, e);
        assert(bytes@.subrange(0, size as int) =~= bytes@.take(size as int));
        let mut text = String::new();
        append_padded(&mut text, u, 10, 0);
        text.append(" / 0x");
        append_padded(&mut text, u, 16, 0);
        let ghost before = out@;
        out.push(InspectorValue { label: unsigned_label, value: text });
        proof {
            crate::numbers::lemma_pow256_pow2();
        }
        let bits: u64 = 8 * size as u64;
        let signed = to_signed(u, bits);
        let mut stext = String::new();
        append_signed_decimal(&mut stext, signed);
        out.push(InspectorValue { label: signed_label, value: stext });
        assert(inspector_view(out@) =~= inspector_view(before) + int_lines(
            bytes@,
            size as nat,
            unsigned_label@,
            signed_label@,
            e,
        ));
    } else {
        assert(inspector_view(out@) =~= inspector_view(old(out)@) + int_lines(
            bytes@,
            size as nat,
            unsigned_label@,
            signed_label@,
            e,
        ));
    }
}

/// The inspector's lines for `bytes`, which start at `offset` in the
/// document: the offset, the integer readings of the leading bytes and the
/// text preview. Floating-point readings are not among them.
pub fn inspector_values(
    bytes: &[u8],
    offset: u64,
    endian: Endianness,
    encoding: PreviewEncoding,
) -> (out: Vec<InspectorValue>)
    ensures
        inspector_view(out@) == spec_inspector(bytes@, offset as nat, endian, encoding),
        bytes@.len() >= 1 ==> inspector_view(out@)[2] == ("i8"@, spec_signed_decimal(
            if bytes@[0] >= 128 {
                bytes@[0] - 256
            } else {
                bytes@[0] as int
            },
        )),
{
    let mut out: Vec<InspectorValue> = Vec::new();
    let mut text = String::from_str("0x");
    append_padded(&mut text, offset, 16, 16);
    text.append(" / ");
    append_padded(&mut text, offset, 10, 0);
    out.push(InspectorValue { label: "Offset", value: text });
    let ghost first = inspector_view(out@);
    if bytes.len() >= 1 {
        let b = bytes[0] as u64;
        let mut t = String::new();
        append_padded(&mut t, b, 10, 0);
        t.append(" / 0x");
        append_padded(&mut t, b, 16, 2);
        t.append(" / ");
        append_padded(&mut t, b, 2, 8);
        out.push(InspectorValue { label: "u8", value: t });
        proof {
            crate::numbers::lemma_pow_values();
        }
        let signed = to_signed(b, 8);
        let mut st = String::new();
        append_signed_decimal(&mut st, signed);
        out.push(InspectorValue { label: "i8", value: st });
    }
    let ghost with_bytes = inspector_view(out@);
    push_int_lines(&mut out, bytes, 2, "16-bit unsigned", "16-bit signed", endian);
    push_int_lines(&mut out, bytes, 4, "32-bit unsigned", "32-bit signed", endian);
    push_int_lines(&mut out, bytes, 8, "64-bit unsigned", "64-bit signed", endian);
    let ghost with_ints = inspector_view(out@);
    let preview = decode_preview(bytes, encoding);
    out.push(InspectorValue { label: encoding.label(), value: preview });
    proof {
        assert(first =~= seq![("Offset"@, offset_text(offset as nat))]);
        if bytes@.len() >= 1 {
            assert(with_bytes =~= first + seq![
                ("u8"@, byte_text(bytes@[0] as nat)),
                ("i8"@, spec_signed_decimal(signed_of(bytes@[0] as nat, 8))),
            ]);
        } else {
            assert(with_bytes =~= first + Seq::<(Seq<char>, Seq<char>)>::empty());
        }
        assert(inspector_view(out@) =~= spec_inspector(bytes@, offset as nat, endian, encoding));
        if bytes@.len() >= 1 {
            crate::reading_laws::lemma_inspector_byte(bytes@, offset as nat, endian, encoding);
        }
    }
    out
}

} // verus!
