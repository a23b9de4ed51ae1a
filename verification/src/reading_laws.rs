//! Laws of the decoded readings: every decoded header field shows the number
//! stored in exactly the bytes it covers, the fields of a header cover its
//! bytes one after another, and the inspector reads signed values in two's
//! complement.

use vstd::prelude::*;
use vstd::string::*;

use crate::bmp::{bmp_compression_name, bmp_file_header, bmp_info_header};
use crate::formats::{ascii_or, fs, spec_bytes_text, spec_coded_text, u32_le_at, FieldSpec};
use crate::gif::gif_fields;
use crate::inspector::{
    byte_text, int_lines, offset_text, printable_or_dot, spec_inspector, unsigned_text, PreviewEncoding,
};
use crate::numbers::{
    lemma_pow256_pow2, lemma_pow_values, pow2, pow256, signed_of, uint_be, uint_le, uint_of, Endianness,
};
use crate::jpeg::{jpeg_marker, jpeg_walk, no_length, segment_fields};
use crate::png::{ihdr_fields, png_chunk_fields, png_walk, png_color_type_name, png_interlace_name};
use crate::text::{spec_binary, spec_decimal, spec_hex, spec_signed_decimal};
use crate::wav::{fmt_fields, wav_audio_format_name, wav_chunk_fields, wav_fields, wav_walk};
use crate::zip::{zip_compression_name, zip_header};

verus! {

/// The bytes of `c` that field `f` covers.
pub open spec fn covered(c: Seq<u8>, f: FieldSpec) -> Seq<u8> {
    c.subrange(f.offset, f.offset + f.len)
}

/// `value` begins with the decimal digits of `n`, followed by nothing or by a
/// space (and a unit or a name).
pub open spec fn shows_decimal(value: Seq<char>, n: nat) -> bool {
    let d = spec_decimal(n);
    &&& d.len() <= value.len()
    &&& value.take(d.len() as int) == d
    &&& (value.len() == d.len() || value[d.len() as int] == ' ')
}

/// `fields` cover `[start, end)` one after another, none of them empty.
pub open spec fn tiles(fields: Seq<FieldSpec>, start: int, end: int) -> bool {
    &&& fields.len() > 0
    &&& fields[0].offset == start
    &&& fields.last().offset + fields.last().len == end
    &&& forall|i: int| 0 <= i < fields.len() ==> (#[trigger] fields[i]).len > 0
    &&& forall|i: int| 0 <= i < fields.len() - 1 ==> #[trigger] fields[i].offset + fields[i].len == fields[i + 1].offset
}

/// A value in decimal shows that value.
proof fn lemma_shows_plain(n: nat)
    ensures
        shows_decimal(spec_decimal(n), n),
{
    assert(spec_decimal(n).take(spec_decimal(n).len() as int) =~= spec_decimal(n));
}

/// A value in decimal followed by a space and more shows that value.
proof fn lemma_shows_suffix(n: nat, rest: Seq<char>)
    requires
        rest.len() > 0,
        rest[0] == ' ',
    ensures
        shows_decimal(spec_decimal(n) + rest, n),
{
    let d = spec_decimal(n);
    assert((d + rest).take(d.len() as int) =~= d);
    assert((d + rest)[d.len() as int] == rest[0]);
}

/// A coded value shows its code.
proof fn lemma_shows_coded(n: nat, name: Seq<char>)
    ensures
        shows_decimal(spec_coded_text(n, name), n),
{
    reveal_strlit(" (");
    let rest = " ("@ + name + ")"@;
    assert(spec_coded_text(n, name) =~= spec_decimal(n) + rest);
    lemma_shows_suffix(n, rest);
}

/// A size in bytes shows its number.
proof fn lemma_shows_bytes(n: nat)
    ensures
        shows_decimal(spec_bytes_text(n), n),
{
    reveal_strlit(" bytes");
    lemma_shows_suffix(n, " bytes"@);
}

/// The one byte of a one-byte sequence is its value in either byte order.
proof fn lemma_one_byte(s: Seq<u8>)
    requires
        s.len() == 1,
    ensures
        uint_le(s) == s[0],
        uint_be(s) == s[0],
{
    assert(s.drop_first().len() == 0);
    assert(s.drop_last().len() == 0);
    assert(uint_le(s.drop_first()) == 0);
    assert(uint_be(s.drop_last()) == 0);
    assert(s.last() == s[0]);
}

/// The image header's fields cover its thirteen data bytes one after
/// another, and each shows the big-endian number stored in exactly the bytes
/// it covers.
pub proof fn lemma_ihdr_reads_own_bytes(c: Seq<u8>, d: int)
    requires
        0 <= d,
        d + 13 <= c.len(),
    ensures
        tiles(ihdr_fields(c, d), d, d + 13),
        forall|i: int|
            0 <= i < ihdr_fields(c, d).len() ==> shows_decimal(
                (#[trigger] ihdr_fields(c, d)[i]).value,
                uint_be(covered(c, ihdr_fields(c, d)[i])),
            ),
{
    let fl = ihdr_fields(c, d);
    assert(fl.len() == 7);
    lemma_shows_plain(uint_be(c.subrange(d, d + 4)));
    lemma_shows_plain(uint_be(c.subrange(d + 4, d + 8)));
    lemma_one_byte(c.subrange(d + 8, d + 9));
    lemma_one_byte(c.subrange(d + 9, d + 10));
    lemma_one_byte(c.subrange(d + 10, d + 11));
    lemma_one_byte(c.subrange(d + 11, d + 12));
    lemma_one_byte(c.subrange(d + 12, d + 13));
    lemma_shows_plain(c[d + 8] as nat);
    lemma_shows_coded(c[d + 9] as nat, png_color_type_name(c[d + 9] as nat));
    lemma_shows_plain(c[d + 10] as nat);
    lemma_shows_plain(c[d + 11] as nat);
    lemma_shows_coded(c[d + 12] as nat, png_interlace_name(c[d + 12] as nat));
    assert forall|i: int| 0 <= i < fl.len() implies shows_decimal(
        (#[trigger] fl[i]).value,
        uint_be(covered(c, fl[i])),
    ) by {
        assert(i == 0 || i == 1 || i == 2 || i == 3 || i == 4 || i == 5 || i == 6);
    }
}

/// The format chunk's fields cover its sixteen data bytes one after another,
/// and each shows the little-endian number stored in exactly the bytes it
/// covers.
pub proof fn lemma_fmt_reads_own_bytes(c: Seq<u8>, d: int)
    requires
        0 <= d,
        d + 16 <= c.len(),
    ensures
        tiles(fmt_fields(c, d), d, d + 16),
        forall|i: int|
            0 <= i < fmt_fields(c, d).len() ==> shows_decimal(
                (#[trigger] fmt_fields(c, d)[i]).value,
                uint_le(covered(c, fmt_fields(c, d)[i])),
            ),
{
    let fl = fmt_fields(c, d);
    assert(fl.len() == 6);
    reveal_strlit(" Hz");
    reveal_strlit(" bytes/sec");
    let format = uint_le(c.subrange(d, d + 2));
    lemma_shows_coded(format, wav_audio_format_name(format));
    lemma_shows_plain(uint_le(c.subrange(d + 2, d + 4)));
    lemma_shows_suffix(uint_le(c.subrange(d + 4, d + 8)), " Hz"@);
    lemma_shows_suffix(uint_le(c.subrange(d + 8, d + 12)), " bytes/sec"@);
    lemma_shows_plain(uint_le(c.subrange(d + 12, d + 14)));
    lemma_shows_plain(uint_le(c.subrange(d + 14, d + 16)));
    assert forall|i: int| 0 <= i < fl.len() implies shows_decimal(
        (#[trigger] fl[i]).value,
        uint_le(covered(c, fl[i])),
    ) by {
        assert(i == 0 || i == 1 || i == 2 || i == 3 || i == 4 || i == 5);
    }
}

/// The info header's fields that hold signed values: width, height and the
/// two resolutions.
pub open spec fn bmp_signed_field(i: int) -> bool {
    i == 0 || i == 1 || i == 6 || i == 7
}

/// The 32-bit two's-complement reading of `u`.
pub open spec fn signed32(u: nat) -> int {
    if u >= 0x8000_0000 {
        u - 0x1_0000_0000
    } else {
        u as int
    }
}

/// The info header's fields cover bytes 18 to 54 one after another, and each
/// shows the little-endian number stored in exactly the bytes it covers: the
/// signed ones in two's complement, the others as they are.
pub proof fn lemma_bmp_info_reads_own_bytes(c: Seq<u8>)
    requires
        54 <= c.len(),
    ensures
        tiles(bmp_info_header(c), 18, 54),
        forall|i: int|
            0 <= i < bmp_info_header(c).len() ==> (if bmp_signed_field(i) {
                (#[trigger] bmp_info_header(c)[i]).value == spec_signed_decimal(
                    signed32(uint_le(covered(c, bmp_info_header(c)[i]))),
                )
            } else {
                shows_decimal(bmp_info_header(c)[i].value, uint_le(covered(c, bmp_info_header(c)[i])))
            }),
{
    let fl = bmp_info_header(c);
    assert(fl.len() == 10);
    lemma_pow_values();
    assert(pow2(32) / 2 == 0x8000_0000);
    lemma_shows_plain(uint_le(c.subrange(26, 28)));
    lemma_shows_plain(uint_le(c.subrange(28, 30)));
    let compression = uint_le(c.subrange(30, 34));
    lemma_shows_coded(compression, bmp_compression_name(compression));
    lemma_shows_bytes(uint_le(c.subrange(34, 38)));
    lemma_shows_plain(uint_le(c.subrange(46, 50)));
    lemma_shows_plain(uint_le(c.subrange(50, 54)));
    assert forall|i: int| 0 <= i < fl.len() implies (if bmp_signed_field(i) {
        (#[trigger] fl[i]).value == spec_signed_decimal(signed32(uint_le(covered(c, fl[i]))))
    } else {
        shows_decimal(fl[i].value, uint_le(covered(c, fl[i])))
    }) by {
        assert(i == 0 || i == 1 || i == 2 || i == 3 || i == 4 || i == 5 || i == 6 || i == 7 || i == 8
            || i == 9);
    }
}

/// The ZIP local header's hexadecimal fields: the flags, the time, the date
/// and the CRC.
pub open spec fn zip_hex_field(i: int) -> bool {
    i == 2 || i == 4 || i == 5 || i == 6
}

/// The local header's fields cover its first thirty bytes one after another,
/// and each field after the signature shows the little-endian number stored
/// in exactly the bytes it covers: the flags, time, date and CRC as `0x` and
/// two hexadecimal digits per byte, the others in decimal.
pub proof fn lemma_zip_header_reads_own_bytes(c: Seq<u8>)
    requires
        30 <= c.len(),
    ensures
        tiles(zip_header(c), 0, 30),
        forall|i: int|
            1 <= i < zip_header(c).len() ==> (if zip_hex_field(i) {
                (#[trigger] zip_header(c)[i]).value == "0x"@ + spec_hex(
                    uint_le(covered(c, zip_header(c)[i])),
                    2 * zip_header(c)[i].len as nat,
                )
            } else {
                shows_decimal(zip_header(c)[i].value, uint_le(covered(c, zip_header(c)[i])))
            }),
{
    let fl = zip_header(c);
    assert(fl.len() == 11);
    lemma_shows_plain(uint_le(c.subrange(4, 6)));
    let method = uint_le(c.subrange(8, 10));
    lemma_shows_coded(method, zip_compression_name(method));
    lemma_shows_bytes(uint_le(c.subrange(18, 22)));
    lemma_shows_bytes(uint_le(c.subrange(22, 26)));
    lemma_shows_bytes(uint_le(c.subrange(26, 28)));
    lemma_shows_bytes(uint_le(c.subrange(28, 30)));
    assert forall|i: int| 1 <= i < fl.len() implies (if zip_hex_field(i) {
        (#[trigger] fl[i]).value == "0x"@ + spec_hex(uint_le(covered(c, fl[i])), 2 * fl[i].len as nat)
    } else {
        shows_decimal(fl[i].value, uint_le(covered(c, fl[i])))
    }) by {
        assert(i == 1 || i == 2 || i == 3 || i == 4 || i == 5 || i == 6 || i == 7 || i == 8 || i == 9
            || i == 10);
    }
}

/// The `n`-byte two's-complement reading of `u`: `u` below half of
/// `256^n`, `u - 256^n` from there on.
pub open spec fn twos_complement(u: nat, n: nat) -> int {
    if u >= pow256(n) / 2 {
        u - pow256(n)
    } else {
        u as int
    }
}

/// The inspector's first two readings of the byte under the cursor: `u8` as
/// the byte in decimal (then hex and binary), and `i8` as its
/// two's-complement reading, the byte below 128 and the byte less 256 from
/// 128 on.
pub proof fn lemma_inspector_byte(bytes: Seq<u8>, offset: nat, e: Endianness, encoding: PreviewEncoding)
    requires
        bytes.len() >= 1,
    ensures
        spec_inspector(bytes, offset, e, encoding)[1].0 == "u8"@,
        shows_decimal(spec_inspector(bytes, offset, e, encoding)[1].1, bytes[0] as nat),
        spec_inspector(bytes, offset, e, encoding)[2] == ("i8"@, spec_signed_decimal(
            if bytes[0] >= 128 {
                bytes[0] - 256
            } else {
                bytes[0] as int
            },
        )),
        -128 <= (if bytes[0] >= 128 {
            bytes[0] - 256
        } else {
            bytes[0] as int
        }) <= 127,
{
    lemma_pow_values();
    reveal_strlit(" / 0x");
    let b = bytes[0] as nat;
    let rest = " / 0x"@ + spec_hex(b, 2) + " / "@ + spec_binary(b, 8);
    assert(byte_text(b) =~= spec_decimal(b) + rest);
    lemma_shows_suffix(b, rest);
    let lines = spec_inspector(bytes, offset, e, encoding);
    let head = seq![("Offset"@, offset_text(offset))];
    let byte_lines = seq![("u8"@, byte_text(b)), ("i8"@, spec_signed_decimal(signed_of(b, 8)))];
    assert(lines[1] == (head + byte_lines)[1]);
    assert(lines[2] == (head + byte_lines)[2]);
}

/// The integer lines for the first `size` bytes: the unsigned line shows
/// their number in byte order `e`, and the signed line its two's-complement
/// reading.
pub proof fn lemma_int_lines_read(bytes: Seq<u8>, size: nat, ul: Seq<char>, sl: Seq<char>, e: Endianness)
    requires
        size == 2 || size == 4 || size == 8,
        bytes.len() >= size,
    ensures
        ({
            let u = match e {
                Endianness::Little => uint_le(bytes.take(size as int)),
                Endianness::Big => uint_be(bytes.take(size as int)),
            };
            &&& int_lines(bytes, size, ul, sl, e).len() == 2
            &&& int_lines(bytes, size, ul, sl, e)[0].0 == ul
            &&& shows_decimal(int_lines(bytes, size, ul, sl, e)[0].1, u)
            &&& int_lines(bytes, size, ul, sl, e)[1] == (sl, spec_signed_decimal(twos_complement(u, size)))
        }),
{
    lemma_pow256_pow2();
    reveal_strlit(" / 0x");
    let u = uint_of(bytes.take(size as int), e);
    let rest = " / 0x"@ + spec_hex(u, 0);
    assert(unsigned_text(u) =~= spec_decimal(u) + rest);
    lemma_shows_suffix(u, rest);
}

/// `value` is the bytes `b` as text, `.` for a byte that does not print.
pub open spec fn shows_text(value: Seq<char>, b: Seq<u8>) -> bool {
    value == b.map_values(|x: u8| printable_or_dot(x))
}

/// The GIF header's fields cover its first thirteen bytes one after
/// another; the signature shows its own bytes as text, the packed flags show
/// the bits of their byte, and the others show the little-endian number
/// stored in exactly the bytes they cover.
pub proof fn lemma_gif_reads_own_bytes(c: Seq<u8>)
    requires
        13 <= c.len(),
    ensures
        tiles(gif_fields(c), 0, 13),
        shows_text(gif_fields(c)[0].value, covered(c, gif_fields(c)[0])),
        gif_fields(c)[3].value == "0b"@ + spec_binary(uint_le(covered(c, gif_fields(c)[3])), 8),
        forall|i: int|
            1 <= i < gif_fields(c).len() && i != 3 ==> shows_decimal(
                (#[trigger] gif_fields(c)[i]).value,
                uint_le(covered(c, gif_fields(c)[i])),
            ),
{
    let fl = gif_fields(c);
    assert(fl.len() == 6);
    lemma_one_byte(c.subrange(10, 11));
    lemma_one_byte(c.subrange(11, 12));
    lemma_one_byte(c.subrange(12, 13));
    lemma_shows_plain(uint_le(c.subrange(6, 8)));
    lemma_shows_plain(uint_le(c.subrange(8, 10)));
    lemma_shows_plain(c[11] as nat);
    lemma_shows_plain(c[12] as nat);
    assert forall|i: int| 1 <= i < fl.len() && i != 3 implies shows_decimal(
        (#[trigger] fl[i]).value,
        uint_le(covered(c, fl[i])),
    ) by {
        assert(i == 1 || i == 2 || i == 4 || i == 5);
    }
}

/// The BMP file header's fields cover its first eighteen bytes one after
/// another; the signature shows its own bytes as text, the pixel data offset
/// shows its number in hexadecimal and then in decimal, and the others show
/// the little-endian number stored in exactly the bytes they cover.
pub proof fn lemma_bmp_file_reads_own_bytes(c: Seq<u8>)
    requires
        18 <= c.len(),
    ensures
        tiles(bmp_file_header(c), 0, 18),
        shows_text(bmp_file_header(c)[0].value, covered(c, bmp_file_header(c)[0])),
        ({
            let u = uint_le(covered(c, bmp_file_header(c)[4]));
            bmp_file_header(c)[4].value == "0x"@ + spec_hex(u, 0) + " / "@ + spec_decimal(u)
        }),
        forall|i: int|
            1 <= i < bmp_file_header(c).len() && i != 4 ==> shows_decimal(
                (#[trigger] bmp_file_header(c)[i]).value,
                uint_le(covered(c, bmp_file_header(c)[i])),
            ),
{
    let fl = bmp_file_header(c);
    assert(fl.len() == 6);
    lemma_shows_bytes(uint_le(c.subrange(2, 6)));
    lemma_shows_plain(uint_le(c.subrange(6, 8)));
    lemma_shows_plain(uint_le(c.subrange(8, 10)));
    lemma_shows_bytes(uint_le(c.subrange(14, 18)));
    assert forall|i: int| 1 <= i < fl.len() && i != 4 implies shows_decimal(
        (#[trigger] fl[i]).value,
        uint_le(covered(c, fl[i])),
    ) by {
        assert(i == 1 || i == 2 || i == 3 || i == 5);
    }
}

/// The RIFF header's fields cover the first twelve bytes one after another:
/// the two ids show their own bytes as text, and the size shows the
/// little-endian number stored in the bytes it covers.
pub proof fn lemma_riff_reads_own_bytes(c: Seq<u8>)
    requires
        12 <= c.len(),
    ensures
        tiles(wav_fields(c).take(3), 0, 12),
        shows_text(wav_fields(c)[0].value, covered(c, wav_fields(c)[0])),
        shows_decimal(wav_fields(c)[1].value, uint_le(covered(c, wav_fields(c)[1]))),
        shows_text(wav_fields(c)[2].value, covered(c, wav_fields(c)[2])),
{
    let fl = wav_fields(c);
    let head = seq![
        fs(0, 4, "RIFF id"@, "RIFF識別子"@, ascii_or(c, 0, 4, Seq::empty())),
        fs(4, 4, "RIFF size"@, "RIFFデータサイズ"@, spec_bytes_text(u32_le_at(c, 4))),
        fs(8, 4, "Wave id"@, "WAVE識別子"@, ascii_or(c, 8, 4, Seq::empty())),
    ];
    assert(fl == head + wav_walk(c, 12));
    assert(fl.take(3) =~= head);
    assert(fl[0] == head[0]);
    assert(fl[1] == head[1]);
    assert(fl[2] == head[2]);
    lemma_shows_bytes(uint_le(c.subrange(4, 8)));
}

/// A complete PNG chunk at `offset` begins with its length field, which
/// covers the chunk's first four bytes and shows the big-endian number stored
/// there, then its type field over the next four; after the `length` data
/// bytes that number gives, a field over the last four bytes shows the CRC
/// stored there in hexadecimal.
pub proof fn lemma_png_chunk_reads_own_bytes(c: Seq<u8>, offset: int)
    requires
        0 <= offset,
        offset + 12 + uint_be(c.subrange(offset, offset + 4)) <= c.len(),
    ensures
        ({
            let w = png_walk(c, offset);
            let length = uint_be(c.subrange(offset, offset + 4));
            &&& w.len() >= 3
            &&& w[0].offset == offset && w[0].len == 4
            &&& shows_decimal(w[0].value, uint_be(covered(c, w[0])))
            &&& w[1].offset == offset + 4 && w[1].len == 4
            &&& exists|k: int|
                0 <= k < w.len() && (#[trigger] w[k]).offset == offset + 8 + length && w[k].len == 4
                    && w[k].value == "0x"@ + spec_hex(uint_be(covered(c, w[k])), 8)
        }),
{
    let length = uint_be(c.subrange(offset, offset + 4));
    let t = ascii_or(c, offset + 4, 4, "????"@);
    let ch = png_chunk_fields(c, offset, length, t);
    let w = png_walk(c, offset);
    if t == "IEND"@ {
        assert(w == ch);
    } else {
        assert(w == ch + png_walk(c, offset + 8 + length + 4));
    }
    assert(w.take(ch.len() as int) =~= ch);
    let k = ch.len() - 1;
    assert(w[k] == ch[k]);
    assert(w[0] == ch[0]);
    assert(w[1] == ch[1]);
    lemma_shows_bytes(length);
}

/// A complete RIFF chunk at `offset` begins with its id field over the first
/// four bytes and its size field over the next four, which shows the
/// little-endian number stored there.
pub proof fn lemma_wav_chunk_reads_own_bytes(c: Seq<u8>, offset: int)
    requires
        0 <= offset,
        offset + 8 + uint_le(c.subrange(offset + 4, offset + 8)) <= c.len(),
    ensures
        ({
            let w = wav_walk(c, offset);
            &&& w.len() >= 2
            &&& w[0].offset == offset && w[0].len == 4
            &&& w[1].offset == offset + 4 && w[1].len == 4
            &&& shows_decimal(w[1].value, uint_le(covered(c, w[1])))
        }),
{
    let size = uint_le(c.subrange(offset + 4, offset + 8));
    let id = ascii_or(c, offset, 4, "????"@);
    let ch = wav_chunk_fields(c, offset, id, size);
    let w = wav_walk(c, offset);
    assert(w == ch + wav_walk(c, offset + 8 + size + size % 2));
    assert(w[0] == ch[0]);
    assert(w[1] == ch[1]);
    lemma_shows_bytes(size);
}

/// A JPEG segment whose marker byte is at `pos` (other than the scan
/// header) begins with its marker field over `FF` and the marker byte,
/// showing that byte in hexadecimal; then its length field over the next two
/// bytes, showing the big-endian number stored there; then its data field,
/// over the rest of the length that number gives.
pub proof fn lemma_jpeg_segment_reads_own_bytes(c: Seq<u8>, pos: int)
    requires
        1 <= pos,
        pos + 3 <= c.len(),
        c[pos] != 0xFF,
        c[pos] != 0xD9,
        c[pos] != 0xDA,
        !no_length(c[pos] as nat),
        2 <= uint_be(c.subrange(pos + 1, pos + 3)),
        pos + 1 + uint_be(c.subrange(pos + 1, pos + 3)) <= c.len(),
    ensures
        ({
            let w = jpeg_marker(c, pos);
            let size = uint_be(c.subrange(pos + 1, pos + 3));
            &&& w.len() >= 3
            &&& w[0].offset == pos - 1 && w[0].len == 2
            &&& w[0].value == "FF "@ + spec_hex(covered(c, w[0])[1] as nat, 2)
            &&& w[1].offset == pos + 1 && w[1].len == 2
            &&& shows_decimal(w[1].value, uint_be(covered(c, w[1])))
            &&& w[2].offset == pos + 3 && w[2].offset + w[2].len == pos + 1 + size
        }),
{
    let m = c[pos] as nat;
    let size = uint_be(c.subrange(pos + 1, pos + 3));
    let sf = segment_fields(pos, m, size);
    let w = jpeg_marker(c, pos);
    assert(w == sf + jpeg_walk(c, pos + 1 + size));
    assert(w[0] == sf[0]);
    assert(w[1] == sf[1]);
    assert(w[2] == sf[2]);
    assert(covered(c, w[0])[1] == c[pos]);
    lemma_shows_bytes(size);
}

} // verus!
