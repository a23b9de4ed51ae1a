//! Recognising a file format by its first bytes, and decoding its fields.

use vstd::prelude::*;

use crate::bmp::{bmp_fields, parse_bmp_fields};
use crate::document::{spec_read, ByteDocument};
use crate::formats::{capped, fields_view, FieldSpec, FormatSummary};
use crate::gif::{gif_fields, parse_gif_fields};
use crate::jpeg::{jpeg_fields, parse_jpeg_fields};
use crate::png::{parse_png_fields, png_fields};
use crate::wav::{parse_wav_fields, wav_fields};
use crate::zip::{parse_zip_fields, zip_fields};

verus! {

/// The formats whose fields the library decodes.
#[derive(Clone, Copy, Debug, PartialEq, Eq, Structural)]
pub enum FileFormat {
    Png,
    Bmp,
    Wav,
    Gif,
    Jpeg,
    Zip,
}

/// `p` occurs in `c` at `at`.
pub open spec fn has_at(c: Seq<u8>, at: int, p: Seq<u8>) -> bool {
    &&& 0 <= at
    &&& at + p.len() <= c.len()
    &&& c.subrange(at, at + p.len()) == p
}

pub open spec fn png_signature() -> Seq<u8> {
    seq![0x89u8, 0x50u8, 0x4Eu8, 0x47u8, 0x0Du8, 0x0Au8, 0x1Au8, 0x0Au8]
}

pub open spec fn bmp_signature() -> Seq<u8> {
    seq![0x42u8, 0x4Du8]
}

pub open spec fn riff_signature() -> Seq<u8> {
    seq![0x52u8, 0x49u8, 0x46u8, 0x46u8]
}

pub open spec fn wave_signature() -> Seq<u8> {
    seq![0x57u8, 0x41u8, 0x56u8, 0x45u8]
}

pub open spec fn gif87a_signature() -> Seq<u8> {
    seq![0x47u8, 0x49u8, 0x46u8, 0x38u8, 0x37u8, 0x61u8]
}

pub open spec fn gif89a_signature() -> Seq<u8> {
    seq![0x47u8, 0x49u8, 0x46u8, 0x38u8, 0x39u8, 0x61u8]
}

pub open spec fn jpeg_signature() -> Seq<u8> {
    seq![0xFFu8, 0xD8u8]
}

pub open spec fn zip_signature() -> Seq<u8> {
    seq![0x50u8, 0x4Bu8, 0x03u8, 0x04u8]
}

/// The format that the bytes start with, the signatures tried in this
/// order: PNG, BMP (`BM`), WAV (`RIFF`, four bytes, `WAVE`), GIF (`GIF87a`
/// or `GIF89a`), JPEG (`FF D8`), ZIP (`PK 03 04`).
pub open spec fn format_of(c: Seq<u8>) -> Option<FileFormat> {
    if has_at(c, 0, png_signature()) {
        Some(FileFormat::Png)
    } else if has_at(c, 0, bmp_signature()) {
        Some(FileFormat::Bmp)
    } else if has_at(c, 0, riff_signature()) && has_at(c, 8, wave_signature()) {
        Some(FileFormat::Wav)
    } else if has_at(c, 0, gif87a_signature()) || has_at(c, 0, gif89a_signature()) {
        Some(FileFormat::Gif)
    } else if has_at(c, 0, jpeg_signature()) {
        Some(FileFormat::Jpeg)
    } else if has_at(c, 0, zip_signature()) {
        Some(FileFormat::Zip)
    } else {
        None
    }
}

/// The name a format's summary carries.
pub open spec fn format_name(f: FileFormat) -> Seq<char> {
    match f {
        FileFormat::Png => "PNG image"@,
        FileFormat::Bmp => "BMP image"@,
        FileFormat::Wav => "WAV audio"@,
        FileFormat::Gif => "GIF image"@,
        FileFormat::Jpeg => "JPEG image"@,
        FileFormat::Zip => "ZIP archive"@,
    }
}

/// All the fields of `c` read as format `f`.
pub open spec fn format_fields(f: FileFormat, c: Seq<u8>) -> Seq<FieldSpec> {
    match f {
        FileFormat::Png => png_fields(c),
        FileFormat::Bmp => bmp_fields(c),
        FileFormat::Wav => wav_fields(c),
        FileFormat::Gif => gif_fields(c),
        FileFormat::Jpeg => jpeg_fields(c),
        FileFormat::Zip => zip_fields(c),
    }
}

/// Whether `p` occurs in `bytes` at `at`.
fn bytes_at(bytes: &[u8], at: usize, p: &[u8]) -> (b: bool)
    requires
        at <= 16,
        p@.len() <= 16,
    ensures
        b == has_at(bytes@, at as int, p@),
{
    if bytes.len() < at + p.len() {
        return false;
    }
    let mut k: usize = 0;
    while k < p.len()
        invariant
            at <= 16,
            p@.len() <= 16,
            at + p@.len() <= bytes@.len(),
            k <= p@.len(),
            bytes@.subrange(at as int, at + k) == p@.take(k as int),
        decreases p@.len() - k,
    {
        if bytes[at + k] != p[k] {
            assert(bytes@.subrange(at as int, at + p@.len())[k as int] != p@[k as int]);
            return false;
        }
        k = k + 1;
        assert(bytes@.subrange(at as int, at + k) =~= p@.take(k as int));
    }
    assert(p@.take(p@.len() as int) =~= p@);
    true
}

/// The format that `header` starts with, if any.
pub fn detect_format(header: &[u8]) -> (f: Option<FileFormat>)
    ensures
        f == format_of(header@),
{
    let png: [u8; 8] = [0x89, 0x50, 0x4E, 0x47, 0x0D, 0x0A, 0x1A, 0x0A];
    let bmp: [u8; 2] = [0x42, 0x4D];
    let riff: [u8; 4] = [0x52, 0x49, 0x46, 0x46];
    let wave: [u8; 4] = [0x57, 0x41, 0x56, 0x45];
    let gif87a: [u8; 6] = [0x47, 0x49, 0x46, 0x38, 0x37, 0x61];
    let gif89a: [u8; 6] = [0x47, 0x49, 0x46, 0x38, 0x39, 0x61];
    let jpeg: [u8; 2] = [0xFF, 0xD8];
    let zip: [u8; 4] = [0x50, 0x4B, 0x03, 0x04];
    assert(png@ =~= png_signature());
    assert(bmp@ =~= bmp_signature());
    assert(riff@ =~= riff_signature());
    assert(wave@ =~= wave_signature());
    assert(gif87a@ =~= gif87a_signature());
    assert(gif89a@ =~= gif89a_signature());
    assert(jpeg@ =~= jpeg_signature());
    assert(zip@ =~= zip_signature());
    if bytes_at(header, 0, png.as_slice()) {
        Some(FileFormat::Png)
    } else if bytes_at(header, 0, bmp.as_slice()) {
        Some(FileFormat::Bmp)
    } else if bytes_at(header, 0, riff.as_slice()) && bytes_at(header, 8, wave.as_slice()) {
        Some(FileFormat::Wav)
    } else if bytes_at(header, 0, gif87a.as_slice()) || bytes_at(header, 0, gif89a.as_slice()) {
        Some(FileFormat::Gif)
    } else if bytes_at(header, 0, jpeg.as_slice()) {
        Some(FileFormat::Jpeg)
    } else if bytes_at(header, 0, zip.as_slice()) {
        Some(FileFormat::Zip)
    } else {
        None
    }
}

/// The first sixteen bytes decide the format as the whole contents would.
proof fn lemma_header_decides(c: Seq<u8>)
    ensures
        format_of(spec_read(c, 0, 16)) == format_of(c),
{
    let h = spec_read(c, 0, 16);
    assert forall|at: int, p: Seq<u8>| 0 <= at && at + p.len() <= 16 implies #[trigger] has_at(h, at, p) == has_at(c, at, p) by {
        if at + p.len() <= c.len() {
            assert(h.subrange(at, at + p.len()) =~= c.subrange(at, at + p.len()));
        }
    }
    assert(has_at(h, 0, png_signature()) == has_at(c, 0, png_signature()));
    assert(has_at(h, 0, bmp_signature()) == has_at(c, 0, bmp_signature()));
    assert(has_at(h, 0, riff_signature()) == has_at(c, 0, riff_signature()));
    assert(has_at(h, 8, wave_signature()) == has_at(c, 8, wave_signature()));
    assert(has_at(h, 0, gif87a_signature()) == has_at(c, 0, gif87a_signature()));
    assert(has_at(h, 0, gif89a_signature()) == has_at(c, 0, gif89a_signature()));
    assert(has_at(h, 0, jpeg_signature()) == has_at(c, 0, jpeg_signature()));
    assert(has_at(h, 0, zip_signature()) == has_at(c, 0, zip_signature()));
}

/// The fields of the document's format, at most `max_fields` of them; none
/// when `max_fields` is 0, the document is empty or its first bytes are no
/// known signature.
pub fn detect_format_fields(doc: &ByteDocument, max_fields: usize) -> (r: Option<FormatSummary>)
    requires
        doc.wf(),
    ensures
        max_fields == 0 || doc@.len() == 0 ==> r is None,
        max_fields > 0 && doc@.len() > 0 ==> match format_of(doc@) {
            None => r is None,
            Some(f) => r matches Some(s) && s.format@ == format_name(f) && fields_view(s.fields@)
                == capped(format_fields(f, doc@), max_fields as nat),
        },
{
    if max_fields == 0 || doc.is_empty() {
        return None;
    }
    let header = doc.read_range(0, 16);
    proof {
        lemma_header_decides(doc@);
    }
    match detect_format(header.as_slice()) {
        Some(FileFormat::Png) => Some(parse_png_fields(doc, max_fields)),
        Some(FileFormat::Bmp) => Some(parse_bmp_fields(doc, max_fields)),
        Some(FileFormat::Wav) => Some(parse_wav_fields(doc, max_fields)),
        Some(FileFormat::Gif) => Some(parse_gif_fields(doc, max_fields)),
        Some(FileFormat::Jpeg) => Some(parse_jpeg_fields(doc, max_fields)),
        Some(FileFormat::Zip) => Some(parse_zip_fields(doc, max_fields)),
        None => None,
    }
}

} // verus!
