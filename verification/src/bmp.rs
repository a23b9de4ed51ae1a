//! BMP file and info headers.

use vstd::prelude::*;

use crate::document::ByteDocument;
use crate::formats::{
    ascii_or, ascii_or_empty, bytes_text, capped, cat, cat_string, coded_text, dec_text, field,
    fields_view, fs, hex_text, i32_le_at, lemma_fold_concat, lit, no_cands, push_all, push_cand,
    read_int_or_zero, read_u16, read_u32, signed_text, spec_bytes_text, spec_coded_text,
    spec_hex_text, u16_le_at, u32_le_at, FieldSpec, FormatField, FormatSummary,
};
use crate::numbers::{uint_le, Endianness};
use crate::reading_laws::{
    bmp_signed_field, covered, lemma_bmp_info_reads_own_bytes, shows_decimal, signed32, tiles,
};
use crate::text::{spec_decimal, spec_signed_decimal};

verus! {

pub open spec fn bmp_compression_name(value: nat) -> Seq<char> {
    if value == 0 {
        "BI_RGB"@
    } else if value == 1 {
        "BI_RLE8"@
    } else if value == 2 {
        "BI_RLE4"@
    } else if value == 3 {
        "BI_BITFIELDS"@
    } else if value == 4 {
        "BI_JPEG"@
    } else if value == 5 {
        "BI_PNG"@
    } else if value == 6 {
        "BI_ALPHABITFIELDS"@
    } else {
        "unknown"@
    }
}

/// The name of a BMP compression code.
pub fn bmp_compression(value: u32) -> (s: &'static str)
    ensures
        s@ == bmp_compression_name(value as nat),
{
    match value {
        0 => "BI_RGB",
        1 => "BI_RLE8",
        2 => "BI_RLE4",
        3 => "BI_BITFIELDS",
        4 => "BI_JPEG",
        5 => "BI_PNG",
        6 => "BI_ALPHABITFIELDS",
        _ => "unknown",
    }
}

/// The file header fields and the size of the info header.
pub open spec fn bmp_file_header(c: Seq<u8>) -> Seq<FieldSpec> {
    let pixel_offset = u32_le_at(c, 10);
    seq![
        fs(0, 2, "Signature"@, "BMP識別子"@, ascii_or(c, 0, 2, Seq::empty())),
        fs(2, 4, "File size"@, "ファイルサイズ"@, spec_bytes_text(u32_le_at(c, 2))),
        fs(6, 2, "Reserved 1"@, "予約領域1"@, spec_decimal(u16_le_at(c, 6))),
        fs(8, 2, "Reserved 2"@, "予約領域2"@, spec_decimal(u16_le_at(c, 8))),
        fs(
            10,
            4,
            "Pixel data offset"@,
            "ピクセルデータ開始位置"@,
            spec_hex_text(pixel_offset, 0) + " / "@ + spec_decimal(pixel_offset),
        ),
        fs(14, 4, "DIB header size"@, "DIBヘッダサイズ"@, spec_bytes_text(u32_le_at(c, 14))),
    ]
}

/// The fields of the 40-byte info header.
pub open spec fn bmp_info_header(c: Seq<u8>) -> Seq<FieldSpec> {
    seq![
        fs(18, 4, "Width"@, "画像幅"@, spec_signed_decimal(i32_le_at(c, 18))),
        fs(22, 4, "Height"@, "画像高さ"@, spec_signed_decimal(i32_le_at(c, 22))),
        fs(26, 2, "Planes"@, "プレーン数"@, spec_decimal(u16_le_at(c, 26))),
        fs(28, 2, "Bits per pixel"@, "1ピクセルあたりのビット数"@, spec_decimal(u16_le_at(c, 28))),
        fs(
            30,
            4,
            "Compression"@,
            "圧縮方式"@,
            spec_coded_text(u32_le_at(c, 30), bmp_compression_name(u32_le_at(c, 30))),
        ),
        fs(34, 4, "Image size"@, "画像データサイズ"@, spec_bytes_text(u32_le_at(c, 34))),
        fs(38, 4, "X pixels per meter"@, "水平解像度"@, spec_signed_decimal(i32_le_at(c, 38))),
        fs(42, 4, "Y pixels per meter"@, "垂直解像度"@, spec_signed_decimal(i32_le_at(c, 42))),
        fs(46, 4, "Colors used"@, "カラーテーブル使用数"@, spec_decimal(u32_le_at(c, 46))),
        fs(50, 4, "Important colors"@, "重要色数"@, spec_decimal(u32_le_at(c, 50))),
    ]
}

/// The fields of a BMP: the file header, and the info header when its size
/// says it has the 40-byte layout and the document holds all of it.
pub open spec fn bmp_fields(c: Seq<u8>) -> Seq<FieldSpec> {
    if u32_le_at(c, 14) >= 40 && c.len() >= 54 {
        bmp_file_header(c) + bmp_info_header(c)
    } else {
        bmp_file_header(c)
    }
}

fn file_header_cands(doc: &ByteDocument) -> (cands: Vec<FormatField>)
    requires
        doc.wf(),
    ensures
        fields_view(cands@) == bmp_file_header(doc@),
{
    let le = Endianness::Little;
    let mut cands = no_cands();
    push_cand(&mut cands, field(0, 2, lit("Signature"), "BMP識別子", ascii_or_empty(doc, 0, 2)));
    push_cand(&mut cands, field(2, 4, lit("File size"), "ファイルサイズ", bytes_text(read_u32(doc, 2, le) as u64)));
    push_cand(&mut cands, field(6, 2, lit("Reserved 1"), "予約領域1", dec_text(read_u16(doc, 6, le) as u64)));
    push_cand(&mut cands, field(8, 2, lit("Reserved 2"), "予約領域2", dec_text(read_u16(doc, 8, le) as u64)));
    let pixel_offset = read_u32(doc, 10, le) as u64;
    let text = cat_string(cat(hex_text(pixel_offset, 0), " / "), dec_text(pixel_offset));
    push_cand(&mut cands, field(10, 4, lit("Pixel data offset"), "ピクセルデータ開始位置", text));
    push_cand(&mut cands, field(14, 4, lit("DIB header size"), "DIBヘッダサイズ", bytes_text(read_u32(doc, 14, le) as u64)));
    cands
}

fn info_header_cands(doc: &ByteDocument) -> (cands: Vec<FormatField>)
    requires
        doc.wf(),
    ensures
        fields_view(cands@) == bmp_info_header(doc@),
        doc@.len() >= 54 ==> tiles(fields_view(cands@), 18, 54),
        doc@.len() >= 54 ==> forall|i: int|
            0 <= i < cands@.len() ==> (if bmp_signed_field(i) {
                (#[trigger] fields_view(cands@)[i]).value == spec_signed_decimal(
                    signed32(uint_le(covered(doc@, fields_view(cands@)[i]))),
                )
            } else {
                shows_decimal(fields_view(cands@)[i].value, uint_le(covered(doc@, fields_view(cands@)[i])))
            }),
{
    let le = Endianness::Little;
    let mut cands = no_cands();
    push_cand(&mut cands, field(18, 4, lit("Width"), "画像幅", signed_text(read_int_or_zero(doc, 18, 4, le))));
    push_cand(&mut cands, field(22, 4, lit("Height"), "画像高さ", signed_text(read_int_or_zero(doc, 22, 4, le))));
    push_cand(&mut cands, field(26, 2, lit("Planes"), "プレーン数", dec_text(read_u16(doc, 26, le) as u64)));
    push_cand(&mut cands, field(28, 2, lit("Bits per pixel"), "1ピクセルあたりのビット数", dec_text(read_u16(doc, 28, le) as u64)));
    let compression = read_u32(doc, 30, le);
    push_cand(&mut cands, field(30, 4, lit("Compression"), "圧縮方式", coded_text(compression as u64, bmp_compression(compression))));
    push_cand(&mut cands, field(34, 4, lit("Image size"), "画像データサイズ", bytes_text(read_u32(doc, 34, le) as u64)));
    push_cand(&mut cands, field(38, 4, lit("X pixels per meter"), "水平解像度", signed_text(read_int_or_zero(doc, 38, 4, le))));
    push_cand(&mut cands, field(42, 4, lit("Y pixels per meter"), "垂直解像度", signed_text(read_int_or_zero(doc, 42, 4, le))));
    push_cand(&mut cands, field(46, 4, lit("Colors used"), "カラーテーブル使用数", dec_text(read_u32(doc, 46, le) as u64)));
    push_cand(&mut cands, field(50, 4, lit("Important colors"), "重要色数", dec_text(read_u32(doc, 50, le) as u64)));
    proof {
        if doc@.len() >= 54 {
            lemma_bmp_info_reads_own_bytes(doc@);
        }
    }
    cands
}

/// The BMP header fields of `doc`, at most `max_fields` of them.
pub fn parse_bmp_fields(doc: &ByteDocument, max_fields: usize) -> (summary: FormatSummary)
    requires
        doc.wf(),
    ensures
        summary.format@ == "BMP image"@,
        fields_view(summary.fields@) == capped(bmp_fields(doc@), max_fields as nat),
{
    let ghost c = doc@;
    let mut fields = no_cands();
    push_all(&mut fields, max_fields, file_header_cands(doc));
    let dib_size = read_u32(doc, 14, Endianness::Little);
    if dib_size >= 40 && doc.len() >= 54 {
        push_all(&mut fields, max_fields, info_header_cands(doc));
        proof {
            lemma_fold_concat(Seq::empty(), bmp_file_header(c), bmp_info_header(c), max_fields as nat);
        }
    }
    FormatSummary { format: lit("BMP image"), fields }
}

} // verus!
