//! ZIP local file header.

use vstd::prelude::*;

use crate::document::ByteDocument;
use crate::formats::{
    ascii_or, ascii_or_empty, bytes_text, capped, coded_text, dec_text, field, fields_view, fs,
    hex_text, lit, no_cands, push_all, push_cand, read_u16, read_u32, spec_bytes_text,
    spec_coded_text, spec_hex_text, u16_le_at, u32_le_at, FieldSpec, FormatField, FormatSummary,
};
use crate::numbers::{uint_le, Endianness};
use crate::reading_laws::{covered, lemma_zip_header_reads_own_bytes, shows_decimal, tiles, zip_hex_field};
use crate::text::{spec_decimal, spec_hex};

verus! {

pub open spec fn zip_compression_name(value: nat) -> Seq<char> {
    if value == 0 {
        "stored"@
    } else if value == 8 {
        "deflate"@
    } else if value == 12 {
        "bzip2"@
    } else if value == 14 {
        "lzma"@
    } else if value == 93 {
        "zstd"@
    } else if value == 98 {
        "ppmd"@
    } else {
        "unknown"@
    }
}

/// The name of a ZIP compression method.
pub fn zip_compression(value: u16) -> (s: &'static str)
    ensures
        s@ == zip_compression_name(value as nat),
{
    match value {
        0 => "stored",
        8 => "deflate",
        12 => "bzip2",
        14 => "lzma",
        93 => "zstd",
        98 => "ppmd",
        _ => "unknown",
    }
}

/// The fixed part of the local file header.
pub open spec fn zip_header(c: Seq<u8>) -> Seq<FieldSpec> {
    let method = u16_le_at(c, 8);
    seq![
        fs(0, 4, "Local file header signature"@, "ZIPローカルファイルヘッダ識別子"@, "PK 03 04"@),
        fs(4, 2, "Version needed"@, "展開に必要なバージョン"@, spec_decimal(u16_le_at(c, 4))),
        fs(6, 2, "General purpose flags"@, "汎用ビットフラグ"@, spec_hex_text(u16_le_at(c, 6), 4)),
        fs(8, 2, "Compression method"@, "圧縮方式"@, spec_coded_text(method, zip_compression_name(method))),
        fs(10, 2, "Modified time"@, "最終更新時刻(DOS)"@, spec_hex_text(u16_le_at(c, 10), 4)),
        fs(12, 2, "Modified date"@, "最終更新日(DOS)"@, spec_hex_text(u16_le_at(c, 12), 4)),
        fs(14, 4, "CRC-32"@, "ファイルデータCRC"@, spec_hex_text(u32_le_at(c, 14), 8)),
        fs(18, 4, "Compressed size"@, "圧縮後サイズ"@, spec_bytes_text(u32_le_at(c, 18))),
        fs(22, 4, "Uncompressed size"@, "展開後サイズ"@, spec_bytes_text(u32_le_at(c, 22))),
        fs(26, 2, "File name length"@, "ファイル名長"@, spec_bytes_text(u16_le_at(c, 26))),
        fs(28, 2, "Extra field length"@, "拡張フィールド長"@, spec_bytes_text(u16_le_at(c, 28))),
    ]
}

/// The fields of a ZIP: the local file header, then the file name, the extra
/// field and the file data that follow it, each when it is not empty.
pub open spec fn zip_fields(c: Seq<u8>) -> Seq<FieldSpec> {
    let name_len = u16_le_at(c, 26);
    let extra_len = u16_le_at(c, 28);
    let compressed = u32_le_at(c, 18);
    let with_name = if name_len > 0 {
        zip_header(c).push(fs(30, name_len as int, "File name"@, "エントリ名"@, ascii_or(c, 30, name_len, Seq::empty())))
    } else {
        zip_header(c)
    };
    let with_extra = if extra_len > 0 {
        with_name.push(fs(30 + name_len as int, extra_len as int, "Extra field"@, "拡張フィールド"@, spec_bytes_text(extra_len)))
    } else {
        with_name
    };
    if compressed > 0 {
        with_extra.push(fs(
            30 + name_len as int + extra_len as int,
            compressed as int,
            "File data"@,
            "圧縮済みファイルデータ"@,
            spec_bytes_text(compressed),
        ))
    } else {
        with_extra
    }
}

fn header_cands(doc: &ByteDocument) -> (cands: Vec<FormatField>)
    requires
        doc.wf(),
    ensures
        fields_view(cands@) == zip_header(doc@),
        doc@.len() >= 30 ==> tiles(fields_view(cands@), 0, 30),
        doc@.len() >= 30 ==> forall|i: int|
            1 <= i < cands@.len() ==> (if zip_hex_field(i) {
                (#[trigger] fields_view(cands@)[i]).value == "0x"@ + spec_hex(
                    uint_le(covered(doc@, fields_view(cands@)[i])),
                    2 * fields_view(cands@)[i].len as nat,
                )
            } else {
                shows_decimal(fields_view(cands@)[i].value, uint_le(covered(doc@, fields_view(cands@)[i])))
            }),
{
    let le = Endianness::Little;
    let mut cands = no_cands();
    push_cand(&mut cands, field(0, 4, lit("Local file header signature"), "ZIPローカルファイルヘッダ識別子", lit("PK 03 04")));
    push_cand(&mut cands, field(4, 2, lit("Version needed"), "展開に必要なバージョン", dec_text(read_u16(doc, 4, le) as u64)));
    push_cand(&mut cands, field(6, 2, lit("General purpose flags"), "汎用ビットフラグ", hex_text(read_u16(doc, 6, le) as u64, 4)));
    let method = read_u16(doc, 8, le);
    push_cand(&mut cands, field(8, 2, lit("Compression method"), "圧縮方式", coded_text(method as u64, zip_compression(method))));
    push_cand(&mut cands, field(10, 2, lit("Modified time"), "最終更新時刻(DOS)", hex_text(read_u16(doc, 10, le) as u64, 4)));
    push_cand(&mut cands, field(12, 2, lit("Modified date"), "最終更新日(DOS)", hex_text(read_u16(doc, 12, le) as u64, 4)));
    push_cand(&mut cands, field(14, 4, lit("CRC-32"), "ファイルデータCRC", hex_text(read_u32(doc, 14, le) as u64, 8)));
    push_cand(&mut cands, field(18, 4, lit("Compressed size"), "圧縮後サイズ", bytes_text(read_u32(doc, 18, le) as u64)));
    push_cand(&mut cands, field(22, 4, lit("Uncompressed size"), "展開後サイズ", bytes_text(read_u32(doc, 22, le) as u64)));
    push_cand(&mut cands, field(26, 2, lit("File name length"), "ファイル名長", bytes_text(read_u16(doc, 26, le) as u64)));
    push_cand(&mut cands, field(28, 2, lit("Extra field length"), "拡張フィールド長", bytes_text(read_u16(doc, 28, le) as u64)));
    proof {
        if doc@.len() >= 30 {
            lemma_zip_header_reads_own_bytes(doc@);
        }
    }
    cands
}

/// The ZIP local file header fields of `doc`, at most `max_fields` of them.
pub fn parse_zip_fields(doc: &ByteDocument, max_fields: usize) -> (summary: FormatSummary)
    requires
        doc.wf(),
    ensures
        summary.format@ == "ZIP archive"@,
        fields_view(summary.fields@) == capped(zip_fields(doc@), max_fields as nat),
{
    let le = Endianness::Little;
    let mut cands = header_cands(doc);
    let name_len = read_u16(doc, 26, le) as u64;
    let extra_len = read_u16(doc, 28, le) as u64;
    if name_len > 0 {
        push_cand(&mut cands, field(30, name_len, lit("File name"), "エントリ名", ascii_or_empty(doc, 30, name_len as usize)));
    }
    if extra_len > 0 {
        push_cand(&mut cands, field(30 + name_len, extra_len, lit("Extra field"), "拡張フィールド", bytes_text(extra_len)));
    }
    let data_offset = 30 + name_len + extra_len;
    let compressed_size = read_u32(doc, 18, le) as u64;
    if compressed_size > 0 {
        push_cand(&mut cands, field(data_offset, compressed_size, lit("File data"), "圧縮済みファイルデータ", bytes_text(compressed_size)));
    }
    let mut fields = no_cands();
    push_all(&mut fields, max_fields, cands);
    FormatSummary { format: lit("ZIP archive"), fields }
}

} // verus!
