//! PNG signature and chunks, with the image header decoded.

use vstd::prelude::*;

use crate::document::ByteDocument;
use crate::formats::{
    ascii_or, ascii_or_unknown, bytes_text, capped, cat, coded_text, copy_text, dec_text, field,
    fields_view, fold_fields, fs, hex_text, lemma_fold_concat, lemma_fold_full, lemma_fold_single, lit, no_cands,
    push_all, push_cand, push_field, read_u32, read_u8_or_zero, same_text,
    spec_bytes_text, spec_coded_text, spec_hex_text, u32_be_at, u8_at, FieldSpec, FormatField,
    FormatSummary,
};
use crate::numbers::{uint_be, Endianness};
use crate::reading_laws::{covered, lemma_ihdr_reads_own_bytes, shows_decimal, tiles};
use crate::text::spec_decimal;

verus! {

pub open spec fn png_chunk_meaning_text(t: Seq<char>) -> Seq<char> {
    if t == "IHDR"@ {
        "IHDR: 画像ヘッダ"@
    } else if t == "PLTE"@ {
        "PLTE: パレット"@
    } else if t == "IDAT"@ {
        "IDAT: 圧縮画像データ"@
    } else if t == "IEND"@ {
        "IEND: PNG終端"@
    } else if t == "tEXt"@ {
        "tEXt: テキストメタデータ"@
    } else if t == "zTXt"@ {
        "zTXt: 圧縮テキストメタデータ"@
    } else if t == "iCCP"@ {
        "iCCP: ICCプロファイル"@
    } else if t == "pHYs"@ {
        "pHYs: 物理ピクセル寸法"@
    } else if t == "gAMA"@ {
        "gAMA: ガンマ値"@
    } else if t == "cHRM"@ {
        "cHRM: 色度情報"@
    } else if t == "sRGB"@ {
        "sRGB: 標準RGB色空間"@
    } else {
        t + ": PNG chunk"@
    }
}

/// What a chunk type stands for.
pub fn png_chunk_meaning(chunk_type: &str) -> (s: String)
    ensures
        s@ == png_chunk_meaning_text(chunk_type@),
{
    let t = String::from_str(chunk_type);
    if same_text(&t, "IHDR") {
        lit("IHDR: 画像ヘッダ")
    } else if same_text(&t, "PLTE") {
        lit("PLTE: パレット")
    } else if same_text(&t, "IDAT") {
        lit("IDAT: 圧縮画像データ")
    } else if same_text(&t, "IEND") {
        lit("IEND: PNG終端")
    } else if same_text(&t, "tEXt") {
        lit("tEXt: テキストメタデータ")
    } else if same_text(&t, "zTXt") {
        lit("zTXt: 圧縮テキストメタデータ")
    } else if same_text(&t, "iCCP") {
        lit("iCCP: ICCプロファイル")
    } else if same_text(&t, "pHYs") {
        lit("pHYs: 物理ピクセル寸法")
    } else if same_text(&t, "gAMA") {
        lit("gAMA: ガンマ値")
    } else if same_text(&t, "cHRM") {
        lit("cHRM: 色度情報")
    } else if same_text(&t, "sRGB") {
        lit("sRGB: 標準RGB色空間")
    } else {
        cat(t, ": PNG chunk")
    }
}

pub open spec fn png_color_type_name(v: nat) -> Seq<char> {
    if v == 0 {
        "grayscale"@
    } else if v == 2 {
        "truecolor"@
    } else if v == 3 {
        "indexed color"@
    } else if v == 4 {
        "grayscale + alpha"@
    } else if v == 6 {
        "truecolor + alpha"@
    } else {
        "unknown"@
    }
}

/// The name of a PNG color type.
pub fn png_color_type(color_type: u8) -> (s: &'static str)
    ensures
        s@ == png_color_type_name(color_type as nat),
{
    match color_type {
        0 => "grayscale",
        2 => "truecolor",
        3 => "indexed color",
        4 => "grayscale + alpha",
        6 => "truecolor + alpha",
        _ => "unknown",
    }
}

pub open spec fn png_interlace_name(v: nat) -> Seq<char> {
    if v == 0 {
        "none"@
    } else if v == 1 {
        "Adam7"@
    } else {
        "unknown"@
    }
}

/// The name of a PNG interlace method.
pub fn png_interlace(value: u8) -> (s: &'static str)
    ensures
        s@ == png_interlace_name(value as nat),
{
    match value {
        0 => "none",
        1 => "Adam7",
        _ => "unknown",
    }
}

/// The image header's fields, its data starting at `d`.
pub open spec fn ihdr_fields(c: Seq<u8>, d: int) -> Seq<FieldSpec> {
    seq![
        fs(d, 4, "IHDR width"@, "画像幅"@, spec_decimal(u32_be_at(c, d))),
        fs(d + 4, 4, "IHDR height"@, "画像高さ"@, spec_decimal(u32_be_at(c, d + 4))),
        fs(d + 8, 1, "IHDR bit depth"@, "ビット深度"@, spec_decimal(u8_at(c, d + 8))),
        fs(d + 9, 1, "IHDR color type"@, "カラータイプ"@, spec_coded_text(u8_at(c, d + 9), png_color_type_name(u8_at(c, d + 9)))),
        fs(d + 10, 1, "IHDR compression"@, "圧縮方式"@, spec_decimal(u8_at(c, d + 10))),
        fs(d + 11, 1, "IHDR filter"@, "フィルター方式"@, spec_decimal(u8_at(c, d + 11))),
        fs(d + 12, 1, "IHDR interlace"@, "インターレース方式"@, spec_coded_text(u8_at(c, d + 12), png_interlace_name(u8_at(c, d + 12)))),
    ]
}

/// The fields of the chunk of type `t` and data length `length` at `offset`.
pub open spec fn png_chunk_fields(c: Seq<u8>, offset: int, length: nat, t: Seq<char>) -> Seq<FieldSpec> {
    let data = offset + 8;
    let crc = data + length;
    let head = seq![
        fs(offset, 4, t + " length"@, "チャンクデータ長"@, spec_bytes_text(length)),
        fs(offset + 4, 4, t + " type"@, "チャンク種別"@, png_chunk_meaning_text(t)),
    ];
    let with_data = if t == "IHDR"@ && length >= 13 {
        head + ihdr_fields(c, data)
    } else if length > 0 {
        head.push(fs(data, length as int, t + " data"@, "チャンクデータ"@, spec_bytes_text(length)))
    } else {
        head
    };
    with_data.push(fs(crc, 4, t + " CRC"@, "チャンクCRC"@, spec_hex_text(u32_be_at(c, crc), 8)))
}

/// The fields of the chunks from `offset` on: chunk after chunk until the
/// document ends, a chunk runs past the end (one "Truncated chunk" field for
/// what is left), or the IEND chunk.
pub open spec fn png_walk(c: Seq<u8>, offset: int) -> Seq<FieldSpec>
    decreases c.len() - offset,
{
    if offset < 0 || offset + 12 > c.len() {
        Seq::empty()
    } else {
        let length = u32_be_at(c, offset);
        let t = ascii_or(c, offset + 4, 4, "????"@);
        let crc = offset + 8 + length;
        if crc + 4 > c.len() {
            seq![fs(offset, c.len() - offset, "Truncated chunk"@, "途中で終わっているPNGチャンク"@, t)]
        } else if t == "IEND"@ {
            png_chunk_fields(c, offset, length, t)
        } else {
            png_chunk_fields(c, offset, length, t) + png_walk(c, crc + 4)
        }
    }
}

/// The fields of a PNG: the signature, then its chunks.
pub open spec fn png_fields(c: Seq<u8>) -> Seq<FieldSpec> {
    seq![fs(0, 8, "PNG signature"@, "PNGファイル識別子"@, "89 50 4E 47 0D 0A 1A 0A"@)] + png_walk(c, 8)
}

fn ihdr_cands(doc: &ByteDocument, d: u64) -> (cands: Vec<FormatField>)
    requires
        doc.wf(),
        d + 13 <= doc@.len(),
    ensures
        fields_view(cands@) == ihdr_fields(doc@, d as int),
        tiles(fields_view(cands@), d as int, d + 13),
        forall|i: int|
            0 <= i < cands@.len() ==> shows_decimal(
                (#[trigger] fields_view(cands@)[i]).value,
                uint_be(covered(doc@, fields_view(cands@)[i])),
            ),
{
    let be = Endianness::Big;
    proof {
        doc.lemma_len_fits();
    }
    let mut cands = no_cands();
    push_cand(&mut cands, field(d, 4, lit("IHDR width"), "画像幅", dec_text(read_u32(doc, d, be) as u64)));
    push_cand(&mut cands, field(d + 4, 4, lit("IHDR height"), "画像高さ", dec_text(read_u32(doc, d + 4, be) as u64)));
    push_cand(&mut cands, field(d + 8, 1, lit("IHDR bit depth"), "ビット深度", dec_text(read_u8_or_zero(doc, d + 8) as u64)));
    let color_type = read_u8_or_zero(doc, d + 9);
    push_cand(&mut cands, field(d + 9, 1, lit("IHDR color type"), "カラータイプ", coded_text(color_type as u64, png_color_type(color_type))));
    push_cand(&mut cands, field(d + 10, 1, lit("IHDR compression"), "圧縮方式", dec_text(read_u8_or_zero(doc, d + 10) as u64)));
    push_cand(&mut cands, field(d + 11, 1, lit("IHDR filter"), "フィルター方式", dec_text(read_u8_or_zero(doc, d + 11) as u64)));
    let interlace = read_u8_or_zero(doc, d + 12);
    push_cand(&mut cands, field(d + 12, 1, lit("IHDR interlace"), "インターレース方式", coded_text(interlace as u64, png_interlace(interlace))));
    proof {
        lemma_ihdr_reads_own_bytes(doc@, d as int);
    }
    cands
}

fn chunk_cands(doc: &ByteDocument, offset: u64, length: u32, t: &String) -> (cands: Vec<FormatField>)
    requires
        doc.wf(),
        offset + 12 + length <= doc@.len(),
    ensures
        fields_view(cands@) == png_chunk_fields(doc@, offset as int, length as nat, t@),
{
    let ghost c = doc@;
    proof {
        doc.lemma_len_fits();
    }
    let data = offset + 8;
    let crc = data + length as u64;
    let mut cands = no_cands();
    push_cand(&mut cands, field(offset, 4, cat(copy_text(t), " length"), "チャンクデータ長", bytes_text(length as u64)));
    push_cand(&mut cands, field(offset + 4, 4, cat(copy_text(t), " type"), "チャンク種別", png_chunk_meaning(t.as_str())));
    let ghost head = fields_view(cands@);
    if same_text(t, "IHDR") && length >= 13 {
        let mut ihdr = ihdr_cands(doc, data);
        let ghost iv = fields_view(ihdr@);
        cands.append(&mut ihdr);
        assert(fields_view(cands@) =~= head + iv);
    } else if length > 0 {
        push_cand(&mut cands, field(data, length as u64, cat(copy_text(t), " data"), "チャンクデータ", bytes_text(length as u64)));
    }
    push_cand(&mut cands, field(crc, 4, cat(copy_text(t), " CRC"), "チャンクCRC", hex_text(read_u32(doc, crc, Endianness::Big) as u64, 8)));
    cands
}

/// The PNG signature and chunk fields of `doc`, at most `max_fields` of them.
pub fn parse_png_fields(doc: &ByteDocument, max_fields: usize) -> (summary: FormatSummary)
    requires
        doc.wf(),
    ensures
        summary.format@ == "PNG image"@,
        fields_view(summary.fields@) == capped(png_fields(doc@), max_fields as nat),
{
    let ghost c = doc@;
    let ghost max = max_fields as nat;
    let mut fields = no_cands();
    let signature = field(0, 8, lit("PNG signature"), "PNGファイル識別子", lit("89 50 4E 47 0D 0A 1A 0A"));
    let ghost sig = signature.spec();
    push_field(&mut fields, max_fields, signature);
    proof {
        lemma_fold_concat(Seq::empty(), seq![sig], png_walk(c, 8), max);
        lemma_fold_single(Seq::empty(), sig, max);
        assert(png_fields(c) == seq![sig] + png_walk(c, 8));
    }
    let len = doc.len();
    let mut offset: u64 = 8;
    let mut done = false;
    while !done && offset <= len && len - offset >= 12 && fields.len() < max_fields
        invariant
            doc.wf(),
            c == doc@,
            max == max_fields as nat,
            len == c.len(),
            offset >= 8,
            !done ==> fold_fields(fields_view(fields@), png_walk(c, offset as int), max) == capped(png_fields(c), max),
            done ==> fields_view(fields@) == capped(png_fields(c), max),
        decreases len + 1 - offset, if done { 0int } else { 1int },
    {
        let length = read_u32(doc, offset, Endianness::Big);
        let chunk_type = ascii_or_unknown(doc, offset + 4, 4);
        if (length as u64) > len - offset - 12 {
            let ghost before = fields_view(fields@);
            let ghost tr = fs(offset as int, (len - offset) as int, "Truncated chunk"@, "途中で終わっているPNGチャンク"@, chunk_type@);
            let truncated = field(offset, len - offset, lit("Truncated chunk"), "途中で終わっているPNGチャンク", chunk_type);
            push_field(&mut fields, max_fields, truncated);
            proof {
                assert(png_walk(c, offset as int) == seq![tr]);
                lemma_fold_single(before, tr, max);
            }
            done = true;
        } else {
            let crc_offset = offset + 8 + length as u64;
            let ghost before = fields_view(fields@);
            let ghost t = chunk_type@;
            let cands = chunk_cands(doc, offset, length, &chunk_type);
            push_all(&mut fields, max_fields, cands);
            let is_end = same_text(&chunk_type, "IEND");
            proof {
                assert(png_walk(c, offset as int) == if t == "IEND"@ {
                    png_chunk_fields(c, offset as int, length as nat, t)
                } else {
                    png_chunk_fields(c, offset as int, length as nat, t) + png_walk(c, crc_offset + 4)
                });
                if !is_end {
                    lemma_fold_concat(
                        before,
                        png_chunk_fields(c, offset as int, length as nat, t),
                        png_walk(c, crc_offset + 4),
                        max,
                    );
                }
            }
            offset = crc_offset + 4;
            if is_end {
                done = true;
            }
        }
    }
    proof {
        if !done {
            if fields_view(fields@).len() >= max {
                lemma_fold_full(fields_view(fields@), png_walk(c, offset as int), max);
            }
        }
    }
    FormatSummary { format: lit("PNG image"), fields }
}

} // verus!
