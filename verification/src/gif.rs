//! GIF header and logical screen descriptor.

use vstd::prelude::*;

use crate::document::ByteDocument;
use crate::formats::{
    ascii_or, ascii_or_empty, capped, dec_text, field, fields_view, fs, lit, no_cands, push_all,
    push_cand, read_u16, read_u8_or_zero, u16_le_at, u8_at, FieldSpec, FormatSummary,
};
use crate::numbers::Endianness;
use crate::text::{append_padded, spec_binary, spec_decimal};

verus! {

/// The fields of a GIF: signature and version, then the logical screen
/// descriptor.
pub open spec fn gif_fields(c: Seq<u8>) -> Seq<FieldSpec> {
    seq![
        fs(0, 6, "Signature"@, "GIF署名とバージョン"@, ascii_or(c, 0, 6, Seq::empty())),
        fs(6, 2, "Logical screen width"@, "論理画面幅"@, spec_decimal(u16_le_at(c, 6))),
        fs(8, 2, "Logical screen height"@, "論理画面高さ"@, spec_decimal(u16_le_at(c, 8))),
        fs(10, 1, "Packed fields"@, "グローバルカラーテーブル等のフラグ"@, "0b"@ + spec_binary(u8_at(c, 10), 8)),
        fs(11, 1, "Background color index"@, "背景色インデックス"@, spec_decimal(u8_at(c, 11))),
        fs(12, 1, "Pixel aspect ratio"@, "ピクセル縦横比"@, spec_decimal(u8_at(c, 12))),
    ]
}

/// The GIF header fields of `doc`, at most `max_fields` of them.
pub fn parse_gif_fields(doc: &ByteDocument, max_fields: usize) -> (summary: FormatSummary)
    requires
        doc.wf(),
    ensures
        summary.format@ == "GIF image"@,
        fields_view(summary.fields@) == capped(gif_fields(doc@), max_fields as nat),
{
    let le = Endianness::Little;
    let mut cands = no_cands();
    push_cand(&mut cands, field(0, 6, lit("Signature"), "GIF署名とバージョン", ascii_or_empty(doc, 0, 6)));
    push_cand(&mut cands, field(6, 2, lit("Logical screen width"), "論理画面幅", dec_text(read_u16(doc, 6, le) as u64)));
    push_cand(&mut cands, field(8, 2, lit("Logical screen height"), "論理画面高さ", dec_text(read_u16(doc, 8, le) as u64)));
    let packed = read_u8_or_zero(doc, 10);
    let mut packed_text = lit("0b");
    append_padded(&mut packed_text, packed as u64, 2, 8);
    push_cand(&mut cands, field(10, 1, lit("Packed fields"), "グローバルカラーテーブル等のフラグ", packed_text));
    push_cand(&mut cands, field(11, 1, lit("Background color index"), "背景色インデックス", dec_text(read_u8_or_zero(doc, 11) as u64)));
    push_cand(&mut cands, field(12, 1, lit("Pixel aspect ratio"), "ピクセル縦横比", dec_text(read_u8_or_zero(doc, 12) as u64)));
    let ghost c = doc@;
    assert(fields_view(cands@) == gif_fields(c));
    let mut fields = no_cands();
    push_all(&mut fields, max_fields, cands);
    FormatSummary { format: lit("GIF image"), fields }
}

} // verus!
