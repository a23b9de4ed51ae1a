//! JPEG markers and segments, up to the end of the image or the first scan.

use vstd::prelude::*;

use crate::document::{spec_read, ByteDocument};
use crate::formats::{
    bytes_text, capped, cat, field, fields_view, fold_fields, fs, lemma_fold_concat,
    lemma_fold_full, lemma_fold_single, lit, no_cands, push_all, push_cand, push_field, read_u16,
    spec_bytes_text, u16_be_at, FieldSpec, FormatField, FormatSummary,
};
use crate::numbers::Endianness;
use crate::search::{
    first_match, lemma_first_match_bounds, lemma_first_match_none, lemma_first_match_some, matches_at,
    position_in,
};
use crate::text::{append_padded, spec_hex};

verus! {

pub open spec fn jpeg_marker_name_text(m: nat) -> Seq<char> {
    if m == 0xC0 {
        "SOF0"@
    } else if m == 0xC2 {
        "SOF2"@
    } else if m == 0xC4 {
        "DHT"@
    } else if m == 0xD9 {
        "EOI"@
    } else if m == 0xDA {
        "SOS"@
    } else if m == 0xDB {
        "DQT"@
    } else if m == 0xDD {
        "DRI"@
    } else if m == 0xE0 {
        "APP0"@
    } else if m == 0xE1 {
        "APP1"@
    } else if m == 0xE2 {
        "APP2"@
    } else if m == 0xE3 {
        "APP3"@
    } else if m == 0xE4 {
        "APP4"@
    } else if m == 0xE5 {
        "APP5"@
    } else if m == 0xE6 {
        "APP6"@
    } else if m == 0xE7 {
        "APP7"@
    } else if m == 0xE8 {
        "APP8"@
    } else if m == 0xE9 {
        "APP9"@
    } else if m == 0xEA {
        "APP10"@
    } else if m == 0xEB {
        "APP11"@
    } else if m == 0xEC {
        "APP12"@
    } else if m == 0xED {
        "APP13"@
    } else if m == 0xEE {
        "APP14"@
    } else if m == 0xEF {
        "APP15"@
    } else if m == 0xFE {
        "COM"@
    } else {
        "Marker"@
    }
}

/// The short name of a JPEG marker.
pub fn jpeg_marker_name(marker: u8) -> (s: &'static str)
    ensures
        s@ == jpeg_marker_name_text(marker as nat),
{
    match marker {
        0xC0 => "SOF0",
        0xC2 => "SOF2",
        0xC4 => "DHT",
        0xD9 => "EOI",
        0xDA => "SOS",
        0xDB => "DQT",
        0xDD => "DRI",
        0xE0 => "APP0",
        0xE1 => "APP1",
        0xE2 => "APP2",
        0xE3 => "APP3",
        0xE4 => "APP4",
        0xE5 => "APP5",
        0xE6 => "APP6",
        0xE7 => "APP7",
        0xE8 => "APP8",
        0xE9 => "APP9",
        0xEA => "APP10",
        0xEB => "APP11",
        0xEC => "APP12",
        0xED => "APP13",
        0xEE => "APP14",
        0xEF => "APP15",
        0xFE => "COM",
        _ => "Marker",
    }
}

pub open spec fn jpeg_marker_meaning_text(m: nat) -> Seq<char> {
    if m == 0xC0 {
        "ベースラインDCTフレーム"@
    } else if m == 0xC2 {
        "プログレッシブDCTフレーム"@
    } else if m == 0xC4 {
        "ハフマンテーブル"@
    } else if m == 0xDA {
        "スキャンヘッダ"@
    } else if m == 0xDB {
        "量子化テーブル"@
    } else if m == 0xDD {
        "リスタート間隔"@
    } else if m == 0xE0 {
        "JFIFなどのAPP0メタデータ"@
    } else if m == 0xE1 {
        "Exif/XMPなどのAPP1メタデータ"@
    } else if m == 0xFE {
        "コメント"@
    } else if 0xE2 <= m <= 0xEF {
        "アプリケーション固有メタデータ"@
    } else {
        "JPEG segment data"@
    }
}

/// What the data of a segment with this marker holds.
pub fn jpeg_marker_meaning(marker: u8) -> (s: String)
    ensures
        s@ == jpeg_marker_meaning_text(marker as nat),
{
    match marker {
        0xC0 => lit("ベースラインDCTフレーム"),
        0xC2 => lit("プログレッシブDCTフレーム"),
        0xC4 => lit("ハフマンテーブル"),
        0xDA => lit("スキャンヘッダ"),
        0xDB => lit("量子化テーブル"),
        0xDD => lit("リスタート間隔"),
        0xE0 => lit("JFIFなどのAPP0メタデータ"),
        0xE1 => lit("Exif/XMPなどのAPP1メタデータ"),
        0xFE => lit("コメント"),
        0xE2..=0xEF => lit("アプリケーション固有メタデータ"),
        _ => lit("JPEG segment data"),
    }
}

pub open spec fn no_length(m: nat) -> bool {
    m == 0x01 || (0xD0 <= m <= 0xD7)
}

/// Whether a marker stands alone, with no length and no data after it.
pub fn jpeg_marker_has_no_length(marker: u8) -> (b: bool)
    ensures
        b == no_length(marker as nat),
{
    marker == 0x01 || (0xD0 <= marker && marker <= 0xD7)
}

/// The two bytes of an end-of-image marker.
pub open spec fn eoi_bytes() -> Seq<u8> {
    seq![0xFFu8, 0xD9u8]
}

/// The first end-of-image marker at or after `start`.
///
/// The document is read in windows of 64 KiB that overlap by one byte, so a
/// marker across two windows is found.
pub fn find_jpeg_eoi(doc: &ByteDocument, start: u64) -> (r: Option<u64>)
    requires
        doc.wf(),
    ensures
        match r {
            Some(e) => first_match(doc@, eoi_bytes(), start as int) == Some(e as int),
            None => first_match(doc@, eoi_bytes(), start as int) is None,
        },
{
    let ghost c = doc@;
    let mut needle: Vec<u8> = Vec::new();
    needle.push(0xFF);
    needle.push(0xD9);
    assert(needle@ =~= eoi_bytes());
    let len = doc.len();
    let mut offset = start;
    while offset < len && len - offset > 1
        invariant
            doc.wf(),
            c == doc@,
            len == c.len(),
            needle@ == eoi_bytes(),
            start <= offset,
            forall|q: int| start <= q < offset ==> !#[trigger] matches_at(c, eoi_bytes(), q),
        decreases len - offset,
    {
        let bytes = doc.read_range(offset, 64 * 1024);
        assert(bytes@ == spec_read(c, offset as int, 65536));
        match position_in(&bytes, needle.as_slice()) {
            Some(pos) => {
                proof {
                    assert(bytes@.subrange(pos as int, pos + 2) =~= c.subrange(offset + pos, offset + pos + 2));
                    assert forall|q: int| start <= q < offset + pos implies !#[trigger] matches_at(c, eoi_bytes(), q) by {
                        if q >= offset {
                            assert(bytes@.subrange(q - offset, q - offset + 2) =~= c.subrange(q, q + 2));
                            assert(!matches_at(bytes@, eoi_bytes(), q - offset));
                        }
                    }
                    lemma_first_match_some(c, eoi_bytes(), start as int, offset + pos);
                }
                return Some(offset + pos as u64);
            },
            None => {},
        }
        let step: u64 = bytes.len() as u64 - 1;
        proof {
            assert forall|q: int| start <= q < offset + step implies !#[trigger] matches_at(c, eoi_bytes(), q) by {
                if q >= offset && q + 2 <= c.len() {
                    assert(bytes@.subrange(q - offset, q - offset + 2) =~= c.subrange(q, q + 2));
                    assert(!matches_at(bytes@, eoi_bytes(), q - offset));
                }
            }
        }
        offset = offset + step;
    }
    proof {
        assert forall|q: int| start <= q implies !#[trigger] matches_at(c, eoi_bytes(), q) by {
            if q >= offset {
                assert(q + 2 > c.len());
            }
        }
        lemma_first_match_none(c, eoi_bytes(), start as int);
    }
    None
}

/// `FF` and the marker in two upper-case hexadecimal digits.
pub open spec fn marker_text(m: nat) -> Seq<char> {
    "FF "@ + spec_hex(m, 2)
}

/// The two bytes of the marker `m` at `offset`.
pub open spec fn marker_field(offset: int, m: nat, meaning: Seq<char>) -> FieldSpec {
    fs(offset, 2, jpeg_marker_name_text(m), meaning, marker_text(m))
}

/// The scan marker's own field, for a marker byte `m` at `pos`.
pub open spec fn sos_prefix(pos: int, m: nat) -> Seq<FieldSpec> {
    if m == 0xDA {
        seq![marker_field(pos - 1, m, "スキャン開始マーカー"@)]
    } else {
        Seq::empty()
    }
}

/// The marker, length and data of a segment whose marker byte `m` is at
/// `pos` and whose length field, `size`, follows it.
pub open spec fn segment_fields(pos: int, m: nat, size: nat) -> Seq<FieldSpec> {
    let name = jpeg_marker_name_text(m);
    let data_len: nat = if size >= 2 { (size - 2) as nat } else { 0 };
    seq![
        marker_field(pos - 1, m, "JPEGセグメントマーカー"@),
        fs(pos + 1, 2, name + " length"@, "セグメント長"@, spec_bytes_text(size)),
        fs(pos + 3, data_len as int, name + " data"@, jpeg_marker_meaning_text(m), spec_bytes_text(data_len)),
    ]
}

/// After the scan header at `after`: the entropy-coded data up to the end
/// marker and the end marker, if there is one.
pub open spec fn eoi_fields(c: Seq<u8>, after: int) -> Seq<FieldSpec> {
    match first_match(c, eoi_bytes(), after) {
        Some(e) => seq![
            fs(after, e - after, "Entropy-coded data"@, "圧縮画像データ"@, spec_bytes_text((e - after) as nat)),
            fs(e, 2, "EOI"@, "JPEG終了マーカー"@, "FF D9"@),
        ],
        None => Seq::empty(),
    }
}

/// The fields from `offset` on: bytes other than `FF` are skipped, and an
/// `FF` starts a marker.
pub open spec fn jpeg_walk(c: Seq<u8>, offset: int) -> Seq<FieldSpec>
    decreases c.len() - offset,
{
    if offset < 0 || offset + 1 >= c.len() {
        Seq::empty()
    } else if c[offset] != 0xFF {
        jpeg_walk(c, offset + 1)
    } else {
        jpeg_marker(c, offset + 1)
    }
}

/// The fields from the marker whose `FF` bytes end just before `pos`: fill
/// bytes `FF` are skipped, the end marker ends the walk, a stand-alone
/// marker is one field, a segment is its marker, length and data, and the
/// scan header is followed by the entropy-coded data and the end marker.
/// A segment that runs past the end stops the walk.
pub open spec fn jpeg_marker(c: Seq<u8>, pos: int) -> Seq<FieldSpec>
    decreases c.len() - pos,
{
    if pos < 1 || pos >= c.len() {
        Seq::empty()
    } else if c[pos] == 0xFF {
        jpeg_marker(c, pos + 1)
    } else {
        let m = c[pos] as nat;
        if m == 0xD9 {
            seq![marker_field(pos - 1, m, "JPEG終了マーカー"@)]
        } else if no_length(m) {
            seq![marker_field(pos - 1, m, "JPEGマーカー"@)] + jpeg_walk(c, pos + 1)
        } else if pos + 3 > c.len() {
            sos_prefix(pos, m)
        } else {
            let size = u16_be_at(c, pos + 1);
            if pos + 1 + size > c.len() {
                sos_prefix(pos, m)
            } else if m == 0xDA {
                sos_prefix(pos, m) + segment_fields(pos, m, size) + eoi_fields(c, pos + 1 + size)
            } else {
                segment_fields(pos, m, size) + jpeg_walk(c, pos + 1 + size)
            }
        }
    }
}

/// The fields of a JPEG: the start marker, then the markers after it.
pub open spec fn jpeg_fields(c: Seq<u8>) -> Seq<FieldSpec> {
    seq![fs(0, 2, "SOI"@, "JPEG開始マーカー"@, "FF D8"@)] + jpeg_walk(c, 2)
}

fn marker_text_of(marker: u8) -> (s: String)
    ensures
        s@ == marker_text(marker as nat),
{
    let mut s = lit("FF ");
    append_padded(&mut s, marker as u64, 16, 2);
    s
}

fn marker_field_of(offset: u64, marker: u8, meaning: &str) -> (f: FormatField)
    ensures
        f.spec() == marker_field(offset as int, marker as nat, meaning@),
{
    field(offset, 2, lit(jpeg_marker_name(marker)), meaning, marker_text_of(marker))
}

fn segment_cands(pos: u64, marker: u8, size: u16) -> (cands: Vec<FormatField>)
    requires
        1 <= pos,
        pos + 3 <= u64::MAX,
    ensures
        fields_view(cands@) == segment_fields(pos as int, marker as nat, size as nat),
{
    let name = jpeg_marker_name(marker);
    let data_len: u64 = if size >= 2 { (size - 2) as u64 } else { 0 };
    let mut cands = no_cands();
    push_cand(&mut cands, marker_field_of(pos - 1, marker, "JPEGセグメントマーカー"));
    push_cand(&mut cands, field(pos + 1, 2, cat(lit(name), " length"), "セグメント長", bytes_text(size as u64)));
    push_cand(&mut cands, field(pos + 3, data_len, cat(lit(name), " data"), jpeg_marker_meaning(marker).as_str(), bytes_text(data_len)));
    cands
}

fn eoi_cands(doc: &ByteDocument, after: u64) -> (cands: Vec<FormatField>)
    requires
        doc.wf(),
    ensures
        fields_view(cands@) == eoi_fields(doc@, after as int),
{
    let mut cands = no_cands();
    match find_jpeg_eoi(doc, after) {
        Some(eoi) => {
            proof {
                if eoi < after {
                    assert(first_match(doc@, eoi_bytes(), after as int) is None) by {
                        lemma_first_match_bounds(doc@, eoi_bytes(), after as int);
                    }
                }
            }
            let data_len = eoi - after;
            push_cand(&mut cands, field(after, data_len, lit("Entropy-coded data"), "圧縮画像データ", bytes_text(data_len)));
            push_cand(&mut cands, field(eoi, 2, lit("EOI"), "JPEG終了マーカー", lit("FF D9")));
        },
        None => {},
    }
    cands
}

/// Whether the byte at `offset` is a fill byte `FF`.
fn is_fill(doc: &ByteDocument, offset: u64) -> (b: bool)
    requires
        doc.wf(),
    ensures
        b == (offset < doc@.len() && doc@[offset as int] == 0xFF),
{
    match doc.byte_at(offset) {
        Some(x) => x == 0xFF,
        None => false,
    }
}

/// Takes the marker whose byte is at `pos`, after its `FF` bytes: pushes its
/// fields and says where the walk goes on, or that it ends.
fn take_marker(doc: &ByteDocument, fields: &mut Vec<FormatField>, max_fields: usize, pos: u64) -> (r: (u64, bool))
    requires
        doc.wf(),
        1 <= pos < doc@.len(),
        doc@[pos as int] != 0xFF,
    ensures
        r.1 ==> fields_view(final(fields)@) == fold_fields(
            fields_view(old(fields)@),
            jpeg_marker(doc@, pos as int),
            max_fields as nat,
        ),
        !r.1 ==> pos < r.0 <= doc@.len() && fold_fields(
            fields_view(final(fields)@),
            jpeg_walk(doc@, r.0 as int),
            max_fields as nat,
        ) == fold_fields(fields_view(old(fields)@), jpeg_marker(doc@, pos as int), max_fields as nat),
{
    let ghost c = doc@;
    let ghost max = max_fields as nat;
    let ghost start = fields_view(fields@);
    proof {
        doc.lemma_len_fits();
    }
    let len = doc.len();
    let marker = match doc.byte_at(pos) {
        Some(b) => b,
        None => 0,
    };
    let ghost m = marker as nat;
    let next = pos + 1;
    if marker == 0xD9 {
        let f = marker_field_of(pos - 1, marker, "JPEG終了マーカー");
        push_field(fields, max_fields, f);
        proof {
            lemma_fold_single(start, f.spec(), max);
        }
        return (next, true);
    }
    if jpeg_marker_has_no_length(marker) {
        let f = marker_field_of(pos - 1, marker, "JPEGマーカー");
        push_field(fields, max_fields, f);
        proof {
            lemma_fold_single(start, f.spec(), max);
            lemma_fold_concat(start, seq![f.spec()], jpeg_walk(c, next as int), max);
        }
        return (next, false);
    }
    if marker == 0xDA {
        let f = marker_field_of(pos - 1, marker, "スキャン開始マーカー");
        push_field(fields, max_fields, f);
        proof {
            lemma_fold_single(start, f.spec(), max);
        }
    }
    let ghost after_sos = fields_view(fields@);
    assert(after_sos == fold_fields(start, sos_prefix(pos as int, m), max));
    if len - next < 2 {
        return (next, true);
    }
    let size = read_u16(doc, next, Endianness::Big);
    if (size as u64) > len - next {
        return (next, true);
    }
    let cands = segment_cands(pos, marker, size);
    let ghost seg = fields_view(cands@);
    push_all(fields, max_fields, cands);
    let after = next + size as u64;
    proof {
        lemma_fold_concat(start, sos_prefix(pos as int, m), seg, max);
    }
    if marker == 0xDA {
        let eoi = eoi_cands(doc, after);
        let ghost ev = fields_view(eoi@);
        push_all(fields, max_fields, eoi);
        proof {
            lemma_fold_concat(start, sos_prefix(pos as int, m) + seg, ev, max);
        }
        return (after, true);
    }
    proof {
        assert(sos_prefix(pos as int, m) =~= Seq::<FieldSpec>::empty());
        assert(Seq::<FieldSpec>::empty() + seg =~= seg);
        lemma_fold_concat(start, seg, jpeg_walk(c, after as int), max);
    }
    (after, false)
}

/// The JPEG markers and segments of `doc`, at most `max_fields` of them.
pub fn parse_jpeg_fields(doc: &ByteDocument, max_fields: usize) -> (summary: FormatSummary)
    requires
        doc.wf(),
    ensures
        summary.format@ == "JPEG image"@,
        fields_view(summary.fields@) == capped(jpeg_fields(doc@), max_fields as nat),
{
    let ghost c = doc@;
    let ghost max = max_fields as nat;
    let mut fields = no_cands();
    let soi = field(0, 2, lit("SOI"), "JPEG開始マーカー", lit("FF D8"));
    let ghost sv = soi.spec();
    push_field(&mut fields, max_fields, soi);
    proof {
        lemma_fold_single(Seq::empty(), sv, max);
        lemma_fold_concat(Seq::empty(), seq![sv], jpeg_walk(c, 2), max);
        doc.lemma_len_fits();
    }
    let len = doc.len();
    let mut offset: u64 = 2;
    let mut done = false;
    while !done && offset < len && len - offset > 1 && fields.len() < max_fields
        invariant
            doc.wf(),
            c == doc@,
            max == max_fields as nat,
            len == c.len(),
            2 <= offset,
            offset <= len || offset == 2,
            !done ==> fold_fields(fields_view(fields@), jpeg_walk(c, offset as int), max) == capped(jpeg_fields(c), max),
            done ==> fields_view(fields@) == capped(jpeg_fields(c), max),
        decreases len + 1 - offset, if done { 0int } else { 1int },
    {
        let b = match doc.byte_at(offset) {
            Some(b) => b,
            None => 0,
        };
        if b != 0xFF {
            offset = offset + 1;
        } else {
            let ghost first = offset;
            offset = offset + 1;
            while is_fill(doc, offset)
                invariant
                    doc.wf(),
                    c == doc@,
                    len == c.len(),
                    first < offset <= len,
                    jpeg_walk(c, first as int) == jpeg_marker(c, offset as int),
                decreases len - offset,
            {
                offset = offset + 1;
            }
            if offset >= len {
                done = true;
            } else {
                let (next, finished) = take_marker(doc, &mut fields, max_fields, offset);
                if finished {
                    done = true;
                } else {
                    offset = next;
                }
            }
        }
    }
    proof {
        if !done {
            if fields_view(fields@).len() >= max {
                lemma_fold_full(fields_view(fields@), jpeg_walk(c, offset as int), max);
            }
        }
    }
    FormatSummary { format: lit("JPEG image"), fields }
}

} // verus!
