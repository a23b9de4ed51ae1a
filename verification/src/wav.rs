//! WAV (RIFF WAVE) header and chunks, with the format chunk decoded.

use vstd::prelude::*;

use crate::document::ByteDocument;
use crate::formats::{
    ascii_or, ascii_or_empty, ascii_or_unknown, bytes_text, capped, cat, coded_text, copy_text,
    dec_text, field, fields_view, fold_fields, fs, lemma_fold_concat, lemma_fold_full,
    lemma_fold_single, lit, no_cands, push_all, push_cand, push_field, read_u16, read_u32,
    same_text, spec_bytes_text, spec_coded_text, u16_le_at, u32_le_at, FieldSpec, FormatField,
    FormatSummary,
};
use crate::numbers::{uint_le, Endianness};
use crate::reading_laws::{covered, lemma_fmt_reads_own_bytes, shows_decimal, tiles};
use crate::text::spec_decimal;

verus! {

pub open spec fn wav_chunk_meaning_text(id: Seq<char>) -> Seq<char> {
    if id == "fmt "@ {
        "fmt: 音声フォーマット"@
    } else if id == "data"@ {
        "data: 音声サンプルデータ"@
    } else if id == "LIST"@ {
        "LIST: メタデータリスト"@
    } else if id == "fact"@ {
        "fact: 圧縮音声情報"@
    } else {
        id + ": WAV chunk"@
    }
}

/// What a RIFF chunk id stands for.
pub fn wav_chunk_meaning(chunk_id: &str) -> (s: String)
    ensures
        s@ == wav_chunk_meaning_text(chunk_id@),
{
    let id = String::from_str(chunk_id);
    if same_text(&id, "fmt ") {
        lit("fmt: 音声フォーマット")
    } else if same_text(&id, "data") {
        lit("data: 音声サンプルデータ")
    } else if same_text(&id, "LIST") {
        lit("LIST: メタデータリスト")
    } else if same_text(&id, "fact") {
        lit("fact: 圧縮音声情報")
    } else {
        cat(id, ": WAV chunk")
    }
}

pub open spec fn wav_audio_format_name(v: nat) -> Seq<char> {
    if v == 1 {
        "PCM"@
    } else if v == 3 {
        "IEEE float"@
    } else if v == 6 {
        "A-law"@
    } else if v == 7 {
        "mu-law"@
    } else if v == 0xfffe {
        "Extensible"@
    } else {
        "unknown"@
    }
}

/// The name of a WAV audio format code.
pub fn wav_audio_format(value: u16) -> (s: &'static str)
    ensures
        s@ == wav_audio_format_name(value as nat),
{
    match value {
        1 => "PCM",
        3 => "IEEE float",
        6 => "A-law",
        7 => "mu-law",
        0xFFFE => "Extensible",
        _ => "unknown",
    }
}

/// The format chunk's fields, its data starting at `d`.
pub open spec fn fmt_fields(c: Seq<u8>, d: int) -> Seq<FieldSpec> {
    seq![
        fs(d, 2, "Audio format"@, "音声形式"@, spec_coded_text(u16_le_at(c, d), wav_audio_format_name(u16_le_at(c, d)))),
        fs(d + 2, 2, "Channels"@, "チャンネル数"@, spec_decimal(u16_le_at(c, d + 2))),
        fs(d + 4, 4, "Sample rate"@, "サンプルレート"@, spec_decimal(u32_le_at(c, d + 4)) + " Hz"@),
        fs(d + 8, 4, "Byte rate"@, "平均バイトレート"@, spec_decimal(u32_le_at(c, d + 8)) + " bytes/sec"@),
        fs(d + 12, 2, "Block align"@, "ブロックアライン"@, spec_decimal(u16_le_at(c, d + 12))),
        fs(d + 14, 2, "Bits per sample"@, "サンプルあたりビット数"@, spec_decimal(u16_le_at(c, d + 14))),
    ]
}

/// The fields of the chunk with id `id` and data size `size` at `offset`.
pub open spec fn wav_chunk_fields(c: Seq<u8>, offset: int, id: Seq<char>, size: nat) -> Seq<FieldSpec> {
    let data = offset + 8;
    let head = seq![
        fs(offset, 4, id + " id"@, "チャンク識別子"@, wav_chunk_meaning_text(id)),
        fs(offset + 4, 4, id + " size"@, "チャンクデータサイズ"@, spec_bytes_text(size)),
    ];
    if id == "fmt "@ && size >= 16 {
        head + fmt_fields(c, data)
    } else if id == "data"@ {
        head.push(fs(data, size as int, "Audio data"@, "PCMなどの音声データ"@, spec_bytes_text(size)))
    } else if size > 0 {
        head.push(fs(data, size as int, id + " data"@, "チャンクデータ"@, spec_bytes_text(size)))
    } else {
        head
    }
}

/// The fields of the chunks from `offset` on, each chunk padded to an even
/// size, until the document ends or a chunk runs past its end (one
/// "Truncated chunk" field for what is left).
pub open spec fn wav_walk(c: Seq<u8>, offset: int) -> Seq<FieldSpec>
    decreases c.len() + 1 - offset,
{
    if offset < 0 || offset + 8 > c.len() {
        Seq::empty()
    } else {
        let id = ascii_or(c, offset, 4, "????"@);
        let size = u32_le_at(c, offset + 4);
        let data = offset + 8;
        if data + size > c.len() {
            seq![fs(offset, c.len() - offset, "Truncated chunk"@, "途中で終わっているWAVチャンク"@, id)]
        } else {
            wav_chunk_fields(c, offset, id, size) + wav_walk(c, data + size + size % 2)
        }
    }
}

/// The fields of a WAV: the RIFF header, then its chunks.
pub open spec fn wav_fields(c: Seq<u8>) -> Seq<FieldSpec> {
    seq![
        fs(0, 4, "RIFF id"@, "RIFF識別子"@, ascii_or(c, 0, 4, Seq::empty())),
        fs(4, 4, "RIFF size"@, "RIFFデータサイズ"@, spec_bytes_text(u32_le_at(c, 4))),
        fs(8, 4, "Wave id"@, "WAVE識別子"@, ascii_or(c, 8, 4, Seq::empty())),
    ] + wav_walk(c, 12)
}

fn fmt_cands(doc: &ByteDocument, d: u64) -> (cands: Vec<FormatField>)
    requires
        doc.wf(),
        d + 16 <= doc@.len(),
    ensures
        fields_view(cands@) == fmt_fields(doc@, d as int),
        tiles(fields_view(cands@), d as int, d + 16),
        forall|i: int|
            0 <= i < cands@.len() ==> shows_decimal(
                (#[trigger] fields_view(cands@)[i]).value,
                uint_le(covered(doc@, fields_view(cands@)[i])),
            ),
{
    let le = Endianness::Little;
    proof {
        doc.lemma_len_fits();
    }
    let mut cands = no_cands();
    let audio_format = read_u16(doc, d, le);
    push_cand(&mut cands, field(d, 2, lit("Audio format"), "音声形式", coded_text(audio_format as u64, wav_audio_format(audio_format))));
    push_cand(&mut cands, field(d + 2, 2, lit("Channels"), "チャンネル数", dec_text(read_u16(doc, d + 2, le) as u64)));
    push_cand(&mut cands, field(d + 4, 4, lit("Sample rate"), "サンプルレート", cat(dec_text(read_u32(doc, d + 4, le) as u64), " Hz")));
    push_cand(&mut cands, field(d + 8, 4, lit("Byte rate"), "平均バイトレート", cat(dec_text(read_u32(doc, d + 8, le) as u64), " bytes/sec")));
    push_cand(&mut cands, field(d + 12, 2, lit("Block align"), "ブロックアライン", dec_text(read_u16(doc, d + 12, le) as u64)));
    push_cand(&mut cands, field(d + 14, 2, lit("Bits per sample"), "サンプルあたりビット数", dec_text(read_u16(doc, d + 14, le) as u64)));
    proof {
        lemma_fmt_reads_own_bytes(doc@, d as int);
    }
    cands
}

fn chunk_cands(doc: &ByteDocument, offset: u64, id: &String, size: u32) -> (cands: Vec<FormatField>)
    requires
        doc.wf(),
        offset + 8 + size <= doc@.len(),
    ensures
        fields_view(cands@) == wav_chunk_fields(doc@, offset as int, id@, size as nat),
{
    proof {
        doc.lemma_len_fits();
    }
    let data = offset + 8;
    let mut cands = no_cands();
    push_cand(&mut cands, field(offset, 4, cat(copy_text(id), " id"), "チャンク識別子", wav_chunk_meaning(id.as_str())));
    push_cand(&mut cands, field(offset + 4, 4, cat(copy_text(id), " size"), "チャンクデータサイズ", bytes_text(size as u64)));
    let ghost head = fields_view(cands@);
    if same_text(id, "fmt ") && size >= 16 {
        let mut fmt = fmt_cands(doc, data);
        let ghost fv = fields_view(fmt@);
        cands.append(&mut fmt);
        assert(fields_view(cands@) =~= head + fv);
    } else if same_text(id, "data") {
        push_cand(&mut cands, field(data, size as u64, lit("Audio data"), "PCMなどの音声データ", bytes_text(size as u64)));
    } else if size > 0 {
        push_cand(&mut cands, field(data, size as u64, cat(copy_text(id), " data"), "チャンクデータ", bytes_text(size as u64)));
    }
    cands
}

/// The RIFF header and chunk fields of `doc`, at most `max_fields` of them.
pub fn parse_wav_fields(doc: &ByteDocument, max_fields: usize) -> (summary: FormatSummary)
    requires
        doc.wf(),
    ensures
        summary.format@ == "WAV audio"@,
        fields_view(summary.fields@) == capped(wav_fields(doc@), max_fields as nat),
{
    let ghost c = doc@;
    let ghost max = max_fields as nat;
    let le = Endianness::Little;
    let mut head = no_cands();
    push_cand(&mut head, field(0, 4, lit("RIFF id"), "RIFF識別子", ascii_or_empty(doc, 0, 4)));
    push_cand(&mut head, field(4, 4, lit("RIFF size"), "RIFFデータサイズ", bytes_text(read_u32(doc, 4, le) as u64)));
    push_cand(&mut head, field(8, 4, lit("Wave id"), "WAVE識別子", ascii_or_empty(doc, 8, 4)));
    let ghost hv = fields_view(head@);
    let mut fields = no_cands();
    push_all(&mut fields, max_fields, head);
    proof {
        lemma_fold_concat(Seq::empty(), hv, wav_walk(c, 12), max);
        assert(hv + wav_walk(c, 12) =~= wav_fields(c));
        doc.lemma_len_fits();
    }
    let len = doc.len();
    let mut offset: u64 = 12;
    let mut done = false;
    while !done && offset <= len && len - offset >= 8 && fields.len() < max_fields
        invariant
            doc.wf(),
            c == doc@,
            max == max_fields as nat,
            le == Endianness::Little,
            len == c.len(),
            offset >= 12,
            !done ==> fold_fields(fields_view(fields@), wav_walk(c, offset as int), max) == capped(wav_fields(c), max),
            done ==> fields_view(fields@) == capped(wav_fields(c), max),
        decreases len + 1 - offset, if done { 0int } else { 1int },
    {
        let chunk_id = ascii_or_unknown(doc, offset, 4);
        let size = read_u32(doc, offset + 4, le);
        let data_offset = offset + 8;
        let ghost before = fields_view(fields@);
        let ghost id = chunk_id@;
        if (size as u64) > len - data_offset {
            let ghost tr = fs(offset as int, (len - offset) as int, "Truncated chunk"@, "途中で終わっているWAVチャンク"@, id);
            let truncated = field(offset, len - offset, lit("Truncated chunk"), "途中で終わっているWAVチャンク", chunk_id);
            push_field(&mut fields, max_fields, truncated);
            proof {
                assert(wav_walk(c, offset as int) == seq![tr]);
                lemma_fold_single(before, tr, max);
            }
            done = true;
        } else {
            let cands = chunk_cands(doc, offset, &chunk_id, size);
            push_all(&mut fields, max_fields, cands);
            let next = data_offset + size as u64;
            let pad = (size % 2) as u64;
            proof {
                assert(wav_walk(c, offset as int) == wav_chunk_fields(c, offset as int, id, size as nat) + wav_walk(c, next + pad));
                lemma_fold_concat(before, wav_chunk_fields(c, offset as int, id, size as nat), wav_walk(c, next + pad), max);
            }
            if pad > len - next {
                proof {
                    assert(wav_walk(c, next + pad) == Seq::<FieldSpec>::empty());
                }
                done = true;
            } else {
                offset = next + pad;
            }
        }
    }
    proof {
        if !done {
            if fields_view(fields@).len() >= max {
                lemma_fold_full(fields_view(fields@), wav_walk(c, offset as int), max);
            }
        }
    }
    FormatSummary { format: lit("WAV audio"), fields }
}

} // verus!
