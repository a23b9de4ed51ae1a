use byteforge::detect::{detect_format, detect_format_fields, FileFormat};
use byteforge::document::{display_name, ByteDocument, EditError};
use byteforge::formats::FormatField;
use byteforge::hex::{parse_hex_bytes, HexParseError};
use byteforge::inspector::{decode_preview, inspector_values, preview_decoded, PreviewEncoding};
use byteforge::jpeg::{find_jpeg_eoi, parse_jpeg_fields};
use byteforge::numbers::Endianness;
use byteforge::pieces::{compact_pieces, Piece, Source};
use byteforge::search::find_bytes;
use byteforge::selection::Selection;

#[test]
fn edit_errors_name_the_refused_range() {
    let mut doc = ByteDocument::from_bytes("sample.bin", b"abc".to_vec());
    let err = doc.insert(4, b"x".to_vec()).unwrap_err();
    assert_eq!(err, EditError::RangeOutsideDocument { start: 4, end: 4, len: 3 });
    assert_eq!(err.message(), "replace range 4..4 is outside document length 3");
    let err = doc.delete(2..5).unwrap_err();
    assert_eq!(err.message(), "replace range 2..5 is outside document length 3");
    let err = doc.overwrite(7, b"x".to_vec()).unwrap_err();
    assert_eq!(err, EditError::OffsetPastEnd { offset: 7, len: 3 });
    assert_eq!(err.message(), "overwrite offset 7 is past document length 3");
    assert!(!doc.can_undo());
    assert_eq!(doc.read_range(0, 16), b"abc");
}

#[test]
fn hex_errors_say_what_is_wrong() {
    let err = parse_hex_bytes("ABC").unwrap_err();
    assert!(matches!(err, HexParseError::OddDigitCount));
    assert_eq!(err.message(), "hex input must contain an even number of digits");

    let err = parse_hex_bytes("12 xz 34").unwrap_err();
    assert!(matches!(err, HexParseError::InvalidHexByte { .. }));
    assert_eq!(err.message(), "invalid hex byte xz: invalid digit found in string");

    let err = parse_hex_bytes("aé0").unwrap_err();
    assert!(matches!(err, HexParseError::NotUtf8 { .. }));
    assert_eq!(err.message(), "incomplete utf-8 byte sequence from index 1");
}

#[test]
fn hex_parser_takes_plus_signs_and_unicode_spaces() {
    assert_eq!(parse_hex_bytes("+a\u{3000}0F").unwrap(), vec![0x0a, 0x0f]);
    assert_eq!(parse_hex_bytes("").unwrap(), Vec::<u8>::new());
}

#[test]
fn undo_then_redo_restores_an_edit() {
    let mut doc = ByteDocument::from_bytes("sample.bin", b"hello".to_vec());
    doc.insert(5, b" world".to_vec()).unwrap();
    doc.delete(0..1).unwrap();
    assert_eq!(doc.read_range(0, 64), b"ello world");
    assert!(doc.undo());
    assert_eq!(doc.read_range(0, 64), b"hello world");
    assert!(doc.undo());
    assert_eq!(doc.read_range(0, 64), b"hello");
    assert!(!doc.undo());
    assert!(doc.redo());
    assert!(doc.redo());
    assert!(!doc.redo());
    assert_eq!(doc.read_range(0, 64), b"ello world");
}

#[test]
fn an_empty_edit_changes_nothing() {
    let mut doc = ByteDocument::from_bytes("sample.bin", b"abc".to_vec());
    doc.replace_range(1..1, Vec::new()).unwrap();
    assert!(!doc.is_dirty());
    assert!(!doc.can_undo());
}

#[test]
fn reads_are_cut_at_the_end() {
    let doc = ByteDocument::from_bytes("sample.bin", b"abc".to_vec());
    assert_eq!(doc.read_range(1, 10), b"bc");
    assert_eq!(doc.read_range(3, 10), b"");
    assert_eq!(doc.read_range(0, 0), b"");
    assert_eq!(doc.byte_at(2), Some(b'c'));
    assert_eq!(doc.byte_at(3), None);
    assert_eq!(doc.len(), 3);
    assert!(!doc.is_empty());
    assert!(ByteDocument::from_bytes("empty.bin", Vec::new()).is_empty());
}

#[test]
fn overwrite_past_the_end_extends_the_document() {
    let mut doc = ByteDocument::from_bytes("sample.bin", b"abc".to_vec());
    doc.overwrite(2, b"XYZ".to_vec()).unwrap();
    assert_eq!(doc.read_range(0, 16), b"abXYZ");
    doc.overwrite(5, b"!".to_vec()).unwrap();
    assert_eq!(doc.read_range(0, 16), b"abXYZ!");
}

#[test]
fn names_come_from_the_path() {
    let mut doc = ByteDocument::from_bytes("dir/sample.bin", b"abc".to_vec());
    assert_eq!(doc.name(), "sample.bin");
    assert_eq!(doc.path(), Some("dir/sample.bin"));
    doc.overwrite(0, b"X".to_vec()).unwrap();
    doc.mark_saved("other/out.bin");
    assert_eq!(doc.name(), "out.bin");
    assert!(!doc.is_dirty());
    assert!(!doc.can_undo());
    assert_eq!(display_name(None), "Untitled");
    assert_eq!(display_name(Some("a.bin".to_string())), "a.bin");
}

#[test]
fn search_finds_the_first_match_from_the_start_offset() {
    let doc = ByteDocument::from_bytes("sample.bin", b"abcabcabc".to_vec());
    assert_eq!(find_bytes(&doc, b"bc", 0), Some(1));
    assert_eq!(find_bytes(&doc, b"bc", 2), Some(4));
    assert_eq!(find_bytes(&doc, b"bc", 8), None);
    assert_eq!(find_bytes(&doc, b"", 0), None);
    assert_eq!(find_bytes(&doc, b"abcd", 0), None);
}

#[test]
fn inspector_reads_integers_in_both_orders() {
    let bytes = [0x01u8, 0x02, 0x03, 0x04, 0x05, 0x06, 0x07, 0xF8];
    let lines = inspector_values(&bytes, 16, Endianness::Little, PreviewEncoding::Ascii);
    let pairs: Vec<(String, String)> = lines.iter().map(|l| (l.label.to_string(), l.value.clone())).collect();
    assert_eq!(pairs[0], ("Offset".to_string(), "0x0000000000000010 / 16".to_string()));
    assert_eq!(pairs[1], ("u8".to_string(), "1 / 0x01 / 00000001".to_string()));
    assert_eq!(pairs[2], ("i8".to_string(), "1".to_string()));
    assert_eq!(pairs[3], ("16-bit unsigned".to_string(), "513 / 0x201".to_string()));
    assert_eq!(pairs[4], ("16-bit signed".to_string(), "513".to_string()));
    assert_eq!(pairs[5], ("32-bit unsigned".to_string(), "67305985 / 0x4030201".to_string()));
    assert_eq!(pairs[7], ("64-bit unsigned".to_string(), "17872260264855011841 / 0xF807060504030201".to_string()));
    assert_eq!(pairs[8], ("64-bit signed".to_string(), "-574483808854539775".to_string()));
    assert_eq!(pairs[9], ("ASCII".to_string(), "........".to_string()));

    let big = inspector_values(&bytes[..2], 0, Endianness::Big, PreviewEncoding::Utf8);
    assert_eq!(big[3].value, "258 / 0x102");
    assert_eq!(big.len(), 6);
    assert_eq!(big[5].label, "UTF-8");

    let none = inspector_values(&[], 0, Endianness::Little, PreviewEncoding::Ascii);
    assert_eq!(none.len(), 2);
}

#[test]
fn previews_decode_each_encoding() {
    assert_eq!(decode_preview(&[0x93, 0xFA, 0x96, 0x7B], PreviewEncoding::ShiftJis), "日本");
    assert_eq!(decode_preview(&[0x41, 0x00, 0x0A, 0x00], PreviewEncoding::Utf16Le), "A\n");
    assert_eq!(decode_preview(&[0x00, 0x42], PreviewEncoding::Utf16Be), "B");
    assert_eq!(decode_preview(b"a\x01\tb", PreviewEncoding::Utf8), "a.\tb");
    assert_eq!(decode_preview(&[0xFF], PreviewEncoding::Utf8), "\u{FFFD}");
    assert_eq!(decode_preview(&[b'x'; 70], PreviewEncoding::Ascii).len(), 64);
    assert_eq!(preview_decoded("a\u{7f}\u{85}\n"), "a..\n");
    assert_eq!(PreviewEncoding::ShiftJis.label(), "Shift-JIS");
    assert_eq!(PreviewEncoding::Ascii.next(), PreviewEncoding::Utf8);
}

#[test]
fn selections_normalize_either_way() {
    assert_eq!(Selection::new(5, 2).normalized(), 2..6);
    assert_eq!(Selection::new(2, 5).normalized(), 2..6);
}

#[test]
fn fields_know_their_bytes() {
    let field = FormatField {
        offset: 4,
        len: 2,
        name: "n".to_string(),
        meaning: "m".to_string(),
        value: "v".to_string(),
    };
    assert!(!field.contains(3));
    assert!(field.contains(4));
    assert!(field.contains(5));
    assert!(!field.contains(6));
}

#[test]
fn detection_needs_fields_and_bytes() {
    let doc = ByteDocument::from_bytes("image.bmp", b"BM".to_vec());
    assert!(detect_format_fields(&doc, 0).is_none());
    assert!(detect_format_fields(&ByteDocument::from_bytes("e", Vec::new()), 8).is_none());
    let summary = detect_format_fields(&doc, 2).unwrap();
    assert_eq!(summary.fields.len(), 2);
    assert_eq!(detect_format(b"RIFF\0\0\0\0WAVE"), Some(FileFormat::Wav));
    assert_eq!(detect_format(b"RIFF\0\0\0\0WAV"), None);
    assert_eq!(detect_format(b"GIF87a"), Some(FileFormat::Gif));
    assert_eq!(detect_format(b"PK\x03\x04"), Some(FileFormat::Zip));
    assert_eq!(detect_format(b"\x89PNG\r\n\x1A\n"), Some(FileFormat::Png));
}

#[test]
fn jpeg_walk_covers_scan_data_and_end_marker() {
    let bytes = vec![
        0xFF, 0xD8, 0xFF, 0xDB, 0x00, 0x03, 0x07, 0xFF, 0xD0, 0xFF, 0xFF, 0xDA, 0x00, 0x02, 0x11,
        0x22, 0xFF, 0xD9,
    ];
    let doc = ByteDocument::from_bytes("image.jpg", bytes);
    assert_eq!(find_jpeg_eoi(&doc, 0), Some(16));
    assert_eq!(find_jpeg_eoi(&doc, 17), None);
    let summary = parse_jpeg_fields(&doc, 32);
    let names: Vec<&str> = summary.fields.iter().map(|f| f.name.as_str()).collect();
    assert_eq!(
        names,
        vec![
            "SOI", "DQT", "DQT length", "DQT data", "Marker", "SOS", "SOS", "SOS length",
            "Entropy-coded data", "EOI"
        ]
    );
    assert_eq!(summary.fields[3].value, "1 bytes");
    assert_eq!(summary.fields[4].value, "FF D0");
    assert_eq!(summary.fields[8].offset, 14);
    assert_eq!(summary.fields[8].len, 2);
    let capped = parse_jpeg_fields(&doc, 3);
    assert_eq!(capped.fields.len(), 3);
}

#[test]
fn compacting_merges_adjacent_pieces_of_one_source() {
    let pieces = vec![
        Piece { source: Source::Original, start: 0, len: 2 },
        Piece { source: Source::Original, start: 2, len: 3 },
        Piece { source: Source::Add(0), start: 0, len: 0 },
        Piece { source: Source::Add(0), start: 0, len: 1 },
        Piece { source: Source::Add(1), start: 0, len: 1 },
    ];
    let merged = compact_pieces(pieces);
    assert_eq!(merged.len(), 3);
    assert_eq!(merged[0].len, 5);
    assert_eq!(merged[0].end(), 5);
    assert!(merged[1].source == Source::Add(0));
}
