use byteforge::detect::detect_format_fields;
use byteforge::document::ByteDocument;
use byteforge::hex::parse_hex_bytes;
use byteforge::search::find_bytes;

#[test]
fn piece_table_insert_delete_overwrite() {
    let mut doc = ByteDocument::from_bytes("sample.bin", b"abcdef".to_vec());
    doc.insert(3, b"XYZ".to_vec()).unwrap();
    assert_eq!(doc.read_range(0, 16), b"abcXYZdef");

    doc.delete(2..7).unwrap();
    assert_eq!(doc.read_range(0, 16), b"abef");

    doc.overwrite(1, b"123".to_vec()).unwrap();
    assert_eq!(doc.read_range(0, 16), b"a123");
}

#[test]
fn undo_redo_tracks_user_level_edits() {
    let mut doc = ByteDocument::from_bytes("sample.bin", b"abcdef".to_vec());
    doc.overwrite(2, b"XYZ".to_vec()).unwrap();
    assert_eq!(doc.read_range(0, 16), b"abXYZf");
    assert!(doc.can_undo());
    assert!(!doc.can_redo());

    assert!(doc.undo());
    assert_eq!(doc.read_range(0, 16), b"abcdef");
    assert!(!doc.is_dirty());
    assert!(!doc.can_undo());
    assert!(doc.can_redo());

    assert!(doc.redo());
    assert_eq!(doc.read_range(0, 16), b"abXYZf");
    assert!(doc.is_dirty());
}

#[test]
fn replace_range_is_one_undo_step() {
    let mut doc = ByteDocument::from_bytes("sample.bin", b"abcdef".to_vec());
    doc.replace_range(1..5, b"123456".to_vec()).unwrap();
    assert_eq!(doc.read_range(0, 16), b"a123456f");
    assert!(doc.undo());
    assert_eq!(doc.read_range(0, 16), b"abcdef");
}

#[test]
fn hex_parser_ignores_spaces() {
    assert_eq!(
        parse_hex_bytes("DE AD be ef").unwrap(),
        [0xde, 0xad, 0xbe, 0xef]
    );
    assert!(parse_hex_bytes("ABC").is_err());
}

#[test]
fn finds_across_virtual_document() {
    let mut doc = ByteDocument::from_bytes("sample.bin", b"abc___ghi".to_vec());
    doc.overwrite(3, b"def".to_vec()).unwrap();
    assert_eq!(find_bytes(&doc, b"defg", 0), Some(3));
}

#[test]
fn large_document_viewport_edit_and_search_are_bounded() {
    let mut bytes = vec![0u8; 32 * 1024 * 1024];
    bytes[16 * 1024 * 1024..16 * 1024 * 1024 + 4].copy_from_slice(b"NEED");
    let mut doc = ByteDocument::from_bytes("large.bin", bytes);

    let started = std::time::Instant::now();
    assert_eq!(doc.read_range(16 * 1024 * 1024, 64)[..4], *b"NEED");
    assert!(
        started.elapsed() < std::time::Duration::from_millis(100),
        "viewport read took {:?}",
        started.elapsed()
    );

    let started = std::time::Instant::now();
    doc.insert(10, vec![1, 2, 3, 4]).unwrap();
    doc.delete(20..24).unwrap();
    assert!(
        started.elapsed() < std::time::Duration::from_millis(250),
        "piece edits took {:?}",
        started.elapsed()
    );

    let started = std::time::Instant::now();
    assert_eq!(find_bytes(&doc, b"NEED", 0), Some(16 * 1024 * 1024));
    assert!(
        started.elapsed() < std::time::Duration::from_secs(3),
        "linear search took {:?}",
        started.elapsed()
    );
}

#[test]
fn detects_png_chunks_and_ihdr_fields() {
    let mut bytes = Vec::new();
    bytes.extend_from_slice(b"\x89PNG\r\n\x1A\n");
    bytes.extend_from_slice(&13u32.to_be_bytes());
    bytes.extend_from_slice(b"IHDR");
    bytes.extend_from_slice(&320u32.to_be_bytes());
    bytes.extend_from_slice(&200u32.to_be_bytes());
    bytes.extend_from_slice(&[8, 6, 0, 0, 0]);
    bytes.extend_from_slice(&0x12345678u32.to_be_bytes());
    bytes.extend_from_slice(&0u32.to_be_bytes());
    bytes.extend_from_slice(b"IEND");
    bytes.extend_from_slice(&0u32.to_be_bytes());
    let doc = ByteDocument::from_bytes("image.png", bytes);

    let summary = detect_format_fields(&doc, 64).expect("png summary");
    assert_eq!(summary.format, "PNG image");
    assert!(summary.fields.iter().any(|field| {
        field.name == "IHDR width" && field.meaning == "画像幅" && field.value == "320"
    }));
    assert!(
        summary
            .fields
            .iter()
            .any(|field| field.name == "IHDR color type" && field.value.contains("alpha"))
    );
}

#[test]
fn detects_bmp_header_fields() {
    let mut bytes = vec![0u8; 54];
    bytes[0..2].copy_from_slice(b"BM");
    bytes[2..6].copy_from_slice(&54u32.to_le_bytes());
    bytes[10..14].copy_from_slice(&54u32.to_le_bytes());
    bytes[14..18].copy_from_slice(&40u32.to_le_bytes());
    bytes[18..22].copy_from_slice(&2i32.to_le_bytes());
    bytes[22..26].copy_from_slice(&3i32.to_le_bytes());
    bytes[26..28].copy_from_slice(&1u16.to_le_bytes());
    bytes[28..30].copy_from_slice(&24u16.to_le_bytes());
    let doc = ByteDocument::from_bytes("image.bmp", bytes);

    let summary = detect_format_fields(&doc, 64).expect("bmp summary");
    assert_eq!(summary.format, "BMP image");
    assert!(
        summary
            .fields
            .iter()
            .any(|field| field.name == "Width" && field.value == "2")
    );
    assert!(summary.fields.iter().any(|field| {
        field.name == "Bits per pixel" && field.meaning == "1ピクセルあたりのビット数"
    }));
}

#[test]
fn detects_wav_fmt_and_data_chunks() {
    let mut bytes = Vec::new();
    bytes.extend_from_slice(b"RIFF");
    bytes.extend_from_slice(&36u32.to_le_bytes());
    bytes.extend_from_slice(b"WAVE");
    bytes.extend_from_slice(b"fmt ");
    bytes.extend_from_slice(&16u32.to_le_bytes());
    bytes.extend_from_slice(&1u16.to_le_bytes());
    bytes.extend_from_slice(&2u16.to_le_bytes());
    bytes.extend_from_slice(&44100u32.to_le_bytes());
    bytes.extend_from_slice(&176400u32.to_le_bytes());
    bytes.extend_from_slice(&4u16.to_le_bytes());
    bytes.extend_from_slice(&16u16.to_le_bytes());
    bytes.extend_from_slice(b"data");
    bytes.extend_from_slice(&4u32.to_le_bytes());
    bytes.extend_from_slice(&[0, 0, 0, 0]);
    let doc = ByteDocument::from_bytes("sound.wav", bytes);

    let summary = detect_format_fields(&doc, 64).expect("wav summary");
    assert_eq!(summary.format, "WAV audio");
    assert!(
        summary
            .fields
            .iter()
            .any(|field| { field.name == "Sample rate" && field.value == "44100 Hz" })
    );
    assert!(
        summary
            .fields
            .iter()
            .any(|field| field.name == "Audio data" && field.meaning.contains("音声データ"))
    );
}

#[test]
fn detects_common_gif_jpeg_and_zip_headers() {
    let mut gif = b"GIF89a".to_vec();
    gif.extend_from_slice(&16u16.to_le_bytes());
    gif.extend_from_slice(&8u16.to_le_bytes());
    gif.extend_from_slice(&[0b1000_0001, 0, 0]);
    let gif = ByteDocument::from_bytes("image.gif", gif);
    assert_eq!(
        detect_format_fields(&gif, 16).expect("gif summary").format,
        "GIF image"
    );

    let jpeg = ByteDocument::from_bytes(
        "image.jpg",
        vec![0xFF, 0xD8, 0xFF, 0xE0, 0x00, 0x04, b'J', b'F', 0xFF, 0xD9],
    );
    let jpeg_summary = detect_format_fields(&jpeg, 16).expect("jpeg summary");
    assert_eq!(jpeg_summary.format, "JPEG image");
    assert!(jpeg_summary.fields.iter().any(|field| field.name == "APP0"));

    let mut zip = b"PK\x03\x04".to_vec();
    zip.extend_from_slice(&20u16.to_le_bytes());
    zip.extend_from_slice(&0u16.to_le_bytes());
    zip.extend_from_slice(&8u16.to_le_bytes());
    zip.extend_from_slice(&0u16.to_le_bytes());
    zip.extend_from_slice(&0u16.to_le_bytes());
    zip.extend_from_slice(&0u32.to_le_bytes());
    zip.extend_from_slice(&4u32.to_le_bytes());
    zip.extend_from_slice(&4u32.to_le_bytes());
    zip.extend_from_slice(&8u16.to_le_bytes());
    zip.extend_from_slice(&0u16.to_le_bytes());
    zip.extend_from_slice(b"file.txt");
    zip.extend_from_slice(&[1, 2, 3, 4]);
    let zip = ByteDocument::from_bytes("archive.zip", zip);
    let zip_summary = detect_format_fields(&zip, 32).expect("zip summary");
    assert_eq!(zip_summary.format, "ZIP archive");
    assert!(
        zip_summary
            .fields
            .iter()
            .any(|field| field.name == "File name" && field.value == "file.txt")
    );
}

#[test]
fn format_detection_uses_latest_edited_bytes() {
    let mut doc = ByteDocument::from_bytes("edited.bin", b"??\0\0\0\0".to_vec());
    assert!(detect_format_fields(&doc, 16).is_none());

    doc.overwrite(0, b"BM".to_vec()).unwrap();
    let summary = detect_format_fields(&doc, 16).expect("edited bmp summary");
    assert_eq!(summary.format, "BMP image");
    assert!(
        summary
            .fields
            .iter()
            .any(|field| field.name == "Signature" && field.value == "BM")
    );
}
