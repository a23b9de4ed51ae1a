use byteforge::document::ByteDocument;
use byteforge::editor::{EditMode, Editor, PaneSide, TextField};
use byteforge::hexview::CellLook;
use byteforge::panel::{compare_text_of, endian_label, tab_text_of, TextBoxView};
use byteforge::inspector::PreviewEncoding;
use byteforge::keys::KeyPress;
use byteforge::numbers::Endianness;
use byteforge::offsets::{byte_cell_id, pane_index, parse_offset};
use byteforge::selection::Selection;

fn editor_with(docs: Vec<(&str, &[u8])>) -> Editor {
    Editor::with_documents(
        docs.into_iter()
            .map(|(name, bytes)| ByteDocument::from_bytes(name, bytes.to_vec()))
            .collect(),
    )
}

fn doc_bytes(view: &Editor) -> Vec<u8> {
    let doc = view.active_doc().unwrap();
    doc.read_range(0, doc.len() as usize)
}

fn key(name: &str, typed: Option<&str>) -> KeyPress {
    KeyPress {
        key: name.to_string(),
        key_char: typed.map(|t| t.to_string()),
        control: false,
        platform: false,
    }
}

fn ctrl(name: &str) -> KeyPress {
    KeyPress {
        key: name.to_string(),
        key_char: None,
        control: true,
        platform: false,
    }
}

#[test]
fn clicking_format_field_selects_hex_range() {
    let mut png = Vec::new();
    png.extend_from_slice(b"\x89PNG\r\n\x1A\n");
    png.extend_from_slice(&13u32.to_be_bytes());
    png.extend_from_slice(b"IHDR");
    png.extend_from_slice(&[0; 17]);
    let mut view = Editor::with_documents(vec![ByteDocument::from_bytes("sample.png", png)]);
    view.select_format_field(0, 8);
    assert_eq!(view.cursor, 0);
    assert_eq!(view.selection_range(), Some(0..8));
    assert_eq!(view.status, "形式フィールド 0x0..0x7 を選択しました。");
}

#[test]
fn keyboard_navigation_selection_and_direct_hex_input() {
    let mut view = editor_with(vec![("sample.bin", b"abcdef")]);
    view.move_right();
    view.select_right();
    assert_eq!(view.cursor, 2);
    assert_eq!(view.selection_range(), Some(1..3));

    view.on_key_down(&key("a", Some("A")), None);
    view.on_key_down(&key("f", Some("F")), None);
    assert_eq!(doc_bytes(&view), b"a\xAFdef");
    assert_eq!(view.cursor, 2);
    assert!(view.selection.is_none());
}

#[test]
fn copy_cut_paste_delete_undo_redo_actions() {
    let mut view = editor_with(vec![("sample.bin", b"abcdef")]);
    view.select_all();
    assert_eq!(view.copy_hex().unwrap(), "61 62 63 64 65 66");
    assert_eq!(view.copy_text().unwrap(), "abcdef");

    view.set_cursor(1, false);
    view.set_cursor(3, true);
    assert_eq!(view.cut().unwrap(), "62 63 64");
    assert_eq!(doc_bytes(&view), b"aef");

    view.undo();
    assert_eq!(doc_bytes(&view), b"abcdef");
    view.redo();
    assert_eq!(doc_bytes(&view), b"aef");

    view.toggle_insert_mode();
    view.paste_hex(Some("CA FE".to_string()));
    assert_eq!(doc_bytes(&view), b"a\xCA\xFEef");

    view.paste_text(Some("xy".to_string()));
    assert_eq!(doc_bytes(&view), b"a\xCA\xFExyef");

    view.set_cursor(1, false);
    view.set_cursor(2, true);
    view.delete_selection();
    assert_eq!(doc_bytes(&view), b"axyef");
}

#[test]
fn find_compare_toggles_tabs_and_modes() {
    let mut view = editor_with(vec![("left.bin", b"abcXXdef"), ("right.bin", b"abcYYdef!")]);
    view.find_next(Some("58 58".to_string()));
    assert_eq!(view.selection_range(), Some(3..5));

    view.compare_next();
    assert_eq!(view.compare_with, Some(1));
    assert!(view.is_different(3));
    assert!(!view.is_different(0));

    assert_eq!(view.endian, Endianness::Little);
    view.toggle_endian();
    assert_eq!(view.endian, Endianness::Big);

    assert_eq!(view.encoding, PreviewEncoding::Utf8);
    view.next_encoding();
    assert_eq!(view.encoding, PreviewEncoding::Utf16Le);

    assert_eq!(view.bytes_per_row(), 16);
    view.next_row_width();
    assert_eq!(view.bytes_per_row(), 24);

    assert_eq!(view.edit_mode, EditMode::Overwrite);
    view.toggle_insert_mode();
    assert_eq!(view.edit_mode, EditMode::Insert);

    view.activate_doc(1);
    assert_eq!(view.active, 1);
    assert_eq!(view.active_doc().unwrap().name(), "right.bin");
}

#[test]
fn eof_cursor_append_and_cursor_delete() {
    let mut view = editor_with(vec![("sample.bin", b"abcdef")]);
    view.set_cursor(6, false);
    assert_eq!(view.cursor, 6);
    assert_eq!(view.selected_or_cursor_range(), Some(6..6));

    view.toggle_insert_mode();
    view.apply_bytes(b"XY".to_vec()).unwrap();
    assert_eq!(doc_bytes(&view), b"abcdefXY");
    assert_eq!(view.cursor, 8);

    view.set_cursor(1, false);
    view.delete_selection();
    assert_eq!(doc_bytes(&view), b"acdefXY");
    assert_eq!(view.cursor, 1);
}

#[test]
fn goto_and_find_scroll_to_target() {
    let bytes: Vec<u8> = (0..512).map(|ix| (ix % 251) as u8).collect();
    let mut view = Editor::with_documents(vec![ByteDocument::from_bytes("sample.bin", bytes)]);
    view.goto();
    view.text_selection = None;
    view.goto_input = "0x80".to_string();
    view.confirm_goto();
    assert_eq!(view.cursor, 0x80);
    assert_eq!(view.scroll_to_cursor(), (PaneSide::Left, 8));

    view.find_next(Some("FA 00 01".to_string()));
    assert_eq!(view.selection_range(), Some(250..253));
    assert_eq!(view.scroll_to_cursor(), (PaneSide::Left, 15));

    view.goto();
    view.text_selection = None;
    view.goto_input = "9999".to_string();
    view.confirm_goto();
    assert_eq!(view.cursor, 512);
}

#[test]
fn goto_input_backspace_does_not_delete_file_bytes() {
    let mut view = editor_with(vec![("sample.bin", b"abcdef")]);
    view.goto();
    assert!(view.goto_open);
    assert_eq!(view.goto_input, "0x0");
    assert_eq!(view.text_selection, Some(2..3));

    view.on_key_down(&key("backspace", None), None);
    assert_eq!(view.goto_input, "0x");
    assert_eq!(doc_bytes(&view), b"abcdef");

    view.delete_selection();
    assert!(view.goto_open);
    assert_eq!(doc_bytes(&view), b"abcdef");
}

#[test]
fn goto_text_box_supports_select_all_and_paste() {
    let mut view = Editor::with_documents(vec![ByteDocument::from_bytes("sample.bin", vec![0; 512])]);
    view.goto();
    view.on_key_down(&ctrl("a"), None);
    view.on_key_down(&ctrl("v"), Some("0x80".to_string()));
    view.on_key_down(&key("enter", None), None);
    assert!(!view.goto_open);
    assert_eq!(view.cursor, 0x80);
    assert_eq!(doc_bytes(&view).len(), 512);
}

#[test]
fn replace_next_and_replace_all_update_document() {
    let mut view = editor_with(vec![("sample.bin", b"abc abc abc")]);
    view.toggle_replace();
    view.find_input = "abc".to_string();
    view.replace_input = "XY".to_string();
    view.cursor = view.active_doc().unwrap().len();
    view.find_next(None);
    assert_eq!(view.selection_range(), Some(0..3));
    view.replace_next();
    assert_eq!(doc_bytes(&view), b"XY abc abc");
    assert_eq!(view.selection_range(), Some(3..6));
    view.replace_all();
    assert_eq!(doc_bytes(&view), b"XY XY XY");
    assert_eq!(view.status, "2 件を置換しました。");
}

#[test]
fn split_panes_can_focus_and_move_open_files() {
    let mut view = editor_with(vec![("left.bin", b"left"), ("right.bin", b"right")]);
    view.toggle_split();
    assert!(view.split);
    assert_eq!(view.active_ix_for(PaneSide::Left), Some(0));
    assert_eq!(view.active_ix_for(PaneSide::Right), Some(1));

    view.focus_right_pane();
    assert_eq!(view.focused_pane, PaneSide::Right);
    assert_eq!(view.active_doc().unwrap().name(), "right.bin");

    view.activate_doc(0);
    assert_eq!(view.active_ix_for(PaneSide::Right), Some(0));

    view.move_to_other_split();
    assert_eq!(view.focused_pane, PaneSide::Left);
    assert_eq!(view.active_ix_for(PaneSide::Left), Some(0));

    view.focus_right_pane();
    assert_eq!(view.focused_pane, PaneSide::Right);
    view.focus_left_pane();
    assert_eq!(view.focused_pane, PaneSide::Left);
}

#[test]
fn shift_click_and_drag_selection_share_ui_state_path() {
    let mut view = editor_with(vec![("sample.bin", b"0123456789")]);
    view.begin_cell_selection(0, PaneSide::Left, 2, false);
    view.drag_cell_selection(0, PaneSide::Left, 5);
    assert_eq!(view.selection_range(), Some(2..6));
    assert_eq!(view.cursor, 5);
    view.finish_cell_selection();
    assert!(view.drag_anchor.is_none());

    view.set_cursor(1, false);
    view.begin_cell_selection(0, PaneSide::Left, 4, true);
    assert_eq!(view.selection_range(), Some(1..5));
}

#[test]
fn open_paths_and_save_as_stream_current_document() {
    let mut view = Editor::with_documents(Vec::new());
    view.open_paths(vec![Ok(ByteDocument::from_bytes("/tmp/in.bin", b"abcdef".to_vec()))]);
    assert_eq!(doc_bytes(&view), b"abcdef");
    view.docs[0].replace_range(1..5, b"123".to_vec()).unwrap();
    let written = view.active_doc().unwrap().contents();
    assert_eq!(written, b"a123f");
    view.finish_save("/tmp/out.bin", Ok(()));
    assert!(!view.active_doc().unwrap().is_dirty());
    assert_eq!(view.active_doc().unwrap().path(), Some("/tmp/out.bin"));
    assert_eq!(view.status, "保存しました。");
}

#[test]
fn dropped_paths_open_multiple_files() {
    let mut view = Editor::with_documents(Vec::new());
    view.open_paths(vec![
        Ok(ByteDocument::from_bytes("first.bin", b"first".to_vec())),
        Ok(ByteDocument::from_bytes("second.bin", b"second".to_vec())),
    ]);
    assert_eq!(view.docs.len(), 2);
    assert_eq!(view.active, 0);
    assert_eq!(view.docs[0].read_range(0, 5), b"first");
    assert_eq!(view.docs[1].read_range(0, 6), b"second");
    assert_eq!(view.status, "2 個のファイルを開きました。");
}

#[test]
fn open_failure_reports_the_last_error() {
    let mut view = Editor::new(Vec::new());
    assert_eq!(view.status, "ファイルを開いて開始してください。");
    view.open_paths(vec![Err("first".to_string()), Err("no such file".to_string())]);
    assert!(view.docs.is_empty());
    assert_eq!(view.status, "ファイルを開けませんでした: no such file");
}

#[test]
fn save_failure_keeps_the_document_dirty() {
    let mut view = editor_with(vec![("sample.bin", b"abc")]);
    view.apply_bytes(b"X".to_vec()).unwrap();
    view.finish_save("/nowhere/out.bin", Err("denied".to_string()));
    assert!(view.active_doc().unwrap().is_dirty());
    assert_eq!(view.status, "保存に失敗しました: denied");
    let mut empty = Editor::with_documents(Vec::new());
    empty.finish_save("x.bin", Ok(()));
    assert_eq!(empty.status, "アクティブなファイルがありません。");
}

#[test]
fn hex_nibbles_wait_then_write() {
    let mut view = editor_with(vec![("sample.bin", b"abc")]);
    view.input_hex_nibble(0xC);
    assert_eq!(view.pending_hex, Some(0xC));
    assert_eq!(view.status, "16進入力待機中: C_");
    view.input_hex_nibble(0x3);
    assert_eq!(doc_bytes(&view), b"\xC3bc");
    assert_eq!(view.cursor, 1);
    assert_eq!(view.status, "0xC3 を書き込みました。");
}

#[test]
fn typing_past_the_end_in_overwrite_mode_is_refused() {
    let mut view = editor_with(vec![("left.bin", b"abcdef"), ("right.bin", b"ab")]);
    view.set_cursor(6, false);
    view.toggle_split();
    view.focus_right_pane();
    assert_eq!(view.cursor, 6);
    let err = view.apply_bytes(b"Z".to_vec()).unwrap_err();
    assert_eq!(err.message(), "overwrite offset 6 is past document length 2");
    view.toggle_insert_mode();
    view.input_hex_nibble(1);
    view.input_hex_nibble(2);
    assert_eq!(view.status, "書き込みに失敗しました: replace range 6..6 is outside document length 2");
    assert_eq!(doc_bytes(&view), b"ab");
}

#[test]
fn undo_and_redo_report_when_nothing_is_left() {
    let mut view = editor_with(vec![("sample.bin", b"abc")]);
    view.undo();
    assert_eq!(view.status, "元に戻す操作はありません。");
    view.redo();
    assert_eq!(view.status, "やり直す操作はありません。");
    let mut empty = Editor::with_documents(Vec::new());
    empty.undo();
    assert_eq!(empty.status, "アクティブなファイルがありません。");
}

#[test]
fn delete_reports_each_refusal() {
    let mut view = editor_with(vec![("sample.bin", b"abc")]);
    view.set_cursor(3, false);
    view.delete_selection();
    assert_eq!(view.status, "カーソル位置にバイトがありません。");
    let mut empty = Editor::with_documents(Vec::new());
    empty.delete_selection();
    assert_eq!(empty.status, "削除するバイトがありません。");
}

#[test]
fn paste_reports_errors_and_missing_text() {
    let mut view = editor_with(vec![("sample.bin", b"abc")]);
    view.paste_hex(None);
    assert_eq!(view.status, "クリップボードにテキストがありません。");
    view.paste_hex(Some("ABC".to_string()));
    assert_eq!(view.status, "16進貼り付けに失敗しました: hex input must contain an even number of digits");
    view.paste_hex(Some("zz".to_string()));
    assert_eq!(
        view.status,
        "16進貼り付けに失敗しました: invalid hex byte zz: invalid digit found in string"
    );
    view.paste_hex(Some("0102".to_string()));
    assert_eq!(view.status, "16進形式から 2 バイト貼り付けました。");
    assert_eq!(doc_bytes(&view), b"\x01\x02c");
    view.paste_text(Some("é".to_string()));
    assert_eq!(view.status, "2 バイトのテキストを貼り付けました。");
}

#[test]
fn paste_goes_into_the_field_being_edited() {
    let mut view = editor_with(vec![("sample.bin", b"abc")]);
    view.toggle_replace();
    assert_eq!(view.active_text_field, Some(TextField::Find));
    view.paste_hex(Some("61".to_string()));
    assert_eq!(view.find_input, "61");
    assert_eq!(doc_bytes(&view), b"abc");
    view.on_key_down(&key("escape", None), None);
    assert_eq!(view.active_text_field, None);
}

#[test]
fn find_reports_empty_needle_and_misses() {
    let mut view = editor_with(vec![("sample.bin", b"abcabc")]);
    view.find_next(None);
    assert_eq!(view.status, "検索するバイト列またはテキストを先にコピーしてください。");
    assert_eq!(view.find_next_bytes(b""), None);
    assert_eq!(view.status, "検索する値が空です。");
    assert_eq!(view.find_next_bytes(b"zz"), None);
    assert_eq!(view.status, "一致するパターンは見つかりませんでした。");
    assert_eq!(view.find_next_bytes(b"bc"), Some(1));
    assert_eq!(view.status, "2 バイトの一致を 0x1 で見つけました。");
    assert_eq!(view.find_next_bytes(b"bc"), Some(4));
    assert_eq!(view.find_next_bytes(b"bc"), Some(1));
}

#[test]
fn replace_next_reports_the_last_replacement() {
    let mut view = editor_with(vec![("sample.bin", b"abc")]);
    view.toggle_replace();
    view.find_input = "abc".to_string();
    view.replace_input = "d".to_string();
    view.selection = Some(Selection::new(0, 2));
    view.replace_next();
    assert_eq!(doc_bytes(&view), b"d");
    assert_eq!(view.status, "1件置換しました。次の一致はありません。");
}

#[test]
fn compare_needs_two_documents_and_skips_the_focused_one() {
    let mut view = editor_with(vec![("a.bin", b"a")]);
    view.compare_next();
    assert_eq!(view.compare_with, None);
    assert_eq!(view.status, "比較するには2個以上のファイルを開いてください。");

    let mut three = editor_with(vec![("a.bin", b"a"), ("b.bin", b"b"), ("c.bin", b"c")]);
    three.compare_next();
    assert_eq!(three.compare_with, Some(1));
    assert_eq!(three.status, "b.bin と比較しています。");
    three.compare_next();
    assert_eq!(three.compare_with, Some(2));
    three.compare_next();
    assert_eq!(three.compare_with, Some(1));
}

#[test]
fn moving_the_cursor_stays_inside_the_document() {
    let mut view = editor_with(vec![("sample.bin", b"abcdefghijklmnopqrstu")]);
    view.move_left();
    assert_eq!(view.cursor, 0);
    view.move_down();
    assert_eq!(view.cursor, 16);
    view.move_down();
    assert_eq!(view.cursor, 21);
    view.move_up();
    assert_eq!(view.cursor, 5);
    view.select_left();
    assert_eq!(view.selection_range(), Some(4..6));
    view.move_cursor(i64::MIN, false);
    assert_eq!(view.cursor, 0);
    view.move_cursor(i64::MAX, false);
    assert_eq!(view.cursor, 21);
}

#[test]
fn select_all_reports_the_length() {
    let mut view = editor_with(vec![("sample.bin", b"abcd")]);
    view.select_all();
    assert_eq!(view.selection_range(), Some(0..4));
    assert_eq!(view.cursor, 3);
    assert_eq!(view.status, "4 バイトを選択しました。");
}

#[test]
fn goto_rejects_text_that_names_no_offset() {
    let mut view = editor_with(vec![("sample.bin", b"abcd")]);
    view.goto();
    view.text_selection = None;
    view.goto_input = "0xZZ".to_string();
    view.confirm_goto();
    assert!(view.goto_open);
    assert_eq!(
        view.status,
        "Gotoに失敗しました。10進数または0x始まりの16進数を入力してください。"
    );
    view.goto_input = " 0x_3 ".to_string();
    view.confirm_goto();
    assert_eq!(view.cursor, 3);
    assert_eq!(view.status, "0x3 へ移動しました。");
}

#[test]
fn goto_then_escape_cancels() {
    let mut view = editor_with(vec![("sample.bin", b"abcd")]);
    view.goto();
    view.on_key_down(&key("escape", None), None);
    assert!(!view.goto_open);
    assert_eq!(view.status, "Gotoをキャンセルしました。");
}

#[test]
fn typed_text_replaces_the_field_selection() {
    let mut view = editor_with(vec![("sample.bin", b"abcd")]);
    view.goto();
    view.on_key_down(&key("1", Some("1")), None);
    assert_eq!(view.goto_input, "0x1");
    view.on_key_down(&key("f", Some("f")), None);
    assert_eq!(view.goto_input, "0x1f");
    view.on_key_down(&key("backspace", None), None);
    assert_eq!(view.goto_input, "0x1");
    view.replace_text_selection(TextField::Goto, "é");
    assert_eq!(view.goto_input, "0x1é");
    view.pop_text(TextField::Goto);
    assert_eq!(view.goto_input, "0x1");
}

#[test]
fn split_toggle_picks_the_next_document() {
    let mut view = editor_with(vec![("a.bin", b"a"), ("b.bin", b"b")]);
    view.toggle_split();
    assert_eq!(view.right_active, Some(1));
    assert_eq!(view.status, "分割表示を有効にしました。");
    view.focus_right_pane();
    view.toggle_split();
    assert_eq!(view.focused_pane, PaneSide::Left);
    assert_eq!(view.status, "分割表示を無効にしました。");
    view.move_to_other_split();
    assert!(view.split);
    assert_eq!(view.focused_pane, PaneSide::Right);
    assert_eq!(view.status, "アクティブなファイルを右ペインへ移動しました。");
}

#[test]
fn row_counts_and_widths_cycle() {
    let mut view = editor_with(vec![("sample.bin", &[0u8; 40])]);
    assert_eq!(view.row_count_for(0), 3);
    assert_eq!(view.row_count_for(9), 1);
    let widths: Vec<usize> = (0..5)
        .map(|_| {
            let w = view.bytes_per_row();
            view.next_row_width();
            w
        })
        .collect();
    assert_eq!(widths, vec![16, 24, 32, 8, 16]);
}

#[test]
fn panes_and_cells_have_stable_ids() {
    assert_eq!(pane_index(PaneSide::Left), 0);
    assert_eq!(pane_index(PaneSide::Right), 1);
    assert_eq!(byte_cell_id(PaneSide::Left, 3, 1), 13);
    assert_eq!(byte_cell_id(PaneSide::Right, 3, 1), 15);
    assert_eq!(byte_cell_id(PaneSide::Right, u64::MAX, 1), usize::MAX);
    assert_eq!(PaneSide::Right.label(), "Right");
    assert_eq!(PaneSide::Left.ja_label(), "左");
    assert_eq!(EditMode::Insert.label(), "Insert");
}

#[test]
fn offsets_parse_in_decimal_and_hex() {
    assert_eq!(parse_offset("128"), Some(128));
    assert_eq!(parse_offset("0x80"), Some(128));
    assert_eq!(parse_offset("0X8_0"), Some(128));
    assert_eq!(parse_offset("  1_000 \t"), Some(1000));
    assert_eq!(parse_offset("ff"), Some(255));
    assert_eq!(parse_offset("+12"), Some(12));
    assert_eq!(parse_offset(""), None);
    assert_eq!(parse_offset("0x"), None);
    assert_eq!(parse_offset("-1"), None);
    assert_eq!(parse_offset("18446744073709551615"), Some(u64::MAX));
    assert_eq!(parse_offset("18446744073709551616"), None);
}

#[test]
fn comparison_marks_bytes_the_other_document_lacks() {
    let mut view = editor_with(vec![("a.bin", b"abc"), ("b.bin", b"ab")]);
    assert!(!view.is_different(0));
    view.compare_next();
    assert!(!view.is_different_for(0, 1));
    assert!(view.is_different_for(0, 2));
    assert!(!view.is_different_for(0, 3));
}

#[test]
fn copy_from_the_cursor_byte_and_anchor_column() {
    let mut view = editor_with(vec![("sample.bin", b"a\x01c")]);
    view.set_cursor(1, false);
    assert_eq!(view.copy_text().unwrap(), ".");
    assert_eq!(view.status, "テキストプレビューをコピーしました。");
    assert_eq!(view.selection_anchor_offset(), Some(1));
    let mut empty = Editor::with_documents(Vec::new());
    assert_eq!(empty.copy_hex(), None);
    assert_eq!(empty.selection_anchor_offset(), None);
}

#[test]
fn text_field_key_shortcuts() {
    let mut view = editor_with(vec![("sample.bin", b"abc")]);
    view.toggle_replace();
    view.on_key_down(&key("x", Some("x")), None);
    assert_eq!(view.find_input, "x");
    view.on_key_down(&ctrl("a"), None);
    assert_eq!(view.text_selection, Some(0..1));
    view.on_key_down(&key("backspace", None), None);
    assert_eq!(view.find_input, "");
    view.on_key_down(&ctrl("q"), None);
    assert_eq!(view.find_input, "");
    view.toggle_replace();
    assert_eq!(view.status, "置換パネルを閉じました。");
    view.on_key_down(&key("backspace", None), None);
    assert_eq!(doc_bytes(&view), b"bc");
}

#[test]
fn hex_rows_mark_selection_cursor_and_end() {
    let mut view = editor_with(vec![("a.bin", b"ab\x01"), ("b.bin", b"aB")]);
    view.set_cursor(1, false);
    let row = view.hex_row(0, PaneSide::Left, 0);
    assert_eq!(row.offset, 0);
    assert_eq!(row.address, "0000000000000000");
    assert!(row.address_active);
    assert_eq!(row.cells.len(), 16);
    assert_eq!(row.cells[0].label, "61");
    assert_eq!(row.cells[0].look, CellLook::Present);
    assert_eq!(row.cells[1].look, CellLook::Cursor);
    assert_eq!(row.cells[2].ascii, '.');
    assert_eq!(row.cells[3].label, "++");
    assert_eq!(row.cells[3].ascii, '+');
    assert_eq!(row.cells[3].look, CellLook::InsertionPoint);
    assert_eq!(row.cells[3].ascii_look, CellLook::Past);
    assert_eq!(row.cells[4].label, "  ");
    assert_eq!(row.cells[4].look, CellLook::Past);

    view.toggle_insert_mode();
    assert_eq!(view.hex_cell(0, PaneSide::Left, 1).look, CellLook::InsertCursor);
    assert_eq!(view.hex_cell(0, PaneSide::Right, 1).look, CellLook::Present);

    view.compare_next();
    assert_eq!(view.hex_cell(0, PaneSide::Right, 1).look, CellLook::Different);
    assert_eq!(view.hex_cell(0, PaneSide::Right, 2).look, CellLook::Different);

    view.set_cursor(0, false);
    view.set_cursor(1, true);
    assert_eq!(view.hex_cell(0, PaneSide::Left, 0).look, CellLook::Selected);
    assert_eq!(view.hex_cell(0, PaneSide::Left, 1).ascii_look, CellLook::Selected);

    let second = view.hex_row(0, PaneSide::Left, 1);
    assert_eq!(second.address, "0000000000000010");
    assert!(!second.address_active);
}

#[test]
fn column_ruler_marks_the_anchor_column() {
    let mut view = editor_with(vec![("a.bin", &[0u8; 40])]);
    view.set_cursor(18, false);
    let cols = view.column_header();
    assert_eq!(cols.len(), 16);
    assert_eq!(cols[2], ("02".to_string(), true));
    assert_eq!(cols[15], ("0F".to_string(), false));
    assert_eq!(cols.iter().filter(|c| c.1).count(), 1);
}

#[test]
fn inspector_panel_lines() {
    let mut view = editor_with(vec![("dir/a.bin", b"\x89PNG\r\n\x1A\n")]);
    assert_eq!(view.selection_text(), "none");
    assert_eq!(view.compare_text(), "off");
    assert_eq!(view.hex_input_text(), "--");
    assert_eq!(view.length_text(), "8");
    assert_eq!(view.row_width_label(), "16 B/row");
    assert_eq!(view.tab_label(0), "a.bin");
    assert_eq!(view.tab_selected_index(PaneSide::Left), Some(0));
    assert_eq!(view.inspector_bytes(), b"\x89PNG\r\n\x1A\n");
    assert_eq!(view.inspector_lines()[0].value, "0x0000000000000000 / 0");
    let summary = view.format_summary().unwrap();
    assert_eq!(summary.format, "PNG image");
    assert_eq!(summary.fields[0].header_text(), "0x00000000 +8");

    view.select_all();
    assert_eq!(view.selection_text(), "8 byte(s)");
    view.input_hex_nibble(0xA);
    assert_eq!(view.hex_input_text(), "A_");
    view.input_hex_nibble(0xB);
    assert_eq!(view.tab_label(0), "a.bin*");

    let empty = Editor::with_documents(Vec::new());
    assert_eq!(empty.length_text(), "");
    assert_eq!(empty.tab_selected_index(PaneSide::Left), None);
    assert!(empty.format_summary().is_none());
    assert!(empty.inspector_bytes().is_empty());
}

#[test]
fn text_boxes_show_their_selection() {
    let mut view = editor_with(vec![("a.bin", b"abc")]);
    assert!(matches!(view.text_box(TextField::Goto), TextBoxView::Placeholder));
    view.goto();
    match view.text_box(TextField::Goto) {
        TextBoxView::Selected(a, b, c) => {
            assert_eq!((a.as_str(), b.as_str(), c.as_str()), ("0x", "0", ""));
        }
        _ => panic!("the digits should show selected"),
    }
    view.focus_text_field(TextField::Find);
    assert_eq!(view.text_selection, None);
    match view.text_box(TextField::Goto) {
        TextBoxView::Plain(t) => assert_eq!(t, "0x0"),
        _ => panic!("the field is not being edited"),
    }
    assert_eq!(tab_text_of("x".to_string(), true), "x*");
    assert_eq!(compare_text_of(None), "off");
    assert_eq!(endian_label(Endianness::Big), "Big");
}

#[test]
fn replace_all_takes_matches_from_the_left_without_overlap() {
    let mut view = editor_with(vec![("sample.bin", b"xxxxx")]);
    view.toggle_replace();
    view.find_input = "xx".to_string();
    view.replace_input = "y".to_string();
    view.replace_all();
    assert_eq!(doc_bytes(&view), b"yyx");
    assert_eq!(view.status, "2 件を置換しました。");
}

#[test]
fn lower_case_copied_hex_reads_back() {
    let mut view = editor_with(vec![("sample.bin", &[0xab, 0x00, 0xfe, 0x9c])]);
    view.select_all();
    let copied = view.copy_hex().unwrap();
    assert_eq!(copied, "AB 00 FE 9C");
    let lower = copied.to_lowercase();
    assert_eq!(
        byteforge::hex::parse_hex_bytes(&lower).unwrap(),
        vec![0xab, 0x00, 0xfe, 0x9c]
    );
}

#[test]
fn compare_text_and_tabs_show_file_names() {
    let mut view = editor_with(vec![("left.bin", b"left"), ("right.bin", b"right")]);
    assert_eq!(view.compare_text(), "off");
    view.compare_next();
    assert_eq!(view.compare_text(), "right.bin");
    assert_eq!(view.tab_label(0), "left.bin");
    assert_eq!(view.tab_label(1), "right.bin");
}
