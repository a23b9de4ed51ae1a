//! Editing the focused document from the editor: typed and pasted bytes,
//! deleting, undo and redo, copying, and saving.

use vstd::prelude::*;
use vstd::string::*;
use vstd::utf8::encode_utf8;

use crate::document::{edit_error_text, spec_read, spec_redo, spec_replace, spec_saved, spec_undo, DocModel, EditError};
use crate::editor::{
    active_len, contents_of, doc_ok, focused_ix, has_active, model_fits, sel_or_cursor,
    sel_range, DocView, EditMode, Editor, EditorView,
};
use crate::formats::{cat, cat_string, dec_text, lit};
use crate::hex::{hex_error_text, parse_hex_bytes, spec_parse_hex};
use crate::input::replace_text_spec;
use crate::inspector::{printable_char, printable_or_dot};
use crate::pieces::imin;
use crate::text::{append_padded, spec_decimal, spec_hex};

verus! {

/// The focused document's model.
pub open spec fn focused_model(v: EditorView) -> DocModel {
    v.docs[focused_ix(v)].model
}

/// `v` with document `i` holding model `m`, its path unchanged.
pub open spec fn with_model(v: EditorView, i: int, m: DocModel) -> EditorView {
    EditorView { docs: v.docs.update(i, DocView { model: m, path: v.docs[i].path }), ..v }
}

/// `v` with the cursor kept inside the focused document.
pub open spec fn clamp_spec(v: EditorView) -> EditorView {
    EditorView { cursor: imin(v.cursor as int, active_len(v)) as u64, ..v }
}

/// What applying `bytes` reports: their number, or why the document refused
/// them (the cursor past its end).
pub open spec fn apply_result(v: EditorView, bytes: Seq<u8>) -> Result<usize, EditError> {
    let len = active_len(v);
    if sel_range(v) is Some || v.cursor <= len {
        Ok(bytes.len() as usize)
    } else {
        match v.edit_mode {
            EditMode::Insert => Err(EditError::RangeOutsideDocument { start: v.cursor, end: v.cursor, len: len as u64 }),
            EditMode::Overwrite => Err(EditError::OffsetPastEnd { offset: v.cursor, len: len as u64 }),
        }
    }
}

/// The state after `bytes` were typed or pasted: they replace the
/// selection, or else go in at the cursor (inserted or written over the
/// bytes there, as the edit mode says); the cursor ends after them.
pub open spec fn apply_spec(v: EditorView, bytes: Seq<u8>) -> EditorView {
    let i = focused_ix(v);
    let m = focused_model(v);
    let len = active_len(v);
    let n = bytes.len() as int;
    match sel_range(v) {
        Some((s, e)) => clamp_spec(
            EditorView {
                cursor: (s + n) as u64,
                selection: None,
                ..with_model(v, i, spec_replace(m, s, e, bytes))
            },
        ),
        None => if v.cursor > len {
            v
        } else {
            let end = match v.edit_mode {
                EditMode::Insert => v.cursor as int,
                EditMode::Overwrite => imin(len, v.cursor + n),
            };
            clamp_spec(
                EditorView {
                    cursor: (v.cursor + n) as u64,
                    ..with_model(v, i, spec_replace(m, v.cursor as int, end, bytes))
                },
            )
        },
    }
}

/// The state after the byte `byte` was typed: it is applied, and the
/// status says how that went.
pub open spec fn write_byte_spec(v: EditorView, byte: u8) -> EditorView {
    let after = apply_spec(v, seq![byte]);
    match apply_result(v, seq![byte]) {
        Ok(_) => EditorView { status: "0x"@ + spec_hex(byte as nat, 2) + " を書き込みました。"@, ..after },
        Err(e) => EditorView { status: "書き込みに失敗しました: "@ + edit_error_text(e), ..after },
    }
}

/// The state after a hex digit was typed: the first digit of a byte waits,
/// the second completes the byte and writes it.
pub open spec fn input_nibble_spec(v: EditorView, nibble: u8) -> EditorView {
    if !has_active(v) {
        v
    } else {
        match v.pending_hex {
            Some(high) => write_byte_spec(EditorView { pending_hex: None, ..v }, (high * 16 + nibble) as u8),
            None => EditorView {
                pending_hex: Some(nibble),
                status: "16進入力待機中: "@ + spec_hex(nibble as nat, 0) + "_"@,
                ..v
            },
        }
    }
}

/// A document's model after an edit still fits when the edit leaves it
/// shorter than the largest `u64`.
proof fn lemma_replace_fits(m: DocModel, s: int, e: int, bytes: Seq<u8>)
    requires
        model_fits(m),
        0 <= s <= e <= m.current.contents.len(),
        m.current.contents.len() - (e - s) + bytes.len() < u64::MAX,
    ensures
        model_fits(spec_replace(m, s, e, bytes)),
        spec_replace(m, s, e, bytes).current.contents.len() == m.current.contents.len() - (e - s) + bytes.len(),
{
    let r = spec_replace(m, s, e, bytes);
    if !(s == e && bytes.len() == 0) {
        assert forall|j: int| 0 <= j < r.undo.len() implies (#[trigger] r.undo[j]).contents.len() < u64::MAX by {
            if j < m.undo.len() {
                assert(r.undo[j] == m.undo[j]);
            }
        }
    }
}

/// The editing operations the editor performs on one of its documents.
pub enum DocEdit {
    Replace(u64, u64),
    Insert(u64),
    Overwrite(u64),
}

/// The range an edit of a document of length `len` replaces, if the
/// document accepts it.
pub open spec fn edit_range(op: DocEdit, len: int, n: int) -> Option<(int, int)> {
    match op {
        DocEdit::Replace(s, e) => if s <= e <= len {
            Some((s as int, e as int))
        } else {
            None
        },
        DocEdit::Insert(o) => if o <= len {
            Some((o as int, o as int))
        } else {
            None
        },
        DocEdit::Overwrite(o) => if o <= len {
            Some((o as int, imin(len, o + n)))
        } else {
            None
        },
    }
}

/// The error with which a document refuses an edit.
pub open spec fn edit_refusal(op: DocEdit, len: int) -> EditError {
    match op {
        DocEdit::Replace(s, e) => EditError::RangeOutsideDocument { start: s, end: e, len: len as u64 },
        DocEdit::Insert(o) => EditError::RangeOutsideDocument { start: o, end: o, len: len as u64 },
        DocEdit::Overwrite(o) => EditError::OffsetPastEnd { offset: o, len: len as u64 },
    }
}

impl Editor {
    /// Performs `op` with `bytes` on document `ix`.
    pub(crate) fn edit_doc(&mut self, ix: usize, op: DocEdit, bytes: Vec<u8>) -> (r: Result<(), EditError>)
        requires
            old(self).wf(),
            ix < old(self).docs@.len(),
            contents_of(old(self)@, ix as int).len() + bytes@.len() < u64::MAX,
        ensures
            final(self).wf(),
            match edit_range(op, contents_of(old(self)@, ix as int).len() as int, bytes@.len() as int) {
                Some((s, e)) => r is Ok && final(self)@ == with_model(
                    old(self)@,
                    ix as int,
                    spec_replace(old(self)@.docs[ix as int].model, s, e, bytes@),
                ),
                None => r == Err::<(), EditError>(edit_refusal(op, contents_of(old(self)@, ix as int).len() as int))
                    && final(self)@ == old(self)@,
            },
    {
        let ghost v = self@;
        let ghost b = bytes@;
        proof {
            self.lemma_focused();
            assert(doc_ok(self.docs@[ix as int]));
            self.docs@[ix as int].lemma_model_contents();
        }
        let ghost m = self.docs@[ix as int].model();
        let ghost len = m.current.contents.len() as int;
        proof {
            match edit_range(op, len, b.len() as int) {
                Some((s, e)) => {
                    lemma_replace_fits(m, s, e, b);
                },
                None => {},
            }
        }
        let result = match op {
            DocEdit::Replace(s, e) => self.docs[ix].replace_range(s..e, bytes),
            DocEdit::Insert(o) => self.docs[ix].insert(o, bytes),
            DocEdit::Overwrite(o) => self.docs[ix].overwrite(o, bytes),
        };
        proof {
            let d = self.docs@[ix as int];
            assert(self.docs@ =~= old(self).docs@.update(ix as int, d));
            d.lemma_model_contents();
            assert forall|i: int| 0 <= i < self.docs@.len() implies doc_ok(#[trigger] self.docs@[i]) by {
                if i != ix {
                    assert(self.docs@[i] == old(self).docs@[i]);
                }
            }
            assert(self@.docs =~= v.docs.update(ix as int, DocView { model: d.model(), path: v.docs[ix as int].path }));
            match edit_range(op, len, b.len() as int) {
                Some((s, e)) => {
                    assert(self@ =~= with_model(v, ix as int, spec_replace(m, s, e, b)));
                },
                None => {
                    assert(self@ =~= v);
                },
            }
        }
        result
    }

    /// Writes `bytes` over the selection, or else at the cursor as the edit
    /// mode says, and moves the cursor after them.
    #[verifier::spinoff_prover]
    pub fn apply_bytes(&mut self, bytes: Vec<u8>) -> (r: Result<usize, EditError>)
        requires
            old(self).wf(),
            has_active(old(self)@),
            active_len(old(self)@) + bytes@.len() < u64::MAX,
        ensures
            final(self).wf(),
            r == apply_result(old(self)@, bytes@),
            final(self)@ == apply_spec(old(self)@, bytes@),
    {
        let ghost v = self@;
        let ghost b = bytes@;
        proof {
            self.lemma_focused();
        }
        let count = bytes.len();
        let ix = self.focused_active_ix();
        match self.selection_range() {
            Some(range) => {
                let start = range.start;
                let result = self.edit_doc(ix, DocEdit::Replace(range.start, range.end), bytes);
                match result {
                    Ok(()) => {},
                    Err(err) => {
                        return Err(err);
                    },
                }
                self.cursor = start + count as u64;
                self.selection = None;
            },
            None => {
                let offset = self.cursor;
                let op = match self.edit_mode {
                    EditMode::Insert => DocEdit::Insert(offset),
                    EditMode::Overwrite => DocEdit::Overwrite(offset),
                };
                let result = self.edit_doc(ix, op, bytes);
                match result {
                    Ok(()) => {},
                    Err(err) => {
                        return Err(err);
                    },
                }
                self.cursor = offset + count as u64;
            },
        }
        let ghost w = self@;
        self.clamp_cursor();
        assert(self@ =~= apply_spec(v, b));
        Ok(count)
    }
}

/// The state after undo (or redo, with `redo`) in the focused document:
/// the cursor is kept inside it and the selection is dropped.
pub open spec fn history_spec(v: EditorView, redo: bool) -> EditorView {
    if !has_active(v) {
        EditorView { status: "アクティブなファイルがありません。"@, ..v }
    } else {
        let m = focused_model(v);
        let available = if redo {
            m.redo.len() > 0
        } else {
            m.undo.len() > 0
        };
        if available {
            let w = with_model(v, focused_ix(v), if redo {
                spec_redo(m)
            } else {
                spec_undo(m)
            });
            EditorView {
                selection: None,
                pending_hex: None,
                status: if redo {
                    "やり直しました。"@
                } else {
                    "元に戻しました。"@
                },
                ..clamp_spec(w)
            }
        } else {
            EditorView {
                status: if redo {
                    "やり直す操作はありません。"@
                } else {
                    "元に戻す操作はありません。"@
                },
                ..v
            }
        }
    }
}

/// The state after "delete": the selection, or else the byte under the
/// cursor, is deleted; nothing while "go to" is open or at the end of the
/// document.
pub open spec fn delete_spec(v: EditorView) -> EditorView {
    if v.goto_open {
        EditorView { status: "Goto入力中です。ファイルのバイトは削除しません。"@, ..v }
    } else {
        match sel_or_cursor(v) {
            None => EditorView { status: "削除するバイトがありません。"@, ..v },
            Some((s, e)) => if s == e {
                EditorView { status: "カーソル位置にバイトがありません。"@, ..v }
            } else {
                let w = with_model(v, focused_ix(v), spec_replace(focused_model(v), s, e, Seq::empty()));
                EditorView {
                    status: "選択範囲を削除しました。"@,
                    ..clamp_spec(EditorView { cursor: s as u64, selection: None, ..w })
                }
            },
        }
    }
}

/// Bytes as upper-case hex pairs separated by spaces.
pub open spec fn hex_join(b: Seq<u8>) -> Seq<char>
    decreases b.len(),
{
    if b.len() == 0 {
        Seq::empty()
    } else if b.len() == 1 {
        spec_hex(b[0] as nat, 2)
    } else {
        hex_join(b.drop_last()) + " "@ + spec_hex(b.last() as nat, 2)
    }
}

/// The bytes a copy takes: the selection, or else the byte under the cursor.
pub open spec fn copied_bytes(v: EditorView) -> Option<Seq<u8>> {
    match sel_or_cursor(v) {
        None => None,
        Some((s, e)) => Some(spec_read(contents_of(v, focused_ix(v)), s, ((e - s) as usize) as int)),
    }
}

/// The text "copy hex" puts on the clipboard.
pub open spec fn copy_hex_text(v: EditorView) -> Option<Seq<char>> {
    match copied_bytes(v) {
        None => None,
        Some(b) => Some(hex_join(b)),
    }
}

/// The text "copy text" puts on the clipboard: printable ASCII as it is,
/// `.` for the rest.
pub open spec fn copy_text_text(v: EditorView) -> Option<Seq<char>> {
    match copied_bytes(v) {
        None => None,
        Some(b) => Some(b.map_values(|x: u8| printable_or_dot(x))),
    }
}

/// The state after a copy with status `done`.
pub open spec fn copy_spec(v: EditorView, done: Seq<char>) -> EditorView {
    match copied_bytes(v) {
        None => v,
        Some(_) => EditorView { status: done, ..v },
    }
}

/// The state after "cut": a copy as hex, then a delete.
pub open spec fn cut_spec(v: EditorView) -> EditorView {
    EditorView {
        status: "選択範囲を16進形式で切り取りました。"@,
        ..delete_spec(copy_spec(v, "16進形式でコピーしました。"@))
    }
}

/// Clipboard text as plain values.
pub open spec fn clip_view(c: Option<String>) -> Option<Seq<char>> {
    match c {
        Some(t) => Some(t@),
        None => None,
    }
}

/// The state after "paste hex" with clipboard text `clip`: into the input
/// field being edited, or else the bytes the text spells are applied.
pub open spec fn paste_hex_spec(v: EditorView, clip: Option<Seq<char>>) -> EditorView {
    match v.active_text_field {
        Some(f) => match clip {
            Some(t) => replace_text_spec(v, f, t),
            None => v,
        },
        None => match clip {
            None => EditorView { status: "クリップボードにテキストがありません。"@, ..v },
            Some(t) => match spec_parse_hex(t) {
                Err(e) => EditorView { status: "16進貼り付けに失敗しました: "@ + hex_error_text(e), ..v },
                Ok(b) => match apply_result(v, b) {
                    Ok(n) => EditorView {
                        status: "16進形式から "@ + spec_decimal(n as nat) + " バイト貼り付けました。"@,
                        ..apply_spec(v, b)
                    },
                    Err(e) => EditorView {
                        status: "16進貼り付けに失敗しました: "@ + edit_error_text(e),
                        ..apply_spec(v, b)
                    },
                },
            },
        },
    }
}

/// Whether "paste hex" with `clip` applies bytes, and which.
pub open spec fn paste_hex_bytes(v: EditorView, clip: Option<Seq<char>>) -> Option<Seq<u8>> {
    if v.active_text_field is None {
        match clip {
            Some(t) => match spec_parse_hex(t) {
                Ok(b) => Some(b),
                Err(_) => None,
            },
            None => None,
        }
    } else {
        None
    }
}

/// The state after "paste text" with clipboard text `clip`: its UTF-8
/// bytes are applied.
pub open spec fn paste_text_spec(v: EditorView, clip: Option<Seq<char>>) -> EditorView {
    match clip {
        None => EditorView { status: "クリップボードにテキストがありません。"@, ..v },
        Some(t) => {
            let b = encode_utf8(t);
            match apply_result(v, b) {
                Ok(_) => EditorView {
                    status: spec_decimal(b.len()) + " バイトのテキストを貼り付けました。"@,
                    ..apply_spec(v, b)
                },
                Err(e) => EditorView {
                    status: "テキスト貼り付けに失敗しました: "@ + edit_error_text(e),
                    ..apply_spec(v, b)
                },
            }
        },
    }
}

/// The state after the focused document was written to `path` with
/// `result`: on success it takes the path, is clean and has no history.
pub open spec fn finish_save_spec(v: EditorView, path: Seq<char>, result: Result<(), Seq<char>>) -> EditorView {
    if !has_active(v) {
        EditorView { status: "アクティブなファイルがありません。"@, ..v }
    } else {
        match result {
            Ok(_) => EditorView {
                docs: v.docs.update(focused_ix(v), DocView { model: spec_saved(focused_model(v)), path: Some(path) }),
                status: "保存しました。"@,
                ..v
            },
            Err(e) => EditorView { status: "保存に失敗しました: "@ + e, ..v },
        }
    }
}

/// Bytes as upper-case hex pairs separated by spaces.
fn hex_join_text(bytes: &Vec<u8>) -> (s: String)
    ensures
        s@ == hex_join(bytes@),
{
    let mut s = String::new();
    let mut k: usize = 0;
    while k < bytes.len()
        invariant
            k <= bytes@.len(),
            s@ == hex_join(bytes@.take(k as int)),
        decreases bytes@.len() - k,
    {
        proof {
            assert(bytes@.take(k + 1).drop_last() =~= bytes@.take(k as int));
            reveal_strlit(" ");
        }
        if k > 0 {
            crate::text::push_char(&mut s, ' ');
        }
        append_padded(&mut s, bytes[k] as u64, 16, 2);
        k = k + 1;
        proof {
            if k == 1 {
                assert(s@ =~= hex_join(bytes@.take(k as int)));
            } else {
                assert(s@ =~= hex_join(bytes@.take(k as int)));
            }
        }
    }
    assert(bytes@.take(bytes@.len() as int) =~= bytes@);
    s
}

/// Bytes as text, `.` for what does not print.
fn printable_text(bytes: &Vec<u8>) -> (s: String)
    ensures
        s@ == bytes@.map_values(|x: u8| printable_or_dot(x)),
{
    let mut s = String::new();
    let mut k: usize = 0;
    while k < bytes.len()
        invariant
            k <= bytes@.len(),
            s@ == bytes@.take(k as int).map_values(|x: u8| printable_or_dot(x)),
        decreases bytes@.len() - k,
    {
        crate::text::push_char(&mut s, printable_char(bytes[k]));
        k = k + 1;
        assert(s@ =~= bytes@.take(k as int).map_values(|x: u8| printable_or_dot(x)));
    }
    assert(bytes@.take(bytes@.len() as int) =~= bytes@);
    s
}

impl Editor {
    /// Undoes (or, with `redo`, redoes) the last edit of document `ix`.
    fn history_doc(&mut self, ix: usize, redo: bool) -> (done: bool)
        requires
            old(self).wf(),
            ix < old(self).docs@.len(),
        ensures
            final(self).wf(),
            done == (if redo {
                old(self)@.docs[ix as int].model.redo.len() > 0
            } else {
                old(self)@.docs[ix as int].model.undo.len() > 0
            }),
            final(self)@ == with_model(old(self)@, ix as int, if redo {
                spec_redo(old(self)@.docs[ix as int].model)
            } else {
                spec_undo(old(self)@.docs[ix as int].model)
            }),
    {
        let ghost v = self@;
        proof {
            self.lemma_focused();
            assert(doc_ok(self.docs@[ix as int]));
        }
        let ghost m = self.docs@[ix as int].model();
        let done = if redo {
            self.docs[ix].redo()
        } else {
            self.docs[ix].undo()
        };
        proof {
            let d = self.docs@[ix as int];
            assert(self.docs@ =~= old(self).docs@.update(ix as int, d));
            let nm = d.model();
            assert(model_fits(nm)) by {
                if redo {
                    if m.redo.len() > 0 {
                        assert(nm.current == m.redo[m.redo.len() - 1]);
                        assert forall|j: int| 0 <= j < nm.undo.len() implies (#[trigger] nm.undo[j]).contents.len() < u64::MAX by {
                            if j < m.undo.len() {
                                assert(nm.undo[j] == m.undo[j]);
                            }
                        }
                        assert forall|j: int| 0 <= j < nm.redo.len() implies (#[trigger] nm.redo[j]).contents.len() < u64::MAX by {
                            assert(nm.redo[j] == m.redo[j]);
                        }
                    }
                } else {
                    if m.undo.len() > 0 {
                        assert(nm.current == m.undo[m.undo.len() - 1]);
                        assert forall|j: int| 0 <= j < nm.redo.len() implies (#[trigger] nm.redo[j]).contents.len() < u64::MAX by {
                            if j < m.redo.len() {
                                assert(nm.redo[j] == m.redo[j]);
                            }
                        }
                        assert forall|j: int| 0 <= j < nm.undo.len() implies (#[trigger] nm.undo[j]).contents.len() < u64::MAX by {
                            assert(nm.undo[j] == m.undo[j]);
                        }
                    }
                }
            }
            assert forall|i: int| 0 <= i < self.docs@.len() implies doc_ok(#[trigger] self.docs@[i]) by {
                if i != ix {
                    assert(self.docs@[i] == old(self).docs@[i]);
                }
            }
            assert(self@ =~= with_model(v, ix as int, nm));
        }
        done
    }

    fn history(&mut self, redo: bool)
        requires
            old(self).wf(),
        ensures
            final(self).wf(),
            final(self)@ == history_spec(old(self)@, redo),
    {
        let ghost v = self@;
        proof {
            self.lemma_focused();
        }
        if self.active_doc().is_none() {
            self.status = lit("アクティブなファイルがありません。");
            assert(self@ =~= history_spec(v, redo));
            return;
        }
        let ix = self.focused_active_ix();
        if self.history_doc(ix, redo) {
            self.clamp_cursor();
            self.selection = None;
            self.pending_hex = None;
            self.status = if redo {
                lit("やり直しました。")
            } else {
                lit("元に戻しました。")
            };
        } else {
            self.status = if redo {
                lit("やり直す操作はありません。")
            } else {
                lit("元に戻す操作はありません。")
            };
            proof {
                assert(spec_undo(focused_model(v)) == focused_model(v) || redo);
                assert(spec_redo(focused_model(v)) == focused_model(v) || !redo);
                assert(with_model(v, ix as int, focused_model(v)).docs =~= v.docs);
            }
        }
        assert(self@ =~= history_spec(v, redo));
    }

    /// Undoes the last edit of the focused document.
    pub fn undo(&mut self)
        requires
            old(self).wf(),
        ensures
            final(self).wf(),
            final(self)@ == history_spec(old(self)@, false),
    {
        self.history(false);
    }

    /// Redoes the last undone edit of the focused document.
    pub fn redo(&mut self)
        requires
            old(self).wf(),
        ensures
            final(self).wf(),
            final(self)@ == history_spec(old(self)@, true),
    {
        self.history(true);
    }
}

impl Editor {
    /// Writes one typed byte.
    fn write_byte(&mut self, byte: u8)
        requires
            old(self).wf(),
            has_active(old(self)@),
            active_len(old(self)@) + 1 < u64::MAX,
        ensures
            final(self).wf(),
            final(self)@ == write_byte_spec(old(self)@, byte),
    {
        let ghost v = self@;
        let mut bytes: Vec<u8> = Vec::new();
        bytes.push(byte);
        assert(bytes@ =~= seq![byte]);
        match self.apply_bytes(bytes) {
            Ok(_) => {
                let mut s = lit("0x");
                append_padded(&mut s, byte as u64, 16, 2);
                self.status = cat(s, " を書き込みました。");
            },
            Err(err) => {
                self.status = cat_string(lit("書き込みに失敗しました: "), err.message());
            },
        }
        assert(self@ =~= write_byte_spec(v, byte));
    }

    /// Takes a typed hex digit: the first of a pair waits, the second
    /// writes the byte.
    pub fn input_hex_nibble(&mut self, nibble: u8)
        requires
            old(self).wf(),
            nibble < 16,
            has_active(old(self)@) ==> active_len(old(self)@) + 1 < u64::MAX,
        ensures
            final(self).wf(),
            final(self)@ == input_nibble_spec(old(self)@, nibble),
    {
        let ghost v = self@;
        if self.active_doc().is_none() {
            return;
        }
        match self.pending_hex {
            Some(high) => {
                self.pending_hex = None;
                assert(self@ =~= (EditorView { pending_hex: None, ..v }));
                self.write_byte(high * 16 + nibble);
            },
            None => {
                self.pending_hex = Some(nibble);
                let mut s = lit("16進入力待機中: ");
                append_padded(&mut s, nibble as u64, 16, 0);
                self.status = cat(s, "_");
                assert(self@ =~= input_nibble_spec(v, nibble));
            },
        }
    }

    /// Deletes the selection, or else the byte under the cursor.
    pub fn delete_selection(&mut self)
        requires
            old(self).wf(),
        ensures
            final(self).wf(),
            final(self)@ == delete_spec(old(self)@),
    {
        let ghost v = self@;
        proof {
            self.lemma_focused();
        }
        if self.goto_open {
            self.status = lit("Goto入力中です。ファイルのバイトは削除しません。");
            assert(self@ =~= delete_spec(v));
            return;
        }
        let range = match self.selected_or_cursor_range() {
            Some(range) => range,
            None => {
                self.status = lit("削除するバイトがありません。");
                assert(self@ =~= delete_spec(v));
                return;
            },
        };
        if range.start == range.end {
            self.status = lit("カーソル位置にバイトがありません。");
            assert(self@ =~= delete_spec(v));
            return;
        }
        let ix = self.focused_active_ix();
        let empty: Vec<u8> = Vec::new();
        match self.edit_doc(ix, DocEdit::Replace(range.start, range.end), empty) {
            Ok(()) => {
                self.cursor = range.start;
                self.selection = None;
                self.clamp_cursor();
                self.status = lit("選択範囲を削除しました。");
            },
            Err(err) => {
                self.status = cat_string(lit("削除に失敗しました: "), err.message());
            },
        }
        assert(self@ =~= delete_spec(v));
    }

    /// The bytes a copy takes.
    fn copied(&self) -> (r: Option<Vec<u8>>)
        requires
            self.wf(),
        ensures
            match r {
                Some(b) => copied_bytes(self@) == Some(b@),
                None => copied_bytes(self@) is None,
            },
    {
        proof {
            self.lemma_focused();
        }
        let range = match self.selected_or_cursor_range() {
            Some(range) => range,
            None => return None,
        };
        match self.active_doc() {
            Some(doc) => Some(doc.read_range(range.start, (range.end - range.start) as usize)),
            None => None,
        }
    }

    /// Copies the selection (or the byte under the cursor) as hex; gives
    /// the clipboard text.
    pub fn copy_hex(&mut self) -> (clip: Option<String>)
        requires
            old(self).wf(),
        ensures
            final(self).wf(),
            clip_view(clip) == copy_hex_text(old(self)@),
            final(self)@ == copy_spec(old(self)@, "16進形式でコピーしました。"@),
    {
        let ghost v = self@;
        match self.copied() {
            None => None,
            Some(bytes) => {
                let text = hex_join_text(&bytes);
                self.status = lit("16進形式でコピーしました。");
                assert(self@ =~= copy_spec(v, "16進形式でコピーしました。"@));
                Some(text)
            },
        }
    }

    /// Copies the selection (or the byte under the cursor) as text; gives
    /// the clipboard text.
    pub fn copy_text(&mut self) -> (clip: Option<String>)
        requires
            old(self).wf(),
        ensures
            final(self).wf(),
            clip_view(clip) == copy_text_text(old(self)@),
            final(self)@ == copy_spec(old(self)@, "テキストプレビューをコピーしました。"@),
    {
        let ghost v = self@;
        match self.copied() {
            None => None,
            Some(bytes) => {
                let text = printable_text(&bytes);
                self.status = lit("テキストプレビューをコピーしました。");
                assert(self@ =~= copy_spec(v, "テキストプレビューをコピーしました。"@));
                Some(text)
            },
        }
    }

    /// Copies the selection as hex, then deletes it; gives the clipboard
    /// text.
    pub fn cut(&mut self) -> (clip: Option<String>)
        requires
            old(self).wf(),
        ensures
            final(self).wf(),
            clip_view(clip) == copy_hex_text(old(self)@),
            final(self)@ == cut_spec(old(self)@),
    {
        let ghost v = self@;
        let clip = self.copy_hex();
        self.delete_selection();
        self.status = lit("選択範囲を16進形式で切り取りました。");
        assert(self@ =~= cut_spec(v));
        clip
    }

    /// Pastes clipboard text `clipboard` as hex: into the input field being
    /// edited, or else as the bytes it spells.
    pub fn paste_hex(&mut self, clipboard: Option<String>)
        requires
            old(self).wf(),
            paste_hex_bytes(old(self)@, clip_view(clipboard)) matches Some(b) ==> has_active(old(self)@)
                && active_len(old(self)@) + b.len() < u64::MAX,
        ensures
            final(self).wf(),
            final(self)@ == paste_hex_spec(old(self)@, clip_view(clipboard)),
    {
        let ghost v = self@;
        if let Some(field) = self.active_text_field {
            if let Some(text) = clipboard {
                self.replace_text_selection(field, text.as_str());
            }
            return;
        }
        let text = match clipboard {
            Some(text) => text,
            None => {
                self.status = lit("クリップボードにテキストがありません。");
                assert(self@ =~= paste_hex_spec(v, None));
                return;
            },
        };
        let ghost t = text@;
        match parse_hex_bytes(text.as_str()) {
            Err(err) => {
                self.status = cat_string(lit("16進貼り付けに失敗しました: "), err.message());
            },
            Ok(bytes) => match self.apply_bytes(bytes) {
                Ok(count) => {
                    let s = cat_string(lit("16進形式から "), dec_text(count as u64));
                    self.status = cat(s, " バイト貼り付けました。");
                },
                Err(err) => {
                    self.status = cat_string(lit("16進貼り付けに失敗しました: "), err.message());
                },
            },
        }
        assert(self@ =~= paste_hex_spec(v, Some(t)));
    }

    /// Pastes clipboard text `clipboard` as its UTF-8 bytes.
    pub fn paste_text(&mut self, clipboard: Option<String>)
        requires
            old(self).wf(),
            clipboard matches Some(t) ==> has_active(old(self)@) && active_len(old(self)@) + encode_utf8(t@).len() < u64::MAX,
        ensures
            final(self).wf(),
            final(self)@ == paste_text_spec(old(self)@, clip_view(clipboard)),
    {
        let ghost v = self@;
        let text = match clipboard {
            Some(text) => text,
            None => {
                self.status = lit("クリップボードにテキストがありません。");
                assert(self@ =~= paste_text_spec(v, None));
                return;
            },
        };
        let ghost t = text@;
        let bytes = text.as_str().as_bytes_vec();
        let len = bytes.len();
        match self.apply_bytes(bytes) {
            Ok(_) => {
                self.status = cat(dec_text(len as u64), " バイトのテキストを貼り付けました。");
            },
            Err(err) => {
                self.status = cat_string(lit("テキスト貼り付けに失敗しました: "), err.message());
            },
        }
        assert(self@ =~= paste_text_spec(v, Some(t)));
    }

    /// Records how writing the focused document to `path` went.
    pub fn finish_save(&mut self, path: &str, result: Result<(), String>)
        requires
            old(self).wf(),
        ensures
            final(self).wf(),
            final(self)@ == finish_save_spec(old(self)@, path@, match result {
                Ok(_) => Ok::<(), Seq<char>>(()),
                Err(e) => Err(e@),
            }),
    {
        let ghost v = self@;
        proof {
            self.lemma_focused();
        }
        if self.active_doc().is_none() {
            self.status = lit("アクティブなファイルがありません。");
            assert(self@ =~= finish_save_spec(v, path@, match result {
                Ok(_) => Ok::<(), Seq<char>>(()),
                Err(e) => Err(e@),
            }));
            return;
        }
        match result {
            Ok(()) => {
                let ix = self.focused_active_ix();
                proof {
                    assert(doc_ok(self.docs@[ix as int]));
                }
                let ghost m = self.docs@[ix as int].model();
                self.docs[ix].mark_saved(path);
                proof {
                    let d = self.docs@[ix as int];
                    assert(self.docs@ =~= old(self).docs@.update(ix as int, d));
                    d.lemma_model_contents();
                    assert(model_fits(d.model()));
                    assert forall|i: int| 0 <= i < self.docs@.len() implies doc_ok(#[trigger] self.docs@[i]) by {
                        if i != ix {
                            assert(self.docs@[i] == old(self).docs@[i]);
                        }
                    }
                }
                self.status = lit("保存しました。");
                assert(self@ =~= finish_save_spec(v, path@, Ok(())));
            },
            Err(err) => {
                let ghost e = err@;
                self.status = cat_string(lit("保存に失敗しました: "), err);
                assert(self@ =~= finish_save_spec(v, path@, Err(e)));
            },
        }
    }
}

} // verus!
