//! Moving the cursor, selecting bytes, and the view settings.

use std::ops::Range;
use vstd::prelude::*;
use vstd::string::*;
use vstd::utf8::encode_utf8;

use crate::editor::{
    active_len, contents_of, focus_pane_spec, focused_ix, has_active, set_active_spec,
    row_width, set_cursor_spec, text_of, EditMode, Editor, EditorView, PaneSide, ROW_WIDTH_COUNT,
};
use crate::formats::{cat, cat_string, dec_text, lit};
use crate::inspector::spec_next;
use crate::numbers::Endianness;
use crate::pieces::{imax, imin};
use crate::selection::Selection;
use crate::text::{spec_decimal, spec_hex, upper_hex_string};

verus! {

/// The state after the cursor moved by `delta` bytes, kept between the start
/// and the end of the focused document.
pub open spec fn move_cursor_spec(v: EditorView, delta: int, extend: bool) -> EditorView {
    if !has_active(v) {
        v
    } else if active_len(v) == 0 {
        set_cursor_spec(v, 0, extend)
    } else {
        let next = if delta < 0 {
            imax(v.cursor + delta, 0)
        } else {
            imin(v.cursor + delta, active_len(v))
        };
        set_cursor_spec(v, next, extend)
    }
}

/// The length of a text in UTF-8 bytes.
pub open spec fn byte_len(s: Seq<char>) -> int {
    encode_utf8(s).len() as int
}

/// The state after "select all": the whole input field when one is being
/// edited, else every byte of the focused document.
pub open spec fn select_all_spec(v: EditorView) -> EditorView {
    match v.active_text_field {
        Some(f) => EditorView {
            text_selection: Some(Range { start: 0usize, end: byte_len(text_of(v, f)) as usize }),
            ..v
        },
        None => if has_active(v) && active_len(v) > 0 {
            EditorView {
                selection: Some(Selection { anchor: 0, cursor: (active_len(v) - 1) as u64 }),
                cursor: (active_len(v) - 1) as u64,
                status: spec_decimal(active_len(v) as nat) + " バイトを選択しました。"@,
                ..v
            }
        } else {
            v
        },
    }
}

/// The last byte of a field of `len` bytes at `offset`, kept inside a
/// document of `doc_len` bytes.
pub open spec fn field_end(offset: int, len: int, doc_len: int) -> int {
    imin(imin(offset + len, u64::MAX as int) - 1, doc_len - 1)
}

/// The state after a decoded field was clicked: its bytes are selected and
/// the cursor is on its first byte. A field outside the document, or an
/// empty one, changes nothing.
pub open spec fn select_format_field_spec(v: EditorView, offset: int, len: int) -> EditorView {
    let doc_len = active_len(v);
    if !has_active(v) || doc_len == 0 || len == 0 || offset >= doc_len {
        v
    } else {
        let end = field_end(offset, len, doc_len);
        EditorView {
            cursor: offset as u64,
            selection: Some(Selection { anchor: offset as u64, cursor: end as u64 }),
            pending_hex: None,
            status: "形式フィールド 0x"@ + spec_hex(offset as nat, 0) + "..0x"@ + spec_hex(
                end as nat,
                0,
            ) + " を選択しました。"@,
            ..v
        }
    }
}

/// The state after a press on byte `offset` of document `doc_ix` in pane
/// `side`: the pane takes the focus and shows the document, a drag starts,
/// and the cursor moves there (extending the selection with `extend`).
pub open spec fn begin_cell_selection_spec(
    v: EditorView,
    doc_ix: usize,
    side: PaneSide,
    offset: int,
    extend: bool,
) -> EditorView {
    let w = set_active_spec(focus_pane_spec(v, side), doc_ix);
    set_cursor_spec(EditorView { drag_anchor: Some(offset as u64), ..w }, offset, extend)
}

/// The state after the pointer dragged onto byte `offset`: during a drag the
/// selection reaches to it.
pub open spec fn drag_cell_selection_spec(v: EditorView, doc_ix: usize, side: PaneSide, offset: int) -> EditorView {
    if v.drag_anchor is None {
        v
    } else {
        set_cursor_spec(set_active_spec(focus_pane_spec(v, side), doc_ix), offset, true)
    }
}

pub open spec fn flip_endian(e: Endianness) -> Endianness {
    match e {
        Endianness::Little => Endianness::Big,
        Endianness::Big => Endianness::Little,
    }
}

pub open spec fn flip_mode(m: EditMode) -> EditMode {
    match m {
        EditMode::Insert => EditMode::Overwrite,
        EditMode::Overwrite => EditMode::Insert,
    }
}

/// Whether byte `offset` of document `doc_ix` differs from the same byte of
/// the document it is compared with; a byte the other document lacks
/// differs, and without a comparison nothing does.
pub open spec fn is_different_spec(v: EditorView, doc_ix: int, offset: int) -> bool {
    match v.compare_with {
        None => false,
        Some(c) => if !(0 <= doc_ix < v.docs.len()) || offset >= contents_of(v, doc_ix).len() {
            false
        } else if offset >= contents_of(v, c as int).len() {
            true
        } else {
            contents_of(v, c as int)[offset] != contents_of(v, doc_ix)[offset]
        },
    }
}

impl Editor {
    /// Where the hex view scrolls to bring the cursor into sight: the
    /// focused pane and the cursor's row there. The view centres that row
    /// after each action that moves the cursor to a target.
    pub fn scroll_to_cursor(&self) -> (target: (PaneSide, usize))
        requires
            self.wf(),
        ensures
            target.0 == self.focused_pane,
            target.1 == imin(self.cursor as int / row_width(self.bytes_per_row_ix as int), usize::MAX as int),
    {
        let per_row = self.bytes_per_row() as u64;
        let row = self.cursor / per_row;
        let row = if row > usize::MAX as u64 {
            usize::MAX
        } else {
            row as usize
        };
        (self.focused_pane, row)
    }

    /// Moves the cursor by `delta` bytes, kept inside the focused document;
    /// with `extend` the selection follows.
    pub fn move_cursor(&mut self, delta: i64, extend: bool)
        requires
            old(self).wf(),
        ensures
            final(self).wf(),
            final(self)@ == move_cursor_spec(old(self)@, delta as int, extend),
    {
        if self.active_doc().is_none() {
            return;
        }
        let len = self.active_len();
        if len == 0 {
            self.set_cursor(0, extend);
            return;
        }
        let next = if delta < 0 {
            let magnitude: u64 = ((-(delta + 1)) as u64) + 1;
            if self.cursor > magnitude {
                self.cursor - magnitude
            } else {
                0
            }
        } else {
            let d = delta as u64;
            if d > len || self.cursor > len - d {
                len
            } else {
                self.cursor + d
            }
        };
        self.set_cursor(next, extend);
    }

    /// One byte back.
    pub fn move_left(&mut self)
        requires
            old(self).wf(),
        ensures
            final(self).wf(),
            final(self)@ == move_cursor_spec(old(self)@, -1, false),
    {
        self.move_cursor(-1, false);
    }

    /// One byte on.
    pub fn move_right(&mut self)
        requires
            old(self).wf(),
        ensures
            final(self).wf(),
            final(self)@ == move_cursor_spec(old(self)@, 1, false),
    {
        self.move_cursor(1, false);
    }

    /// One row up.
    pub fn move_up(&mut self)
        requires
            old(self).wf(),
        ensures
            final(self).wf(),
            final(self)@ == move_cursor_spec(old(self)@, -crate::editor::row_width(old(self).bytes_per_row_ix as int), false),
    {
        let width = self.bytes_per_row() as i64;
        self.move_cursor(-width, false);
    }

    /// One row down.
    pub fn move_down(&mut self)
        requires
            old(self).wf(),
        ensures
            final(self).wf(),
            final(self)@ == move_cursor_spec(old(self)@, crate::editor::row_width(old(self).bytes_per_row_ix as int), false),
    {
        let width = self.bytes_per_row() as i64;
        self.move_cursor(width, false);
    }

    /// Extends the selection one byte back.
    pub fn select_left(&mut self)
        requires
            old(self).wf(),
        ensures
            final(self).wf(),
            final(self)@ == move_cursor_spec(old(self)@, -1, true),
    {
        self.move_cursor(-1, true);
    }

    /// Extends the selection one byte on.
    pub fn select_right(&mut self)
        requires
            old(self).wf(),
        ensures
            final(self).wf(),
            final(self)@ == move_cursor_spec(old(self)@, 1, true),
    {
        self.move_cursor(1, true);
    }

    /// Selects the whole input field being edited, or else every byte of
    /// the focused document.
    pub fn select_all(&mut self)
        requires
            old(self).wf(),
        ensures
            final(self).wf(),
            final(self)@ == select_all_spec(old(self)@),
    {
        match self.active_text_field {
            Some(field) => {
                let t = self.text_value(field);
                let n = t.as_bytes().len();
                proof {
                    let b = encode_utf8(text_of(old(self)@, field));
                    assert(n == b.len());
                    vstd::utf8::encode_utf8_valid_utf8(text_of(old(self)@, field));
                    vstd::utf8::is_char_boundary_start_end_of_seq(b);
                    assert(crate::editor::text_range_ok(text_of(old(self)@, field), 0..n));
                }
                self.text_selection = Some(0..n);
                assert(self@ =~= select_all_spec(old(self)@));
            },
            None => {
                if self.active_doc().is_none() {
                    return;
                }
                let len = self.active_len();
                if len > 0 {
                    proof {
                        self.lemma_focused();
                    }
                    self.selection = Some(Selection::new(0, len - 1));
                    self.cursor = len - 1;
                    self.status = cat(dec_text(len), " バイトを選択しました。");
                }
                assert(self@ =~= select_all_spec(old(self)@));
            },
        }
    }

    /// Selects the bytes of a decoded field and puts the cursor on its first
    /// byte.
    pub fn select_format_field(&mut self, offset: u64, len: u64)
        requires
            old(self).wf(),
        ensures
            final(self).wf(),
            final(self)@ == select_format_field_spec(old(self)@, offset as int, len as int),
    {
        if self.active_doc().is_none() {
            return;
        }
        let doc_len = self.active_len();
        if doc_len == 0 || len == 0 || offset >= doc_len {
            return;
        }
        proof {
            self.lemma_focused();
        }
        let reach = if offset > u64::MAX - len {
            u64::MAX
        } else {
            offset + len
        };
        let end = if reach - 1 < doc_len - 1 {
            reach - 1
        } else {
            doc_len - 1
        };
        self.cursor = offset;
        self.selection = Some(Selection::new(offset, end));
        self.pending_hex = None;
        let s = cat_string(lit("形式フィールド 0x"), upper_hex_string(offset));
        let s = cat(s, "..0x");
        let s = cat_string(s, upper_hex_string(end));
        self.status = cat(s, " を選択しました。");
        assert(self@ =~= select_format_field_spec(old(self)@, offset as int, len as int));
    }

    /// A press on byte `offset` of document `doc_ix` in pane `side`.
    pub fn begin_cell_selection(&mut self, doc_ix: usize, side: PaneSide, offset: u64, extend: bool)
        requires
            old(self).wf(),
            doc_ix < old(self).docs@.len(),
        ensures
            final(self).wf(),
            final(self)@ == begin_cell_selection_spec(old(self)@, doc_ix, side, offset as int, extend),
    {
        self.focus_pane(side);
        self.set_active_for_focused_pane(doc_ix);
        let ghost w = self@;
        self.drag_anchor = Some(offset);
        assert(self@ =~= (EditorView { drag_anchor: Some(offset), ..w }));
        self.set_cursor(offset, extend);
    }

    /// The pointer dragged onto byte `offset` of document `doc_ix` in pane
    /// `side`.
    pub fn drag_cell_selection(&mut self, doc_ix: usize, side: PaneSide, offset: u64)
        requires
            old(self).wf(),
            doc_ix < old(self).docs@.len(),
        ensures
            final(self).wf(),
            final(self)@ == drag_cell_selection_spec(old(self)@, doc_ix, side, offset as int),
    {
        if self.drag_anchor.is_none() {
            return;
        }
        self.focus_pane(side);
        self.set_active_for_focused_pane(doc_ix);
        self.set_cursor(offset, true);
    }

    /// The pointer was released: the drag ends.
    pub fn finish_cell_selection(&mut self)
        requires
            old(self).wf(),
        ensures
            final(self).wf(),
            final(self)@ == (EditorView { drag_anchor: None, ..old(self)@ }),
    {
        self.drag_anchor = None;
        assert(self@ =~= (EditorView { drag_anchor: None, ..old(self)@ }));
    }

    /// Switches the byte order of the inspector.
    pub fn toggle_endian(&mut self)
        requires
            old(self).wf(),
        ensures
            final(self).wf(),
            final(self)@ == (EditorView { endian: flip_endian(old(self)@.endian), ..old(self)@ }),
    {
        self.endian = match self.endian {
            Endianness::Little => Endianness::Big,
            Endianness::Big => Endianness::Little,
        };
        assert(self@ =~= (EditorView { endian: flip_endian(old(self)@.endian), ..old(self)@ }));
    }

    /// Moves the text preview to the next encoding.
    pub fn next_encoding(&mut self)
        requires
            old(self).wf(),
        ensures
            final(self).wf(),
            final(self)@ == (EditorView { encoding: spec_next(old(self)@.encoding), ..old(self)@ }),
    {
        self.encoding = self.encoding.next();
        assert(self@ =~= (EditorView { encoding: spec_next(old(self)@.encoding), ..old(self)@ }));
    }

    /// Moves the hex view to the next row width, after the widest the
    /// narrowest.
    pub fn next_row_width(&mut self)
        requires
            old(self).wf(),
        ensures
            final(self).wf(),
            final(self)@ == (EditorView {
                bytes_per_row_ix: ((old(self).bytes_per_row_ix + 1) % 4) as usize,
                ..old(self)@
            }),
    {
        self.bytes_per_row_ix = (self.bytes_per_row_ix + 1) % ROW_WIDTH_COUNT;
        assert(self@ =~= (EditorView {
            bytes_per_row_ix: ((old(self).bytes_per_row_ix + 1) % 4) as usize,
            ..old(self)@
        }));
    }

    /// Switches between inserting and overwriting; a half typed hex byte is
    /// dropped.
    pub fn toggle_insert_mode(&mut self)
        requires
            old(self).wf(),
        ensures
            final(self).wf(),
            final(self)@ == (EditorView {
                edit_mode: flip_mode(old(self)@.edit_mode),
                pending_hex: None,
                ..old(self)@
            }),
    {
        self.edit_mode = match self.edit_mode {
            EditMode::Insert => EditMode::Overwrite,
            EditMode::Overwrite => EditMode::Insert,
        };
        self.pending_hex = None;
        assert(self@ =~= (EditorView {
            edit_mode: flip_mode(old(self)@.edit_mode),
            pending_hex: None,
            ..old(self)@
        }));
    }

    /// Whether byte `offset` of document `doc_ix` differs from the document
    /// it is compared with.
    pub fn is_different_for(&self, doc_ix: usize, offset: u64) -> (b: bool)
        requires
            self.wf(),
        ensures
            b == is_different_spec(self@, doc_ix as int, offset as int),
    {
        proof {
            self.lemma_focused();
        }
        let compare_ix = match self.compare_with {
            Some(ix) => ix,
            None => return false,
        };
        if doc_ix >= self.docs.len() {
            return false;
        }
        proof {
            self.docs@[doc_ix as int].lemma_model_contents();
            self.docs@[compare_ix as int].lemma_model_contents();
        }
        let left = match self.docs[doc_ix].byte_at(offset) {
            Some(b) => b,
            None => return false,
        };
        match self.docs[compare_ix].byte_at(offset) {
            Some(right) => right != left,
            None => true,
        }
    }

    /// Whether byte `offset` of the focused document differs from the
    /// document it is compared with.
    pub fn is_different(&self, offset: u64) -> (b: bool)
        requires
            self.wf(),
        ensures
            b == is_different_spec(self@, focused_ix(self@), offset as int),
    {
        self.is_different_for(self.focused_active_ix(), offset)
    }
}

} // verus!
