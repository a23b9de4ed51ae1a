//! The editor around the documents: the open files, the file each pane
//! shows, cursor and selection, the input fields and the status line.
//!
//! Every user action is a method that takes the editor from one state to the
//! next. Its contract gives the next state as a spec function of the state
//! before, over `EditorView`. What an action needs from outside (clipboard
//! text, opened files) comes in as an argument, and what it hands out
//! (clipboard text) comes back as its result.

use std::ops::Range;
use vstd::prelude::*;
use vstd::string::*;
use vstd::utf8::{encode_utf8, is_char_boundary};

use crate::document::{ByteDocument, DocModel};
use crate::inspector::PreviewEncoding;
use crate::numbers::Endianness;
use crate::pieces::{imax, imin};
use crate::selection::Selection;

verus! {

/// Whether typed bytes go in before the cursor or over the bytes there.
#[derive(Clone, Copy, Debug, PartialEq, Eq, Structural)]
pub enum EditMode {
    Insert,
    Overwrite,
}

impl EditMode {
    /// The name shown for the mode.
    pub fn label(self) -> (s: &'static str)
        ensures
            s@ == (match self {
                EditMode::Insert => "Insert"@,
                EditMode::Overwrite => "Overwrite"@,
            }),
    {
        match self {
            EditMode::Insert => "Insert",
            EditMode::Overwrite => "Overwrite",
        }
    }
}

/// One of the two panes of the split view.
#[derive(Clone, Copy, Debug, PartialEq, Eq, Structural)]
pub enum PaneSide {
    Left,
    Right,
}

pub open spec fn ja_side_label(side: PaneSide) -> Seq<char> {
    match side {
        PaneSide::Left => "左"@,
        PaneSide::Right => "右"@,
    }
}

impl PaneSide {
    /// The name shown for the pane.
    pub fn label(self) -> (s: &'static str)
        ensures
            s@ == (match self {
                PaneSide::Left => "Left"@,
                PaneSide::Right => "Right"@,
            }),
    {
        match self {
            PaneSide::Left => "Left",
            PaneSide::Right => "Right",
        }
    }

    /// The Japanese name shown for the pane.
    pub fn ja_label(self) -> (s: &'static str)
        ensures
            s@ == ja_side_label(self),
    {
        match self {
            PaneSide::Left => "左",
            PaneSide::Right => "右",
        }
    }
}

/// The text input fields.
#[derive(Clone, Copy, Debug, PartialEq, Eq, Structural)]
pub enum TextField {
    Goto,
    Find,
    Replace,
}

/// Row widths the hex view cycles through.
pub open spec fn row_width(ix: int) -> int {
    if ix == 0 {
        8
    } else if ix == 1 {
        16
    } else if ix == 2 {
        24
    } else {
        32
    }
}

/// The number of row widths.
pub const ROW_WIDTH_COUNT: usize = 4;

/// A document as plain values: its contents with their history, and its path.
pub struct DocView {
    pub model: DocModel,
    pub path: Option<Seq<char>>,
}

pub open spec fn doc_view(d: ByteDocument) -> DocView {
    DocView { model: d.model(), path: d.path_spec() }
}

/// The editor as plain values.
#[verifier::ext_equal]
pub struct EditorView {
    pub docs: Seq<DocView>,
    pub active: usize,
    pub compare_with: Option<usize>,
    pub split: bool,
    pub focused_pane: PaneSide,
    pub right_active: Option<usize>,
    pub cursor: u64,
    pub selection: Option<Selection>,
    pub bytes_per_row_ix: usize,
    pub endian: Endianness,
    pub encoding: PreviewEncoding,
    pub edit_mode: EditMode,
    pub pending_hex: Option<u8>,
    pub drag_anchor: Option<u64>,
    pub goto_open: bool,
    pub goto_input: Seq<char>,
    pub replace_open: bool,
    pub find_input: Seq<char>,
    pub replace_input: Seq<char>,
    pub active_text_field: Option<TextField>,
    pub text_selection: Option<Range<usize>>,
    pub status: Seq<char>,
}

/// The editor's state.
pub struct Editor {
    pub docs: Vec<ByteDocument>,
    pub active: usize,
    pub compare_with: Option<usize>,
    pub split: bool,
    pub focused_pane: PaneSide,
    pub right_active: Option<usize>,
    pub cursor: u64,
    pub selection: Option<Selection>,
    pub bytes_per_row_ix: usize,
    pub endian: Endianness,
    pub encoding: PreviewEncoding,
    pub edit_mode: EditMode,
    pub pending_hex: Option<u8>,
    pub drag_anchor: Option<u64>,
    pub goto_open: bool,
    pub goto_input: String,
    pub replace_open: bool,
    pub find_input: String,
    pub replace_input: String,
    pub active_text_field: Option<TextField>,
    pub text_selection: Option<Range<usize>>,
    pub status: String,
}

impl View for Editor {
    type V = EditorView;

    open spec fn view(&self) -> EditorView {
        EditorView {
            docs: self.docs@.map_values(|d: ByteDocument| doc_view(d)),
            active: self.active,
            compare_with: self.compare_with,
            split: self.split,
            focused_pane: self.focused_pane,
            right_active: self.right_active,
            cursor: self.cursor,
            selection: self.selection,
            bytes_per_row_ix: self.bytes_per_row_ix,
            endian: self.endian,
            encoding: self.encoding,
            edit_mode: self.edit_mode,
            pending_hex: self.pending_hex,
            drag_anchor: self.drag_anchor,
            goto_open: self.goto_open,
            goto_input: self.goto_input@,
            replace_open: self.replace_open,
            find_input: self.find_input@,
            replace_input: self.replace_input@,
            active_text_field: self.active_text_field,
            text_selection: self.text_selection,
            status: self.status@,
        }
    }
}

/// The contents of document `i`.
pub open spec fn contents_of(v: EditorView, i: int) -> Seq<u8> {
    v.docs[i].model.current.contents
}

/// The document the focused pane shows: the right pane's own when the view
/// is split and the right pane has one, else the left pane's.
pub open spec fn focused_ix(v: EditorView) -> int {
    if v.split && v.focused_pane == PaneSide::Right {
        match v.right_active {
            Some(i) => i as int,
            None => v.active as int,
        }
    } else {
        v.active as int
    }
}

/// Whether the focused pane shows a document.
pub open spec fn has_active(v: EditorView) -> bool {
    focused_ix(v) < v.docs.len()
}

/// The focused document's length, 0 without one.
pub open spec fn active_len(v: EditorView) -> int {
    if has_active(v) {
        contents_of(v, focused_ix(v)).len() as int
    } else {
        0
    }
}

/// The text in an input field.
pub open spec fn text_of(v: EditorView, f: TextField) -> Seq<char> {
    match f {
        TextField::Goto => v.goto_input,
        TextField::Find => v.find_input,
        TextField::Replace => v.replace_input,
    }
}

/// Both ends of a byte range, each cut to the end of the text, fall between
/// characters of the text's UTF-8 bytes.
pub open spec fn text_range_ok(t: Seq<char>, r: Range<usize>) -> bool {
    let b = encode_utf8(t);
    &&& is_char_boundary(b, imin(r.start as int, b.len() as int))
    &&& is_char_boundary(b, imin(r.end as int, b.len() as int))
}

/// The selection as a half-open range cut to the focused document, if it
/// covers a byte.
pub open spec fn sel_range(v: EditorView) -> Option<(int, int)> {
    match v.selection {
        None => None,
        Some(s) => {
            let len = active_len(v);
            let a = imin(imin(s.anchor as int, s.cursor as int), len);
            let b = imin(imax(s.anchor as int, s.cursor as int) + 1, len);
            if a < b {
                Some((a, b))
            } else {
                None
            }
        },
    }
}

/// The selection, else the byte under the cursor, else the empty range at
/// the end; none without a focused document.
pub open spec fn sel_or_cursor(v: EditorView) -> Option<(int, int)> {
    match sel_range(v) {
        Some(r) => Some(r),
        None => if !has_active(v) {
            None
        } else if v.cursor < active_len(v) {
            Some((v.cursor as int, v.cursor + 1))
        } else {
            Some((active_len(v), active_len(v)))
        },
    }
}

/// The state after the cursor moved to `offset`, kept inside the focused
/// document; with `extend` the selection runs from its anchor (or the old
/// cursor) to the new cursor, else there is none.
pub open spec fn set_cursor_spec(v: EditorView, offset: int, extend: bool) -> EditorView {
    let o = imin(offset, active_len(v));
    EditorView {
        selection: if extend {
            Some(
                Selection {
                    anchor: match v.selection {
                        Some(s) => s.anchor,
                        None => v.cursor,
                    },
                    cursor: o as u64,
                },
            )
        } else {
            None
        },
        cursor: o as u64,
        pending_hex: None,
        ..v
    }
}

/// The state after a pane took the focus; the right pane only in a split
/// view.
pub open spec fn focus_pane_spec(v: EditorView, side: PaneSide) -> EditorView {
    if side == PaneSide::Right && !v.split {
        v
    } else {
        EditorView { focused_pane: side, pending_hex: None, ..v }
    }
}

/// The state after the focused pane switched to document `ix`.
pub open spec fn set_active_spec(v: EditorView, ix: usize) -> EditorView {
    if v.split && v.focused_pane == PaneSide::Right {
        EditorView { right_active: Some(ix), ..v }
    } else {
        EditorView { active: ix, ..v }
    }
}

/// Every state of a document's history is shorter than the largest `u64`,
/// so that an offset one past its end still fits.
pub open spec fn model_fits(m: DocModel) -> bool {
    &&& m.current.contents.len() < u64::MAX
    &&& forall|j: int| 0 <= j < m.undo.len() ==> (#[trigger] m.undo[j]).contents.len() < u64::MAX
    &&& forall|j: int| 0 <= j < m.redo.len() ==> (#[trigger] m.redo[j]).contents.len() < u64::MAX
}

/// A document the editor can hold: well formed, with a history that fits.
pub open spec fn doc_ok(d: ByteDocument) -> bool {
    d.wf() && model_fits(d.model())
}

impl Editor {
    /// The editor's fields agree with each other and with its documents.
    pub open spec fn wf(&self) -> bool {
        &&& forall|i: int| 0 <= i < self.docs@.len() ==> doc_ok(#[trigger] self.docs@[i])
        &&& self.active == 0 || self.active < self.docs@.len()
        &&& self.right_active matches Some(i) ==> i < self.docs@.len()
        &&& self.compare_with matches Some(i) ==> i < self.docs@.len()
        &&& self.bytes_per_row_ix < ROW_WIDTH_COUNT
        &&& self.cursor < u64::MAX
        &&& self.selection matches Some(s) ==> s.anchor < u64::MAX && s.cursor < u64::MAX
        &&& self.pending_hex matches Some(n) ==> n < 16
        &&& self.text_selection matches Some(r) ==> (self.active_text_field matches Some(f)
            && text_range_ok(text_of(self@, f), r))
    }

    /// `focused_ix` of a well-formed editor names a document, if there is any.
    pub proof fn lemma_focused(&self)
        requires
            self.wf(),
        ensures
            self@.docs.len() == self.docs@.len(),
            forall|i: int| 0 <= i < self.docs@.len() ==> #[trigger] self@.docs[i] == doc_view(self.docs@[i]),
            self.docs@.len() > 0 ==> has_active(self@),
            has_active(self@) ==> self.docs@[focused_ix(self@)].wf(),
            has_active(self@) ==> model_fits(self@.docs[focused_ix(self@)].model),
            has_active(self@) ==> contents_of(self@, focused_ix(self@)) == self.docs@[focused_ix(self@)]@,
            active_len(self@) < u64::MAX,
    {
        if has_active(self@) {
            let i = focused_ix(self@);
            assert(doc_ok(self.docs@[i]));
            assert(self@.docs[i] == doc_view(self.docs@[i]));
            self.docs@[i].lemma_model_contents();
        }
    }

    fn start(docs: Vec<ByteDocument>, status: &str) -> (e: Self)
        requires
            forall|i: int| 0 <= i < docs@.len() ==> doc_ok(#[trigger] docs@[i]),
        ensures
            e.wf(),
            e@ == initial_view(docs@.map_values(|d: ByteDocument| doc_view(d)), status@),
    {
        let e = Editor {
            docs,
            active: 0,
            compare_with: None,
            split: false,
            focused_pane: PaneSide::Left,
            right_active: None,
            cursor: 0,
            selection: None,
            bytes_per_row_ix: 1,
            endian: Endianness::Little,
            encoding: PreviewEncoding::Utf8,
            edit_mode: EditMode::Overwrite,
            pending_hex: None,
            drag_anchor: None,
            goto_open: false,
            goto_input: String::new(),
            replace_open: false,
            find_input: String::new(),
            replace_input: String::new(),
            active_text_field: None,
            text_selection: None,
            status: String::from_str(status),
        };
        assert(e@ =~= initial_view(docs@.map_values(|d: ByteDocument| doc_view(d)), status@));
        e
    }

    /// An editor over the files opened at start-up, asking for a file.
    pub fn new(docs: Vec<ByteDocument>) -> (e: Self)
        requires
            forall|i: int| 0 <= i < docs@.len() ==> doc_ok(#[trigger] docs@[i]),
        ensures
            e.wf(),
            e@ == initial_view(docs@.map_values(|d: ByteDocument| doc_view(d)), "ファイルを開いて開始してください。"@),
    {
        Self::start(docs, "ファイルを開いて開始してください。")
    }

    /// An editor over `docs`, ready.
    pub fn with_documents(docs: Vec<ByteDocument>) -> (e: Self)
        requires
            forall|i: int| 0 <= i < docs@.len() ==> doc_ok(#[trigger] docs@[i]),
        ensures
            e.wf(),
            e@ == initial_view(docs@.map_values(|d: ByteDocument| doc_view(d)), "準備完了。"@),
    {
        Self::start(docs, "準備完了。")
    }

    /// Bytes per row of the hex view.
    pub fn bytes_per_row(&self) -> (n: usize)
        requires
            self.wf(),
        ensures
            n == row_width(self.bytes_per_row_ix as int),
    {
        match self.bytes_per_row_ix {
            0 => 8,
            1 => 16,
            2 => 24,
            _ => 32,
        }
    }

    /// The text in an input field.
    pub fn text_value(&self, field: TextField) -> (s: &str)
        ensures
            s@ == text_of(self@, field),
    {
        match field {
            TextField::Goto => self.goto_input.as_str(),
            TextField::Find => self.find_input.as_str(),
            TextField::Replace => self.replace_input.as_str(),
        }
    }

    /// The index of the document the focused pane shows.
    pub fn focused_active_ix(&self) -> (ix: usize)
        ensures
            ix == focused_ix(self@),
    {
        if self.split && self.focused_pane == PaneSide::Right {
            match self.right_active {
                Some(ix) => ix,
                None => self.active,
            }
        } else {
            self.active
        }
    }

    /// The document the focused pane shows, if any.
    pub fn active_doc(&self) -> (d: Option<&ByteDocument>)
        requires
            self.wf(),
        ensures
            d is Some <==> has_active(self@),
            d matches Some(doc) ==> *doc == self.docs@[focused_ix(self@)] && doc.wf(),
    {
        let ix = self.focused_active_ix();
        if ix < self.docs.len() {
            Some(&self.docs[ix])
        } else {
            None
        }
    }

    /// The length of the focused document, 0 without one.
    pub fn active_len(&self) -> (n: u64)
        requires
            self.wf(),
        ensures
            n == active_len(self@),
    {
        proof {
            self.lemma_focused();
        }
        match self.active_doc() {
            Some(doc) => doc.len(),
            None => 0,
        }
    }

    /// The document a pane shows: the left pane the active one, the right
    /// pane (in a split view) its own or else the active one; none without
    /// documents.
    pub fn active_ix_for(&self, side: PaneSide) -> (r: Option<usize>)
        ensures
            r == active_ix_for_spec(self@, side),
    {
        match side {
            PaneSide::Left => if self.docs.len() > 0 {
                Some(self.active)
            } else {
                None
            },
            PaneSide::Right => {
                if self.split {
                    match self.right_active {
                        Some(ix) => Some(ix),
                        None => if self.docs.len() > 0 {
                            Some(self.active)
                        } else {
                            None
                        },
                    }
                } else {
                    None
                }
            },
        }
    }

    /// The document a pane's tab bar marks, the active one when the pane
    /// shows none.
    pub fn selected_ix_for(&self, side: PaneSide) -> (ix: usize)
        ensures
            ix == (match active_ix_for_spec(self@, side) {
                Some(i) => i,
                None => self.active,
            }),
    {
        match self.active_ix_for(side) {
            Some(ix) => ix,
            None => self.active,
        }
    }

    /// Gives a pane the focus; the right pane only in a split view. A half
    /// typed hex byte is dropped.
    pub fn focus_pane(&mut self, side: PaneSide)
        requires
            old(self).wf(),
        ensures
            final(self).wf(),
            final(self)@ == focus_pane_spec(old(self)@, side),
    {
        if side == PaneSide::Right && !self.split {
            return;
        }
        self.focused_pane = side;
        self.pending_hex = None;
        assert(self@ =~= focus_pane_spec(old(self)@, side));
    }

    /// Shows document `ix` in the focused pane.
    pub fn set_active_for_focused_pane(&mut self, ix: usize)
        requires
            old(self).wf(),
            ix < old(self).docs@.len(),
        ensures
            final(self).wf(),
            final(self)@ == set_active_spec(old(self)@, ix),
    {
        if self.split && self.focused_pane == PaneSide::Right {
            self.right_active = Some(ix);
        } else {
            self.active = ix;
        }
        assert(self@ =~= set_active_spec(old(self)@, ix));
    }

    /// The number of rows the hex view of document `doc_ix` has: one more
    /// than its full rows, at least 1.
    pub fn row_count_for(&self, doc_ix: usize) -> (n: usize)
        requires
            self.wf(),
        ensures
            n == (if doc_ix < self.docs@.len() {
                imin((contents_of(self@, doc_ix as int).len() as int) / row_width(self.bytes_per_row_ix as int) + 1, usize::MAX as int)
            } else {
                1
            }),
    {
        let width = self.bytes_per_row() as u64;
        if doc_ix < self.docs.len() {
            proof {
                self.lemma_focused();
                self.docs@[doc_ix as int].lemma_model_contents();
            }
            let rows = self.docs[doc_ix].len() / width + 1;
            if rows > usize::MAX as u64 {
                usize::MAX
            } else {
                rows as usize
            }
        } else {
            1
        }
    }

    /// Keeps the cursor inside the focused document.
    pub fn clamp_cursor(&mut self)
        requires
            old(self).wf(),
        ensures
            final(self).wf(),
            final(self)@ == (EditorView { cursor: imin(old(self).cursor as int, active_len(old(self)@)) as u64, ..old(self)@ }),
    {
        let len = self.active_len();
        if self.cursor > len {
            self.cursor = len;
        }
        assert(self@ =~= (EditorView { cursor: imin(old(self).cursor as int, active_len(old(self)@)) as u64, ..old(self)@ }));
    }

    /// Moves the cursor to `offset`, kept inside the focused document; with
    /// `extend` the selection reaches to it, else it is dropped.
    pub fn set_cursor(&mut self, offset: u64, extend: bool)
        requires
            old(self).wf(),
        ensures
            final(self).wf(),
            final(self)@ == set_cursor_spec(old(self)@, offset as int, extend),
    {
        proof {
            self.lemma_focused();
        }
        let len = self.active_len();
        let offset = if offset < len {
            offset
        } else {
            len
        };
        if extend {
            let anchor = match &self.selection {
                Some(selection) => selection.anchor,
                None => self.cursor,
            };
            self.selection = Some(Selection::new(anchor, offset));
        } else {
            self.selection = None;
        }
        self.cursor = offset;
        self.pending_hex = None;
        assert(self@ =~= set_cursor_spec(old(self)@, offset as int, extend));
    }

    /// The selection cut to the focused document, if it covers a byte.
    pub fn selection_range(&self) -> (r: Option<Range<u64>>)
        requires
            self.wf(),
        ensures
            match r {
                Some(range) => sel_range(self@) == Some((range.start as int, range.end as int)),
                None => sel_range(self@) is None,
            },
    {
        let len = self.active_len();
        match &self.selection {
            None => None,
            Some(selection) => {
                let range = selection.normalized();
                let start = if range.start < len {
                    range.start
                } else {
                    len
                };
                let end = if range.end < len {
                    range.end
                } else {
                    len
                };
                if start < end {
                    Some(start..end)
                } else {
                    None
                }
            },
        }
    }

    /// The selection, else the byte under the cursor, else the empty range at
    /// the end of the focused document.
    pub fn selected_or_cursor_range(&self) -> (r: Option<Range<u64>>)
        requires
            self.wf(),
        ensures
            match r {
                Some(range) => sel_or_cursor(self@) == Some((range.start as int, range.end as int)),
                None => sel_or_cursor(self@) is None,
            },
    {
        match self.selection_range() {
            Some(range) => Some(range),
            None => {
                if self.active_doc().is_some() {
                    let len = self.active_len();
                    if self.cursor < len {
                        Some(self.cursor..self.cursor + 1)
                    } else {
                        Some(len..len)
                    }
                } else {
                    None
                }
            },
        }
    }

    /// Where the column ruler marks: the selection's start, else the cursor
    /// inside the focused document.
    pub fn selection_anchor_offset(&self) -> (r: Option<u64>)
        requires
            self.wf(),
        ensures
            r == (match sel_range(self@) {
                Some((a, b)) => Some(a as u64),
                None => if has_active(self@) {
                    Some(imin(self.cursor as int, active_len(self@)) as u64)
                } else {
                    None
                },
            }),
    {
        match self.selection_range() {
            Some(range) => Some(range.start),
            None => {
                if self.active_doc().is_some() {
                    let len = self.active_len();
                    if self.cursor < len {
                        Some(self.cursor)
                    } else {
                        Some(len)
                    }
                } else {
                    None
                }
            },
        }
    }
}

/// The document a pane shows, as `active_ix_for` finds it.
pub open spec fn active_ix_for_spec(v: EditorView, side: PaneSide) -> Option<usize> {
    match side {
        PaneSide::Left => if v.docs.len() > 0 {
            Some(v.active)
        } else {
            None
        },
        PaneSide::Right => if v.split {
            match v.right_active {
                Some(ix) => Some(ix),
                None => if v.docs.len() > 0 {
                    Some(v.active)
                } else {
                    None
                },
            }
        } else {
            None
        },
    }
}

/// A fresh editor over `docs` with `status`.
pub open spec fn initial_view(docs: Seq<DocView>, status: Seq<char>) -> EditorView {
    EditorView {
        docs,
        active: 0,
        compare_with: None,
        split: false,
        focused_pane: PaneSide::Left,
        right_active: None,
        cursor: 0,
        selection: None,
        bytes_per_row_ix: 1,
        endian: Endianness::Little,
        encoding: PreviewEncoding::Utf8,
        edit_mode: EditMode::Overwrite,
        pending_hex: None,
        drag_anchor: None,
        goto_open: false,
        goto_input: Seq::empty(),
        replace_open: false,
        find_input: Seq::empty(),
        replace_input: Seq::empty(),
        active_text_field: None,
        text_selection: None,
        status,
    }
}

} // verus!
