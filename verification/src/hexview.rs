//! What the hex view shows: for each row its address and, for each byte, the
//! hex label, the ASCII character and how the cell is marked; and the column
//! ruler above the rows.

use vstd::prelude::*;
use vstd::string::*;

use crate::editor::{
    active_len, contents_of, has_active, row_width, sel_range, EditMode, Editor, EditorView,
    PaneSide,
};
use crate::formats::lit;
use crate::inspector::{printable_char, printable_or_dot};
use crate::navigation::is_different_spec;
use crate::pieces::imin;
use crate::text::{append_padded, spec_hex};

verus! {

/// How a cell is marked, from the strongest mark down.
#[derive(Clone, Copy, Debug, PartialEq, Eq, Structural)]
pub enum CellLook {
    /// Inside the selection.
    Selected,
    /// Under the cursor in insert mode.
    InsertCursor,
    /// Under the cursor in overwrite mode.
    Cursor,
    /// Differs from the compared document.
    Different,
    /// A byte of the document.
    Present,
    /// One past the end, where typing appends.
    InsertionPoint,
    /// Further past the end.
    Past,
}

/// One byte position of a row.
pub struct HexCell {
    pub offset: u64,
    pub label: String,
    pub ascii: char,
    pub look: CellLook,
    pub ascii_look: CellLook,
}

/// One row of the hex view.
pub struct HexRow {
    pub offset: u64,
    pub address: String,
    pub address_active: bool,
    pub cells: Vec<HexCell>,
}

/// A cell as plain values: offset, hex label, ASCII character and marks.
pub struct CellView {
    pub offset: int,
    pub label: Seq<char>,
    pub ascii: char,
    pub look: CellLook,
    pub ascii_look: CellLook,
}

pub open spec fn cell_view(c: HexCell) -> CellView {
    CellView { offset: c.offset as int, label: c.label@, ascii: c.ascii, look: c.look, ascii_look: c.ascii_look }
}

/// The length of document `doc_ix`, 0 when there is none.
pub open spec fn doc_len_of(v: EditorView, doc_ix: int) -> int {
    if 0 <= doc_ix < v.docs.len() {
        contents_of(v, doc_ix).len() as int
    } else {
        0
    }
}

/// Whether byte `offset` is inside the selection.
pub open spec fn in_selection(v: EditorView, offset: int) -> bool {
    match sel_range(v) {
        Some((a, b)) => a <= offset < b,
        None => false,
    }
}

/// Whether the cursor is on `offset` in pane `side`: the pane has the
/// focus and the offset is at most one past the end.
pub open spec fn cursor_cell(v: EditorView, side: PaneSide, offset: int, len: int) -> bool {
    offset == v.cursor && v.focused_pane == side && offset <= len
}

/// How the hex cell of byte `offset` of document `doc_ix` in pane `side`
/// is marked.
pub open spec fn byte_look(v: EditorView, doc_ix: int, side: PaneSide, offset: int) -> CellLook {
    let len = doc_len_of(v, doc_ix);
    if in_selection(v, offset) {
        CellLook::Selected
    } else if cursor_cell(v, side, offset, len) && v.edit_mode == EditMode::Insert {
        CellLook::InsertCursor
    } else if cursor_cell(v, side, offset, len) {
        CellLook::Cursor
    } else if is_different_spec(v, doc_ix, offset) {
        CellLook::Different
    } else if offset < len {
        CellLook::Present
    } else if offset == len {
        CellLook::InsertionPoint
    } else {
        CellLook::Past
    }
}

/// How the ASCII cell of byte `offset` is marked: as the hex cell, without
/// the comparison and without telling the insertion point from what lies
/// past it.
pub open spec fn ascii_look(v: EditorView, doc_ix: int, side: PaneSide, offset: int) -> CellLook {
    let len = doc_len_of(v, doc_ix);
    if in_selection(v, offset) {
        CellLook::Selected
    } else if cursor_cell(v, side, offset, len) && v.edit_mode == EditMode::Insert {
        CellLook::InsertCursor
    } else if cursor_cell(v, side, offset, len) {
        CellLook::Cursor
    } else if offset < len {
        CellLook::Present
    } else {
        CellLook::Past
    }
}

/// The hex label of byte `offset`: its two digits, `++` one past the end,
/// blank further on or without a document.
pub open spec fn byte_label(v: EditorView, doc_ix: int, offset: int) -> Seq<char> {
    if 0 <= doc_ix < v.docs.len() && offset < contents_of(v, doc_ix).len() {
        spec_hex(contents_of(v, doc_ix)[offset] as nat, 2)
    } else if 0 <= doc_ix < v.docs.len() && offset == contents_of(v, doc_ix).len() {
        "++"@
    } else {
        "  "@
    }
}

/// The ASCII character of byte `offset`: the byte if it prints, else `.`;
/// `+` one past the end, blank further on.
pub open spec fn byte_char(v: EditorView, doc_ix: int, offset: int) -> char {
    if 0 <= doc_ix < v.docs.len() && offset < contents_of(v, doc_ix).len() {
        printable_or_dot(contents_of(v, doc_ix)[offset])
    } else if 0 <= doc_ix < v.docs.len() && offset == contents_of(v, doc_ix).len() {
        '+'
    } else {
        ' '
    }
}

/// The cell of byte `offset`.
pub open spec fn cell_spec(v: EditorView, doc_ix: int, side: PaneSide, offset: int) -> CellView {
    CellView {
        offset,
        label: byte_label(v, doc_ix, offset),
        ascii: byte_char(v, doc_ix, offset),
        look: byte_look(v, doc_ix, side, offset),
        ascii_look: ascii_look(v, doc_ix, side, offset),
    }
}

/// Where the column ruler and the address column mark: the selection's
/// start, else the cursor inside the focused document.
pub open spec fn anchor_offset(v: EditorView) -> Option<int> {
    match sel_range(v) {
        Some((a, b)) => Some(a),
        None => if has_active(v) {
            Some(imin(v.cursor as int, active_len(v)))
        } else {
            None
        },
    }
}

/// Whether the row starting at `offset` holds the marked position.
pub open spec fn address_active(v: EditorView, offset: int) -> bool {
    let w = row_width(v.bytes_per_row_ix as int);
    match anchor_offset(v) {
        Some(a) => (a / w) * w == offset,
        None => false,
    }
}

/// Whether ruler column `ix` holds the marked position.
pub open spec fn column_active(v: EditorView, ix: int) -> bool {
    match anchor_offset(v) {
        Some(a) => ((a as usize) as int) % row_width(v.bytes_per_row_ix as int) == ix,
        None => false,
    }
}

impl Editor {
    /// The cell of byte `offset` of document `doc_ix` in pane `side`.
    pub fn hex_cell(&self, doc_ix: usize, side: PaneSide, offset: u64) -> (c: HexCell)
        requires
            self.wf(),
        ensures
            cell_view(c) == cell_spec(self@, doc_ix as int, side, offset as int),
    {
        proof {
            self.lemma_focused();
        }
        let (len, byte) = if doc_ix < self.docs.len() {
            proof {
                self.docs@[doc_ix as int].lemma_model_contents();
            }
            (self.docs[doc_ix].len(), self.docs[doc_ix].byte_at(offset))
        } else {
            (0, None)
        };
        let has_doc = doc_ix < self.docs.len();
        let label = match byte {
            Some(b) => {
                let mut s = String::new();
                append_padded(&mut s, b as u64, 16, 2);
                s
            },
            None => if has_doc && offset == len {
                lit("++")
            } else {
                lit("  ")
            },
        };
        let ascii = match byte {
            Some(b) => printable_char(b),
            None => if has_doc && offset == len {
                '+'
            } else {
                ' '
            },
        };
        let selected = match self.selection_range() {
            Some(range) => range.start <= offset && offset < range.end,
            None => false,
        };
        let cursor = offset == self.cursor && self.focused_pane == side && offset <= len;
        let inserting = self.edit_mode == EditMode::Insert;
        let look = if selected {
            CellLook::Selected
        } else if cursor && inserting {
            CellLook::InsertCursor
        } else if cursor {
            CellLook::Cursor
        } else if self.is_different_for(doc_ix, offset) {
            CellLook::Different
        } else if offset < len {
            CellLook::Present
        } else if offset == len {
            CellLook::InsertionPoint
        } else {
            CellLook::Past
        };
        let ascii_look = if selected {
            CellLook::Selected
        } else if cursor && inserting {
            CellLook::InsertCursor
        } else if cursor {
            CellLook::Cursor
        } else if offset < len {
            CellLook::Present
        } else {
            CellLook::Past
        };
        proof {
            reveal_strlit("++");
            reveal_strlit("  ");
        }
        HexCell { offset, label, ascii, look, ascii_look }
    }

    /// Row `row` of document `doc_ix` in pane `side`: its address, whether
    /// it holds the marked position, and its cells.
    pub fn hex_row(&self, doc_ix: usize, side: PaneSide, row: usize) -> (r: HexRow)
        requires
            self.wf(),
            (row + 1) * row_width(self.bytes_per_row_ix as int) <= u64::MAX,
        ensures
            r.offset == row * row_width(self.bytes_per_row_ix as int),
            r.address@ == spec_hex(r.offset as nat, 16),
            r.address_active == address_active(self@, r.offset as int),
            r.cells@.len() == row_width(self.bytes_per_row_ix as int),
            forall|i: int| 0 <= i < r.cells@.len() ==> cell_view(#[trigger] r.cells@[i]) == cell_spec(
                self@,
                doc_ix as int,
                side,
                r.offset + i,
            ),
    {
        let width = self.bytes_per_row();
        proof {
            assert(row * width <= (row + 1) * width) by (nonlinear_arith)
                requires
                    width >= 0,
            ;
            assert((row + 1) * width == row * width + width) by (nonlinear_arith);
        }
        let offset = row as u64 * width as u64;
        let mut cells: Vec<HexCell> = Vec::new();
        let mut ix: usize = 0;
        while ix < width
            invariant
                self.wf(),
                width == row_width(self.bytes_per_row_ix as int),
                offset == row * width,
                offset + width <= u64::MAX,
                ix <= width,
                cells@.len() == ix,
                forall|i: int| 0 <= i < ix ==> cell_view(#[trigger] cells@[i]) == cell_spec(
                    self@,
                    doc_ix as int,
                    side,
                    offset + i,
                ),
            decreases width - ix,
        {
            let cell = self.hex_cell(doc_ix, side, offset + ix as u64);
            cells.push(cell);
            ix = ix + 1;
        }
        let mut address = String::new();
        append_padded(&mut address, offset, 16, 16);
        assert(address@ =~= spec_hex(offset as nat, 16));
        let address_active = match self.selection_anchor_offset() {
            Some(anchor) => (anchor / width as u64) * width as u64 == offset,
            None => false,
        };
        HexRow { offset, address, address_active, cells }
    }

    /// The column ruler: each column's number in two hex digits, and whether
    /// it holds the marked position.
    pub fn column_header(&self) -> (cols: Vec<(String, bool)>)
        requires
            self.wf(),
        ensures
            cols@.len() == row_width(self.bytes_per_row_ix as int),
            forall|i: int| 0 <= i < cols@.len() ==> (#[trigger] cols@[i]).0@ == spec_hex(i as nat, 2)
                && cols@[i].1 == column_active(self@, i),
    {
        let width = self.bytes_per_row();
        let anchor_col = match self.selection_anchor_offset() {
            Some(offset) => Some((offset as usize) % width),
            None => None,
        };
        let mut cols: Vec<(String, bool)> = Vec::new();
        let mut ix: usize = 0;
        while ix < width
            invariant
                width == row_width(self.bytes_per_row_ix as int),
                ix <= width,
                cols@.len() == ix,
                anchor_col == (match anchor_offset(self@) {
                    Some(a) => Some((((a as usize) as int) % (width as int)) as usize),
                    None => None::<usize>,
                }),
                forall|i: int| 0 <= i < ix ==> (#[trigger] cols@[i]).0@ == spec_hex(i as nat, 2)
                    && cols@[i].1 == column_active(self@, i),
            decreases width - ix,
        {
            let mut label = String::new();
            append_padded(&mut label, ix as u64, 16, 2);
            let active = anchor_col == Some(ix);
            cols.push((label, active));
            ix = ix + 1;
        }
        cols
    }
}

} // verus!
