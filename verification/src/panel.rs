//! The texts around the hex view: tab labels, the inspector's summary lines,
//! decoded field headers, the toolbar's labels and the input fields.

use vstd::prelude::*;
use vstd::string::*;

use crate::detect::{detect_format_fields, format_fields, format_name, format_of};
use crate::document::{shown_name, spec_read};
use crate::editor::{
    active_ix_for_spec, active_len, contents_of, focused_ix, has_active, row_width, sel_range,
    text_of, Editor, EditorView, PaneSide, TextField,
};
use crate::formats::{cat, cat_string, capped, dec_text, fields_view, lit, FormatField, FormatSummary};
use crate::input::{split_parts, split_str};
use crate::inspector::{inspector_values, inspector_view, spec_inspector, InspectorValue};
use crate::numbers::Endianness;
use crate::pieces::imin;
use crate::text::{append_padded, spec_decimal, spec_hex};

verus! {

/// A tab's label: the document's name, and `*` while it has unsaved edits.
pub open spec fn tab_text(name: Seq<char>, dirty: bool) -> Seq<char> {
    if dirty {
        name + "*"@
    } else {
        name
    }
}

/// A tab's label for a document named `name`.
pub fn tab_text_of(name: String, dirty: bool) -> (s: String)
    ensures
        s@ == tab_text(name@, dirty),
{
    if dirty {
        cat(name, "*")
    } else {
        name
    }
}

/// The inspector's "Compare" line for the compared document's name.
pub fn compare_text_of(name: Option<String>) -> (s: String)
    ensures
        s@ == (match name {
            Some(n) => n@,
            None => "off"@,
        }),
{
    match name {
        Some(n) => n,
        None => lit("off"),
    }
}

/// The name shown for a byte order.
pub fn endian_label(e: Endianness) -> (s: &'static str)
    ensures
        s@ == (match e {
            Endianness::Little => "Little"@,
            Endianness::Big => "Big"@,
        }),
{
    match e {
        Endianness::Little => "Little",
        Endianness::Big => "Big",
    }
}

/// How an input field shows: its placeholder while empty, its text, or its
/// text around the selected part.
pub enum TextBoxView {
    Placeholder,
    Plain(String),
    Selected(String, String, String),
}

/// An input field's look as plain values.
pub enum TextBoxSpec {
    Placeholder,
    Plain(Seq<char>),
    Selected(Seq<char>, Seq<char>, Seq<char>),
}

impl View for TextBoxView {
    type V = TextBoxSpec;

    open spec fn view(&self) -> TextBoxSpec {
        match self {
            TextBoxView::Placeholder => TextBoxSpec::Placeholder,
            TextBoxView::Plain(t) => TextBoxSpec::Plain(t@),
            TextBoxView::Selected(a, b, c) => TextBoxSpec::Selected(a@, b@, c@),
        }
    }
}

/// How input field `f` shows: the selection only shows in the field being
/// edited.
pub open spec fn text_box_spec(v: EditorView, f: TextField) -> TextBoxSpec {
    let t = text_of(v, f);
    if t.len() == 0 {
        TextBoxSpec::Placeholder
    } else if v.active_text_field == Some(f) && v.text_selection is Some {
        let (a, b, c) = split_parts(t, v.text_selection->0);
        TextBoxSpec::Selected(a, b, c)
    } else {
        TextBoxSpec::Plain(t)
    }
}

impl FormatField {
    /// The field's header line: its offset in eight hex digits and its
    /// length.
    pub fn header_text(&self) -> (s: String)
        ensures
            s@ == "0x"@ + spec_hex(self.offset as nat, 8) + " +"@ + spec_decimal(self.len as nat),
    {
        let mut s = lit("0x");
        append_padded(&mut s, self.offset, 16, 8);
        let s = cat(s, " +");
        cat_string(s, dec_text(self.len))
    }
}

impl Editor {
    /// The label of document `ix`'s tab.
    pub fn tab_label(&self, ix: usize) -> (s: String)
        requires
            self.wf(),
            ix < self.docs@.len(),
        ensures
            exists|name: Seq<char>|
                shown_name(self@.docs[ix as int].path, name) && s@ == tab_text(
                    name,
                    self@.docs[ix as int].model.current.dirty,
                ),
    {
        proof {
            self.lemma_focused();
        }
        let name = self.docs[ix].name();
        let ghost n = name@;
        let s = tab_text_of(name, self.docs[ix].is_dirty());
        assert(shown_name(self@.docs[ix as int].path, n));
        assert(s@ == tab_text(n, self@.docs[ix as int].model.current.dirty));
        s
    }

    /// The tab a pane's tab bar marks; none without documents.
    pub fn tab_selected_index(&self, side: PaneSide) -> (r: Option<usize>)
        requires
            self.wf(),
        ensures
            r == (if self.docs@.len() == 0 {
                None
            } else {
                Some(
                    imin(
                        match active_ix_for_spec(self@, side) {
                            Some(i) => i as int,
                            None => self.active as int,
                        },
                        self.docs@.len() - 1,
                    ) as usize,
                )
            }),
    {
        if self.docs.len() == 0 {
            return None;
        }
        let ix = self.selected_ix_for(side);
        let last = self.docs.len() - 1;
        Some(
            if ix < last {
                ix
            } else {
                last
            },
        )
    }

    /// The inspector's "Selection" line: the selection's length, or `none`.
    pub fn selection_text(&self) -> (s: String)
        requires
            self.wf(),
        ensures
            s@ == (match sel_range(self@) {
                Some((a, b)) => spec_decimal((b - a) as nat) + " byte(s)"@,
                None => "none"@,
            }),
    {
        match self.selection_range() {
            Some(range) => cat(dec_text(range.end - range.start), " byte(s)"),
            None => lit("none"),
        }
    }

    /// The inspector's "Compare" line: the compared document's name, or
    /// `off`.
    pub fn compare_text(&self) -> (s: String)
        requires
            self.wf(),
        ensures
            match self.compare_with {
                Some(i) => shown_name(self@.docs[i as int].path, s@),
                None => s@ == "off"@,
            },
    {
        let name = match self.compare_with {
            Some(ix) => Some(self.docs[ix].name()),
            None => None,
        };
        compare_text_of(name)
    }

    /// The inspector's "Hex input" line: the digit waiting for its pair, or
    /// `--`.
    pub fn hex_input_text(&self) -> (s: String)
        ensures
            s@ == (match self.pending_hex {
                Some(n) => spec_hex(n as nat, 0) + "_"@,
                None => "--"@,
            }),
    {
        match self.pending_hex {
            Some(n) => {
                let mut s = String::new();
                append_padded(&mut s, n as u64, 16, 0);
                cat(s, "_")
            },
            None => lit("--"),
        }
    }

    /// The inspector's "Length" line: the focused document's length, empty
    /// without one.
    pub fn length_text(&self) -> (s: String)
        requires
            self.wf(),
        ensures
            s@ == (if has_active(self@) {
                spec_decimal(active_len(self@) as nat)
            } else {
                Seq::empty()
            }),
    {
        if self.active_doc().is_some() {
            dec_text(self.active_len())
        } else {
            String::new()
        }
    }

    /// The row width button's label.
    pub fn row_width_label(&self) -> (s: String)
        requires
            self.wf(),
        ensures
            s@ == spec_decimal(row_width(self.bytes_per_row_ix as int) as nat) + " B/row"@,
    {
        cat(dec_text(self.bytes_per_row() as u64), " B/row")
    }

    /// The bytes the inspector reads: up to 64 from the cursor in the
    /// focused document.
    pub fn inspector_bytes(&self) -> (b: Vec<u8>)
        requires
            self.wf(),
        ensures
            b@ == (if has_active(self@) {
                spec_read(contents_of(self@, focused_ix(self@)), self.cursor as int, 64)
            } else {
                Seq::empty()
            }),
    {
        proof {
            self.lemma_focused();
        }
        match self.active_doc() {
            Some(doc) => {
                proof {
                    doc.lemma_model_contents();
                }
                doc.read_range(self.cursor, 64)
            },
            None => Vec::new(),
        }
    }

    /// The inspector's readings of the bytes at the cursor.
    pub fn inspector_lines(&self) -> (lines: Vec<InspectorValue>)
        requires
            self.wf(),
        ensures
            inspector_view(lines@) == spec_inspector(
                if has_active(self@) {
                    spec_read(contents_of(self@, focused_ix(self@)), self.cursor as int, 64)
                } else {
                    Seq::empty()
                },
                self.cursor as nat,
                self.endian,
                self.encoding,
            ),
    {
        let bytes = self.inspector_bytes();
        inspector_values(bytes.as_slice(), self.cursor, self.endian, self.encoding)
    }

    /// The decoded fields of the focused document, at most 96 of them.
    pub fn format_summary(&self) -> (r: Option<FormatSummary>)
        requires
            self.wf(),
        ensures
            !has_active(self@) || active_len(self@) == 0 ==> r is None,
            has_active(self@) && active_len(self@) > 0 ==> match format_of(contents_of(self@, focused_ix(self@))) {
                None => r is None,
                Some(f) => r matches Some(s) && s.format@ == format_name(f) && fields_view(s.fields@)
                    == capped(format_fields(f, contents_of(self@, focused_ix(self@))), 96),
            },
    {
        proof {
            self.lemma_focused();
        }
        match self.active_doc() {
            Some(doc) => {
                proof {
                    doc.lemma_model_contents();
                }
                detect_format_fields(doc, 96)
            },
            None => None,
        }
    }

    /// How input field `field` shows.
    pub fn text_box(&self, field: TextField) -> (r: TextBoxView)
        requires
            self.wf(),
        ensures
            r@ == text_box_spec(self@, field),
    {
        let value = self.text_value(field);
        if value.is_empty() {
            return TextBoxView::Placeholder;
        }
        if self.active_text_field == Some(field) {
            if let Some(range) = &self.text_selection {
                let (a, b, c) = split_str(value, range.start, range.end);
                return TextBoxView::Selected(a, b, c);
            }
        }
        TextBoxView::Plain(String::from_str(value))
    }
}

} // verus!
