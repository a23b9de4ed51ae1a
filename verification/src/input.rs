//! The text input fields: editing their text, the replace panel and
//! "go to offset".

use std::ops::Range;
use vstd::prelude::*;
use vstd::string::*;
use vstd::utf8::{
    decode_utf8, encode_utf8, encode_utf8_decode_utf8, encode_utf8_valid_utf8, is_ascii_chars,
    is_ascii_chars_encode_utf8, is_char_boundary_iff_not_is_continuation_byte,
    is_char_boundary_start_end_of_seq, valid_utf8_split,
};

use crate::editor::{active_len, text_of, text_range_ok, Editor, EditorView, TextField};
use crate::formats::{cat, cat_string, lit};
use crate::offsets::{parse_offset, parse_offset_spec};
use crate::pieces::{imax, imin};
use crate::text::{lemma_hex_ascii, spec_hex, upper_hex_string};

verus! {

/// `v` with the text of field `f` set to `t`.
pub open spec fn set_text(v: EditorView, f: TextField, t: Seq<char>) -> EditorView {
    match f {
        TextField::Goto => EditorView { goto_input: t, ..v },
        TextField::Find => EditorView { find_input: t, ..v },
        TextField::Replace => EditorView { replace_input: t, ..v },
    }
}

/// `t` with the UTF-8 bytes `r` (each end cut to the text's end, the end no
/// earlier than the start) replaced by `ins`.
pub open spec fn splice_text(t: Seq<char>, r: Range<usize>, ins: Seq<char>) -> Seq<char> {
    let b = encode_utf8(t);
    let s = imin(r.start as int, b.len() as int);
    let e = imax(imin(r.end as int, b.len() as int), s);
    decode_utf8(b.subrange(0, s)) + ins + decode_utf8(b.subrange(e, b.len() as int))
}

/// The state after `ins` was typed or pasted into field `f`: it replaces the
/// selected text, or is appended without a selection; the selection is gone.
pub open spec fn replace_text_spec(v: EditorView, f: TextField, ins: Seq<char>) -> EditorView {
    let t = text_of(v, f);
    let nt = match v.text_selection {
        Some(r) => splice_text(t, r, ins),
        None => t + ins,
    };
    set_text(EditorView { text_selection: None, ..v }, f, nt)
}

/// The state after the replace panel was opened or closed; the find field
/// takes the input when it opens.
pub open spec fn toggle_replace_spec(v: EditorView) -> EditorView {
    let open = !v.replace_open;
    EditorView {
        replace_open: open,
        goto_open: false,
        active_text_field: if open {
            Some(TextField::Find)
        } else {
            None
        },
        text_selection: None,
        status: if open {
            "置換パネルを開きました。"@
        } else {
            "置換パネルを閉じました。"@
        },
        ..v
    }
}

/// The "go to" field's first text: the cursor in hexadecimal.
pub open spec fn goto_text(cursor: u64) -> Seq<char> {
    "0x"@ + spec_hex(cursor as nat, 0)
}

/// The state after "go to offset" opened: the field holds the cursor's
/// offset with its digits selected.
pub open spec fn goto_spec(v: EditorView) -> EditorView {
    EditorView {
        goto_open: true,
        goto_input: goto_text(v.cursor),
        active_text_field: Some(TextField::Goto),
        text_selection: Some(Range { start: 2usize, end: goto_text(v.cursor).len() as usize }),
        pending_hex: None,
        status: "Goto: オフセットを入力し、Enterで移動、Escでキャンセルします。"@,
        ..v
    }
}

/// The state after the "go to" entry was confirmed: the cursor moves to the
/// offset it names, kept inside the focused document, and the field closes;
/// an entry that names no offset only says so.
pub open spec fn confirm_goto_spec(v: EditorView) -> EditorView {
    match parse_offset_spec(v.goto_input) {
        None => EditorView {
            status: "Gotoに失敗しました。10進数または0x始まりの16進数を入力してください。"@,
            ..v
        },
        Some(t) => {
            let c = imin(t as int, active_len(v));
            EditorView {
                cursor: c as u64,
                selection: None,
                goto_open: false,
                active_text_field: None,
                text_selection: None,
                pending_hex: None,
                status: "0x"@ + spec_hex(c as nat, 0) + " へ移動しました。"@,
                ..v
            }
        },
    }
}

/// The bounds `start..end` cut to a text of `len` bytes, the end no earlier
/// than the start.
pub open spec fn cut_bounds(start: int, end: int, len: int) -> (int, int) {
    let s = imin(start, len);
    (s, imax(imin(end, len), s))
}

/// The text of `t` before, inside and after the UTF-8 bytes `r`.
pub open spec fn split_parts(t: Seq<char>, r: Range<usize>) -> (Seq<char>, Seq<char>, Seq<char>) {
    let b = encode_utf8(t);
    let (s, e) = cut_bounds(r.start as int, r.end as int, b.len() as int);
    (decode_utf8(b.subrange(0, s)), decode_utf8(b.subrange(s, e)), decode_utf8(b.subrange(e, b.len() as int)))
}

/// `value` split at the UTF-8 bytes `start..end`.
pub fn split_str(value: &str, start: usize, end: usize) -> (r: (String, String, String))
    requires
        text_range_ok(value@, start..end),
    ensures
        (r.0@, r.1@, r.2@) == split_parts(value@, start..end),
{
    let ghost b = encode_utf8(value@);
    let len = value.as_bytes().len();
    let s = if start < len {
        start
    } else {
        len
    };
    let e0 = if end < len {
        end
    } else {
        len
    };
    let e = if e0 < s {
        s
    } else {
        e0
    };
    proof {
        encode_utf8_valid_utf8(value@);
        assert(value.spec_bytes() == b);
    }
    let (pre, tail) = value.split_at(e);
    let ghost pb = b.subrange(0, e as int);
    proof {
        valid_utf8_split(b, e as int);
        assert(pre.spec_bytes() =~= pb);
        if s < e {
            if s > 0 {
                is_char_boundary_iff_not_is_continuation_byte(b, s as int);
                is_char_boundary_iff_not_is_continuation_byte(pb, s as int);
            }
        } else {
            is_char_boundary_start_end_of_seq(pb);
        }
    }
    let (head, middle) = pre.split_at(s);
    proof {
        assert(head.spec_bytes() =~= b.subrange(0, s as int));
        assert(middle.spec_bytes() =~= b.subrange(s as int, e as int));
        encode_utf8_decode_utf8(head@);
        encode_utf8_decode_utf8(middle@);
        encode_utf8_decode_utf8(tail@);
        assert(tail.spec_bytes() =~= b.subrange(e as int, b.len() as int));
    }
    (String::from_str(head), String::from_str(middle), String::from_str(tail))
}

/// `value` with the UTF-8 bytes `start..end` replaced by `ins`.
fn splice_str(value: &str, start: usize, end: usize, ins: &str) -> (r: String)
    requires
        text_range_ok(value@, start..end),
    ensures
        r@ == splice_text(value@, start..end, ins@),
{
    let (head, _middle, tail) = split_str(value, start, end);
    let out = head.concat(ins);
    out.concat(tail.as_str())
}

/// `s` without its last character.
fn drop_last_char(s: &str) -> (r: String)
    ensures
        r@ == (if s@.len() > 0 {
            s@.drop_last()
        } else {
            s@
        }),
{
    let n = s.unicode_len();
    let mut out = String::new();
    if n == 0 {
        return out;
    }
    let ghost chars = s@;
    let mut k: usize = 0;
    for ch in it: s.chars()
        invariant
            it.seq() == chars,
            n == chars.len(),
            n >= 1,
            k == it.index(),
            out@ == chars.take(imin(it.index() as int, n - 1)),
    {
        proof {
            assert(it.index() < n);
        }
        if k + 1 < n {
            crate::text::push_char(&mut out, ch);
            assert(out@ =~= chars.take(imin(it.index() + 1, n - 1)));
        } else {
            assert(chars.take(imin(it.index() + 1, n - 1)) =~= chars.take(imin(it.index() as int, n - 1)));
        }
        k = k + 1;
    }
    assert(out@ =~= chars.drop_last());
    out
}

impl Editor {
    /// Puts the input into field `field`, with no text selected.
    pub fn focus_text_field(&mut self, field: TextField)
        requires
            old(self).wf(),
        ensures
            final(self).wf(),
            final(self)@ == (EditorView { active_text_field: Some(field), text_selection: None, ..old(self)@ }),
    {
        self.active_text_field = Some(field);
        self.text_selection = None;
        assert(self@ =~= (EditorView { active_text_field: Some(field), text_selection: None, ..old(self)@ }));
    }

    /// Sets the text of field `f`.
    fn set_text_value(&mut self, field: TextField, t: String)
        requires
            old(self).wf(),
            old(self).text_selection is None,
        ensures
            final(self).wf(),
            final(self)@ == set_text(old(self)@, field, t@),
    {
        match field {
            TextField::Goto => {
                self.goto_input = t;
            },
            TextField::Find => {
                self.find_input = t;
            },
            TextField::Replace => {
                self.replace_input = t;
            },
        }
        assert(self@ =~= set_text(old(self)@, field, t@));
    }

    /// Types or pastes `text` into field `field`, over its selection.
    pub fn replace_text_selection(&mut self, field: TextField, text: &str)
        requires
            old(self).wf(),
            old(self).text_selection is Some ==> old(self).active_text_field == Some(field),
        ensures
            final(self).wf(),
            final(self)@ == replace_text_spec(old(self)@, field, text@),
    {
        let selection = match &self.text_selection {
            Some(r) => Some(r.start..r.end),
            None => None,
        };
        self.text_selection = None;
        let ghost cleared = self@;
        assert(cleared =~= (EditorView { text_selection: None, ..old(self)@ }));
        let new_text = match selection {
            Some(range) => splice_str(self.text_value(field), range.start, range.end, text),
            None => String::from_str(self.text_value(field)).concat(text),
        };
        self.set_text_value(field, new_text);
    }

    /// Deletes the bytes `selection` of field `field`'s text.
    pub fn delete_text_selection(&mut self, field: TextField, selection: Range<usize>)
        requires
            old(self).wf(),
            old(self).text_selection is None,
            text_range_ok(text_of(old(self)@, field), selection),
        ensures
            final(self).wf(),
            final(self)@ == set_text(old(self)@, field, splice_text(text_of(old(self)@, field), selection, Seq::empty())),
    {
        let new_text = splice_str(self.text_value(field), selection.start, selection.end, "");
        proof {
            reveal_strlit("");
        }
        self.set_text_value(field, new_text);
    }

    /// Deletes the last character of field `field`'s text.
    pub fn pop_text(&mut self, field: TextField)
        requires
            old(self).wf(),
            old(self).text_selection is None,
        ensures
            final(self).wf(),
            final(self)@ == set_text(old(self)@, field, if text_of(old(self)@, field).len() > 0 {
                text_of(old(self)@, field).drop_last()
            } else {
                text_of(old(self)@, field)
            }),
    {
        let new_text = drop_last_char(self.text_value(field));
        self.set_text_value(field, new_text);
    }

    /// Opens or closes the replace panel.
    pub fn toggle_replace(&mut self)
        requires
            old(self).wf(),
        ensures
            final(self).wf(),
            final(self)@ == toggle_replace_spec(old(self)@),
    {
        self.replace_open = !self.replace_open;
        self.goto_open = false;
        self.active_text_field = if self.replace_open {
            Some(TextField::Find)
        } else {
            None
        };
        self.text_selection = None;
        if self.replace_open {
            self.status = lit("置換パネルを開きました。");
        } else {
            self.status = lit("置換パネルを閉じました。");
        }
        assert(self@ =~= toggle_replace_spec(old(self)@));
    }

    /// Opens "go to offset" with the cursor's offset in the field.
    pub fn goto(&mut self)
        requires
            old(self).wf(),
        ensures
            final(self).wf(),
            final(self)@ == goto_spec(old(self)@),
    {
        self.goto_open = true;
        let text = cat_string(lit("0x"), upper_hex_string(self.cursor));
        let n = text.as_str().as_bytes().len();
        proof {
            let t = goto_text(old(self).cursor);
            reveal_strlit("0x");
            lemma_hex_ascii(old(self).cursor as nat, 0);
            assert(is_ascii_chars(t)) by {
                assert forall|i: int| 0 <= i < t.len() implies '\0' <= #[trigger] t[i] <= '\u{7f}' by {
                    if i >= 2 {
                        assert(t[i] == spec_hex(old(self).cursor as nat, 0)[i - 2]);
                    }
                }
            }
            is_ascii_chars_encode_utf8(t);
            let b = encode_utf8(t);
            encode_utf8_valid_utf8(t);
            assert(t[2] <= '\u{7f}');
            is_char_boundary_iff_not_is_continuation_byte(b, 2);
            is_char_boundary_start_end_of_seq(b);
            assert(text_range_ok(t, 2..n));
        }
        self.goto_input = text;
        self.active_text_field = Some(TextField::Goto);
        self.text_selection = Some(2..n);
        self.pending_hex = None;
        self.status = lit("Goto: オフセットを入力し、Enterで移動、Escでキャンセルします。");
        assert(self@ =~= goto_spec(old(self)@));
    }

    /// Moves the cursor to the offset in the "go to" field.
    pub fn confirm_goto(&mut self)
        requires
            old(self).wf(),
        ensures
            final(self).wf(),
            final(self)@ == confirm_goto_spec(old(self)@),
    {
        proof {
            self.lemma_focused();
        }
        match parse_offset(self.goto_input.as_str()) {
            None => {
                self.status = lit("Gotoに失敗しました。10進数または0x始まりの16進数を入力してください。");
            },
            Some(target) => {
                let len = self.active_len();
                self.cursor = if target < len {
                    target
                } else {
                    len
                };
                self.selection = None;
                self.goto_open = false;
                self.active_text_field = None;
                self.text_selection = None;
                self.pending_hex = None;
                let s = cat_string(lit("0x"), upper_hex_string(self.cursor));
                self.status = cat(s, " へ移動しました。");
            },
        }
        assert(self@ =~= confirm_goto_spec(old(self)@));
    }

    /// Moves the cursor to the offset in the "go to" field.
    pub fn confirm_goto_from_input(&mut self)
        requires
            old(self).wf(),
        ensures
            final(self).wf(),
            final(self)@ == confirm_goto_spec(old(self)@),
    {
        self.confirm_goto();
    }
}

} // verus!
