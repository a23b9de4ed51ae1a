//! Key presses: in an input field they edit its text, in the hex view hex
//! digits write bytes and backspace deletes.

use vstd::prelude::*;
use vstd::string::*;

use crate::editing::{clip_view, delete_spec, input_nibble_spec};
use crate::editor::{active_len, has_active, text_of, Editor, EditorView, TextField};
use crate::formats::{lit, same_text};
use crate::input::{confirm_goto_spec, replace_text_spec, set_text, splice_text};
use crate::navigation::select_all_spec;
use crate::offsets::digit_of;
use crate::replacing::{needle_of, replace_next_spec};

verus! {

/// A key press: the key's name, the text it types (if any), and whether
/// Control or the platform's command key was held.
pub struct KeyPress {
    pub key: String,
    pub key_char: Option<String>,
    pub control: bool,
    pub platform: bool,
}

/// A key press as plain values.
pub struct KeyView {
    pub key: Seq<char>,
    pub key_char: Option<Seq<char>>,
    pub control: bool,
    pub platform: bool,
}

impl View for KeyPress {
    type V = KeyView;

    open spec fn view(&self) -> KeyView {
        KeyView {
            key: self.key@,
            key_char: match self.key_char {
                Some(c) => Some(c@),
                None => None,
            },
            control: self.control,
            platform: self.platform,
        }
    }
}

/// The state after a key press in input field `f`: Control-A selects the
/// text, Control-V pastes `clip`, Enter confirms ("go to", or else "replace
/// next"), Escape leaves the field, Backspace deletes the selection or the
/// last character, and other keys type their text.
pub open spec fn field_key_spec(v: EditorView, f: TextField, k: KeyView, clip: Option<Seq<char>>) -> EditorView {
    if k.control || k.platform {
        if k.key == "a"@ {
            select_all_spec(v)
        } else if k.key == "v"@ {
            match clip {
                Some(t) => replace_text_spec(v, f, t),
                None => v,
            }
        } else {
            v
        }
    } else if k.key == "enter"@ {
        if f == TextField::Goto {
            confirm_goto_spec(v)
        } else {
            replace_next_spec(v)
        }
    } else if k.key == "escape"@ {
        if f == TextField::Goto {
            EditorView {
                goto_open: false,
                active_text_field: None,
                status: "Gotoをキャンセルしました。"@,
                text_selection: None,
                ..v
            }
        } else {
            EditorView { active_text_field: None, text_selection: None, ..v }
        }
    } else if k.key == "backspace"@ {
        match v.text_selection {
            Some(sel) => set_text(
                EditorView { text_selection: None, ..v },
                f,
                splice_text(text_of(v, f), sel, Seq::empty()),
            ),
            None => set_text(v, f, if text_of(v, f).len() > 0 {
                text_of(v, f).drop_last()
            } else {
                text_of(v, f)
            }),
        }
    } else {
        match k.key_char {
            Some(c) => replace_text_spec(v, f, c),
            None => v,
        }
    }
}

/// The hex digit a key types, if it types one.
pub open spec fn typed_nibble(k: KeyView) -> Option<nat> {
    match k.key_char {
        Some(c) => if c.len() > 0 {
            digit_of(c[0], 16)
        } else {
            None
        },
        None => None,
    }
}

/// The state after a key press: in an input field it edits the field;
/// otherwise Backspace deletes, and a hex digit (without Control or the
/// command key) is typed into the document.
pub open spec fn key_spec(v: EditorView, k: KeyView, clip: Option<Seq<char>>) -> EditorView {
    match v.active_text_field {
        Some(f) => field_key_spec(v, f, k, clip),
        None => if k.key == "backspace"@ {
            delete_spec(v)
        } else if k.control || k.platform {
            v
        } else {
            match typed_nibble(k) {
                Some(n) => input_nibble_spec(v, n as u8),
                None => v,
            }
        },
    }
}

/// What a key press needs of the state for the edits it may make to stay
/// inside the machine's limits.
pub open spec fn key_room(v: EditorView) -> bool {
    &&& needle_of(v.find_input).len() * 2 <= usize::MAX
    &&& has_active(v) ==> active_len(v) + needle_of(v.replace_input).len() < u64::MAX
    &&& has_active(v) ==> active_len(v) + 1 < u64::MAX
}

/// The hex digit `c` stands for.
fn hex_digit(c: char) -> (r: Option<u8>)
    ensures
        match r {
            Some(n) => digit_of(c, 16) == Some(n as nat),
            None => digit_of(c, 16) is None,
        },
{
    if '0' <= c && c <= '9' {
        Some((c as u32 - '0' as u32) as u8)
    } else if 'a' <= c && c <= 'f' {
        Some((c as u32 - 'a' as u32) as u8 + 10)
    } else if 'A' <= c && c <= 'F' {
        Some((c as u32 - 'A' as u32) as u8 + 10)
    } else {
        None
    }
}

/// The first character of `s`, if it has one.
fn first_char(s: &str) -> (r: Option<char>)
    ensures
        match r {
            Some(c) => s@.len() > 0 && c == s@[0],
            None => s@.len() == 0,
        },
{
    let ghost chars = s@;
    for ch in it: s.chars()
        invariant
            it.seq() == chars,
            it.index() == 0,
            chars == s@,
    {
        assert(chars.take(1) =~= seq![ch]);
        return Some(ch);
    }
    None
}

impl Editor {
    /// A key press in the input field being edited, with the clipboard
    /// text `clipboard` for Control-V.
    pub fn handle_text_input_key(&mut self, key: &KeyPress, clipboard: Option<String>)
        requires
            old(self).wf(),
            key_room(old(self)@),
        ensures
            final(self).wf(),
            final(self)@ == (match old(self)@.active_text_field {
                Some(f) => field_key_spec(old(self)@, f, key@, clip_view(clipboard)),
                None => old(self)@,
            }),
    {
        let ghost v = self@;
        let field = match self.active_text_field {
            Some(field) => field,
            None => return,
        };
        proof {
            reveal_strlit("a");
            reveal_strlit("v");
            reveal_strlit("enter");
            reveal_strlit("escape");
            reveal_strlit("backspace");
        }
        if key.control || key.platform {
            if same_text(&key.key, "a") {
                self.select_all();
            } else if same_text(&key.key, "v") {
                if let Some(text) = clipboard {
                    self.replace_text_selection(field, text.as_str());
                }
            }
            return;
        }
        if same_text(&key.key, "enter") {
            if field == TextField::Goto {
                self.confirm_goto_from_input();
            } else {
                self.replace_next();
            }
        } else if same_text(&key.key, "escape") {
            if field == TextField::Goto {
                self.goto_open = false;
                self.active_text_field = None;
                self.status = lit("Gotoをキャンセルしました。");
            } else {
                self.active_text_field = None;
            }
            self.text_selection = None;
            assert(self@ =~= field_key_spec(v, field, key@, clip_view(clipboard)));
        } else if same_text(&key.key, "backspace") {
            match &self.text_selection {
                Some(selection) => {
                    let range = selection.start..selection.end;
                    self.text_selection = None;
                    assert(self@ =~= (EditorView { text_selection: None, ..v }));
                    self.delete_text_selection(field, range);
                },
                None => {
                    self.pop_text(field);
                },
            }
        } else {
            match &key.key_char {
                Some(text) => {
                    self.replace_text_selection(field, text.as_str());
                },
                None => {},
            }
        }
    }

    /// A key press, with the clipboard text `clipboard` for Control-V in an
    /// input field.
    pub fn on_key_down(&mut self, key: &KeyPress, clipboard: Option<String>)
        requires
            old(self).wf(),
            key_room(old(self)@),
        ensures
            final(self).wf(),
            final(self)@ == key_spec(old(self)@, key@, clip_view(clipboard)),
    {
        if self.active_text_field.is_some() {
            self.handle_text_input_key(key, clipboard);
            return;
        }
        proof {
            reveal_strlit("backspace");
        }
        if same_text(&key.key, "backspace") {
            self.delete_selection();
            return;
        }
        if key.control || key.platform {
            return;
        }
        let text = match &key.key_char {
            Some(text) => text,
            None => return,
        };
        let ch = match first_char(text.as_str()) {
            Some(ch) => ch,
            None => return,
        };
        if let Some(nibble) = hex_digit(ch) {
            self.input_hex_nibble(nibble);
        }
    }
}

} // verus!
