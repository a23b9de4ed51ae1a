//! Finding bytes in the focused document, and replacing them.

use vstd::prelude::*;
use vstd::string::*;
use vstd::utf8::encode_utf8;

use crate::document::{spec_read, spec_replace, DocModel};
use crate::editing::{focused_model, with_model, DocEdit};
use crate::editor::{active_len, contents_of, focused_ix, has_active, sel_range, Editor, EditorView};
use crate::formats::{cat, cat_string, dec_text, lit};
use crate::hex::{parse_hex_bytes, spec_parse_hex};
use crate::pieces::imin;
use crate::search::{find_bytes, first_match, lemma_first_match_bounds, matches_at};
use crate::selection::Selection;
use crate::text::{spec_decimal, spec_hex, upper_hex_string};

verus! {

/// The bytes a search text stands for: the bytes it spells in hex, or else
/// its UTF-8 bytes.
pub open spec fn needle_of(t: Seq<char>) -> Seq<u8> {
    match spec_parse_hex(t) {
        Ok(b) => b,
        Err(_) => encode_utf8(t),
    }
}

/// Where a search for `needle` from `start` lands in the focused document:
/// the first match from `start` on, or else the first match from the start.
pub open spec fn found_at(v: EditorView, needle: Seq<u8>, start: int) -> Option<int> {
    if needle.len() == 0 || !has_active(v) {
        None
    } else {
        let c = contents_of(v, focused_ix(v));
        match first_match(c, needle, start) {
            Some(p) => Some(p),
            None => first_match(c, needle, 0),
        }
    }
}

/// `v` with the `n` bytes at `p` selected and the cursor on the first.
pub open spec fn show_match(v: EditorView, p: int, n: int) -> EditorView {
    EditorView { cursor: p as u64, selection: Some(Selection { anchor: p as u64, cursor: (p + n - 1) as u64 }), ..v }
}

/// Where "find next" starts: just after the cursor, inside the document.
pub open spec fn next_start(v: EditorView) -> int {
    imin(v.cursor + 1, active_len(v))
}

/// The state after "find next" for `needle`.
pub open spec fn find_next_bytes_spec(v: EditorView, needle: Seq<u8>) -> EditorView {
    if needle.len() == 0 {
        EditorView { status: "検索する値が空です。"@, ..v }
    } else if !has_active(v) {
        EditorView { status: "アクティブなファイルがありません。"@, ..v }
    } else {
        match found_at(v, needle, next_start(v)) {
            Some(p) => EditorView {
                status: spec_decimal(needle.len()) + " バイトの一致を 0x"@ + spec_hex(p as nat, 0)
                    + " で見つけました。"@,
                ..show_match(v, p, needle.len() as int)
            },
            None => EditorView { status: "一致するパターンは見つかりませんでした。"@, ..v },
        }
    }
}

/// The text "find next" searches for: the find field while the replace
/// panel is open, else the clipboard text.
pub open spec fn find_text(v: EditorView, clip: Option<Seq<char>>) -> Option<Seq<char>> {
    if v.replace_open {
        Some(v.find_input)
    } else {
        clip
    }
}

/// The state after "find next" with clipboard text `clip`.
pub open spec fn find_next_spec(v: EditorView, clip: Option<Seq<char>>) -> EditorView {
    match find_text(v, clip) {
        None => EditorView { status: "検索するバイト列またはテキストを先にコピーしてください。"@, ..v },
        Some(t) => find_next_bytes_spec(v, needle_of(t)),
    }
}

/// The state after a search for `needle` from `start` that only moves the
/// selection.
pub open spec fn find_from_spec(v: EditorView, start: int, needle: Seq<u8>) -> EditorView {
    match found_at(v, needle, start) {
        Some(p) => show_match(v, p, needle.len() as int),
        None => v,
    }
}

/// Whether the selection holds exactly `needle`.
pub open spec fn selection_matches(v: EditorView, needle: Seq<u8>) -> bool {
    match sel_range(v) {
        Some((s, e)) => e - s == needle.len() && spec_read(contents_of(v, focused_ix(v)), s, needle.len() as int)
            == needle,
        None => false,
    }
}

/// The state after "replace next": a selection that holds the search bytes
/// is replaced and the next match is selected; otherwise this is "find
/// next".
pub open spec fn replace_next_spec(v: EditorView) -> EditorView {
    let needle = needle_of(v.find_input);
    if needle.len() == 0 {
        EditorView { status: "置換する検索値が空です。"@, ..v }
    } else if selection_matches(v, needle) {
        let repl = needle_of(v.replace_input);
        let (s, e) = sel_range(v)->0;
        let w = with_model(v, focused_ix(v), spec_replace(focused_model(v), s, e, repl));
        let w = EditorView {
            cursor: imin(s + repl.len(), active_len(w)) as u64,
            selection: None,
            ..w
        };
        match found_at(w, needle, w.cursor as int) {
            Some(p) => show_match(w, p, needle.len() as int),
            None => EditorView { status: "1件置換しました。次の一致はありません。"@, ..w },
        }
    } else {
        find_next_bytes_spec(v, needle)
    }
}

/// Replacing every match of `needle` by `repl` from `offset` on, each
/// search starting after the last replacement: the final model, where the
/// last search started, and the number of replacements.
pub open spec fn replace_all_loop(m: DocModel, needle: Seq<u8>, repl: Seq<u8>, offset: int) -> (DocModel, int, nat)
    decreases m.current.contents.len() + 1 - offset,
{
    if needle.len() == 0 || offset < 0 {
        (m, offset, 0)
    } else {
        match first_match(m.current.contents, needle, offset) {
            None => (m, offset, 0),
            Some(f) => {
                proof {
                    lemma_first_match_bounds(m.current.contents, needle, offset);
                }
                let next = spec_replace(m, f, f + needle.len(), repl);
                let (last, at, count) = replace_all_loop(next, needle, repl, f + repl.len());
                (last, at, count + 1)
            },
        }
    }
}

/// `c` with each match of `needle` replaced by `repl`: the matches taken
/// from the left, each after the end of the one before.
pub open spec fn replaced_matches(c: Seq<u8>, needle: Seq<u8>, repl: Seq<u8>) -> Seq<u8>
    decreases c.len(),
{
    if needle.len() == 0 {
        c
    } else {
        match first_match(c, needle, 0) {
            None => c,
            Some(f) => {
                proof {
                    lemma_first_match_bounds(c, needle, 0);
                }
                c.take(f) + repl + replaced_matches(c.skip(f + needle.len()), needle, repl)
            },
        }
    }
}

/// The number of matches of `needle` in `c`, taken from the left, each after
/// the end of the one before.
pub open spec fn match_count(c: Seq<u8>, needle: Seq<u8>) -> nat
    decreases c.len(),
{
    if needle.len() == 0 {
        0
    } else {
        match first_match(c, needle, 0) {
            None => 0,
            Some(f) => {
                proof {
                    lemma_first_match_bounds(c, needle, 0);
                }
                match_count(c.skip(f + needle.len()), needle) + 1
            },
        }
    }
}

/// Searching from `start` on is searching the bytes from `off` on.
proof fn lemma_first_match_skip(c: Seq<u8>, needle: Seq<u8>, off: int, start: int)
    requires
        0 <= off <= start,
        off <= c.len(),
    ensures
        first_match(c, needle, start) == (match first_match(c.skip(off), needle, start - off) {
            Some(q) => Some(q + off),
            None => None::<int>,
        }),
    decreases c.len() + 1 - start,
{
    let s = c.skip(off);
    if start + needle.len() <= c.len() {
        assert(c.subrange(start, start + needle.len()) =~= s.subrange(
            start - off,
            start - off + needle.len(),
        ));
        if !matches_at(c, needle, start) {
            lemma_first_match_skip(c, needle, off, start + 1);
        }
    }
}

/// "Replace all" from `offset` on keeps the bytes before `offset` and
/// replaces the matches after it, as many as `match_count` finds.
proof fn lemma_replace_all_from(m: DocModel, needle: Seq<u8>, repl: Seq<u8>, offset: int)
    requires
        needle.len() > 0,
        0 <= offset <= m.current.contents.len(),
    ensures
        replace_all_loop(m, needle, repl, offset).0.current.contents == m.current.contents.take(offset)
            + replaced_matches(m.current.contents.skip(offset), needle, repl),
        replace_all_loop(m, needle, repl, offset).2 == match_count(m.current.contents.skip(offset), needle),
    decreases m.current.contents.len() + 1 - offset,
{
    let c = m.current.contents;
    let s = c.skip(offset);
    let n = needle.len() as int;
    lemma_first_match_skip(c, needle, offset, offset);
    lemma_first_match_bounds(c, needle, offset);
    match first_match(c, needle, offset) {
        None => {
            assert(first_match(s, needle, 0) is None);
            assert(c.take(offset) + s =~= c);
        },
        Some(f) => {
            assert(first_match(s, needle, 0) == Some(f - offset));
            let next = spec_replace(m, f, f + n, repl);
            let c2 = next.current.contents;
            assert(c2 == c.take(f) + repl + c.skip(f + n));
            lemma_replace_all_from(next, needle, repl, f + repl.len());
            assert(c2.take(f + repl.len()) =~= c.take(f) + repl);
            assert(c2.skip(f + repl.len()) =~= c.skip(f + n));
            assert(s.take(f - offset) =~= c.subrange(offset, f));
            assert(s.skip(f - offset + n) =~= c.skip(f + n));
            let rest = replaced_matches(c.skip(f + n), needle, repl);
            assert(c.take(offset) + (c.subrange(offset, f) + repl + rest) =~= c.take(f) + repl + rest);
        },
    }
}

/// "Replace all" leaves the focused document as its contents before with
/// every match of the search bytes replaced, the matches taken from the left,
/// each after the end of the one before, and reports how many there were.
pub proof fn lemma_replace_all_replaces_matches(v: EditorView)
    requires
        has_active(v),
        needle_of(v.find_input).len() > 0,
    ensures
        focused_model(replace_all_spec(v)).current.contents == replaced_matches(
            focused_model(v).current.contents,
            needle_of(v.find_input),
            needle_of(v.replace_input),
        ),
        replace_all_spec(v).status == spec_decimal(match_count(focused_model(v).current.contents, needle_of(v.find_input)))
            + " 件を置換しました。"@,
{
    let m = focused_model(v);
    let c = m.current.contents;
    let r = replaced_matches(c, needle_of(v.find_input), needle_of(v.replace_input));
    lemma_replace_all_from(m, needle_of(v.find_input), needle_of(v.replace_input), 0);
    assert(c.skip(0) =~= c);
    assert(c.take(0) + r =~= r);
}

/// The state after "replace all".
pub open spec fn replace_all_spec(v: EditorView) -> EditorView {
    let needle = needle_of(v.find_input);
    if needle.len() == 0 {
        EditorView { status: "置換する検索値が空です。"@, ..v }
    } else if !has_active(v) {
        EditorView { cursor: 0, selection: None, status: spec_decimal(0) + " 件を置換しました。"@, ..v }
    } else {
        let (m, at, count) = replace_all_loop(focused_model(v), needle, needle_of(v.replace_input), 0);
        let w = with_model(v, focused_ix(v), m);
        EditorView {
            cursor: imin(at, m.current.contents.len() as int) as u64,
            selection: None,
            status: spec_decimal(count) + " 件を置換しました。"@,
            ..w
        }
    }
}

/// Room for "replace all" to grow the focused document: with `n` bytes
/// replaced by `r`, at most one replacement per original byte.
pub open spec fn replace_all_room(v: EditorView) -> bool {
    let r = needle_of(v.replace_input).len() as int;
    has_active(v) ==> active_len(v) * (r + 1) + r < u64::MAX
}

/// The bytes a search text stands for.
fn needle_bytes(text: &str) -> (b: Vec<u8>)
    ensures
        b@ == needle_of(text@),
{
    match parse_hex_bytes(text) {
        Ok(bytes) => bytes,
        Err(_) => text.as_bytes_vec(),
    }
}

impl Editor {
    /// The bytes the find field stands for.
    pub fn search_bytes_from_input(&self) -> (b: Vec<u8>)
        ensures
            b@ == needle_of(self@.find_input),
    {
        needle_bytes(self.find_input.as_str())
    }

    /// The bytes the replace field stands for.
    pub fn replacement_bytes_from_input(&self) -> (b: Vec<u8>)
        ensures
            b@ == needle_of(self@.replace_input),
    {
        needle_bytes(self.replace_input.as_str())
    }

    /// The first match of `needle` from `start` on in the focused document,
    /// or else from its start.
    fn search_active(&self, needle: &[u8], start: u64) -> (r: Option<u64>)
        requires
            self.wf(),
            needle@.len() * 2 <= usize::MAX,
        ensures
            match r {
                Some(p) => found_at(self@, needle@, start as int) == Some(p as int),
                None => found_at(self@, needle@, start as int) is None,
            },
            r matches Some(p) ==> p + needle@.len() <= active_len(self@),
    {
        proof {
            self.lemma_focused();
        }
        if needle.len() == 0 {
            return None;
        }
        let doc = match self.active_doc() {
            Some(doc) => doc,
            None => return None,
        };
        proof {
            doc.lemma_model_contents();
            lemma_first_match_bounds(doc@, needle@, start as int);
            lemma_first_match_bounds(doc@, needle@, 0);
        }
        match find_bytes(doc, needle, start) {
            Some(p) => Some(p),
            None => find_bytes(doc, needle, 0),
        }
    }

    /// Selects the `n` bytes at `p`, the cursor on the first.
    fn show_found(&mut self, p: u64, n: usize)
        requires
            old(self).wf(),
            n >= 1,
            p + n <= active_len(old(self)@),
        ensures
            final(self).wf(),
            final(self)@ == show_match(old(self)@, p as int, n as int),
    {
        proof {
            self.lemma_focused();
        }
        self.cursor = p;
        self.selection = Some(Selection::new(p, p + n as u64 - 1));
        assert(self@ =~= show_match(old(self)@, p as int, n as int));
    }

    /// Finds the next match of `needle` after the cursor, or else from the
    /// start, and selects it.
    pub fn find_next_bytes(&mut self, needle: &[u8]) -> (r: Option<u64>)
        requires
            old(self).wf(),
            needle@.len() * 2 <= usize::MAX,
        ensures
            final(self).wf(),
            r == (match found_at(old(self)@, needle@, next_start(old(self)@)) {
                Some(p) => Some(p as u64),
                None => None,
            }),
            final(self)@ == find_next_bytes_spec(old(self)@, needle@),
    {
        let ghost v = self@;
        proof {
            self.lemma_focused();
        }
        if needle.len() == 0 {
            self.status = lit("検索する値が空です。");
            assert(self@ =~= find_next_bytes_spec(v, needle@));
            return None;
        }
        if self.active_doc().is_none() {
            self.status = lit("アクティブなファイルがありません。");
            assert(self@ =~= find_next_bytes_spec(v, needle@));
            return None;
        }
        let len = self.active_len();
        let start = if self.cursor + 1 < len {
            self.cursor + 1
        } else {
            len
        };
        let found = self.search_active(needle, start);
        match found {
            Some(offset) => {
                self.show_found(offset, needle.len());
                let s = cat(dec_text(needle.len() as u64), " バイトの一致を 0x");
                let s = cat_string(s, upper_hex_string(offset));
                self.status = cat(s, " で見つけました。");
            },
            None => {
                self.status = lit("一致するパターンは見つかりませんでした。");
            },
        }
        assert(self@ =~= find_next_bytes_spec(v, needle@));
        found
    }

    /// "Find next": searches for the find field's text while the replace
    /// panel is open, else for the clipboard text `clipboard`.
    pub fn find_next(&mut self, clipboard: Option<String>)
        requires
            old(self).wf(),
            find_text(old(self)@, crate::editing::clip_view(clipboard)) matches Some(t) ==> needle_of(t).len() * 2
                <= usize::MAX,
        ensures
            final(self).wf(),
            final(self)@ == find_next_spec(old(self)@, crate::editing::clip_view(clipboard)),
    {
        let ghost v = self@;
        let text = if self.replace_open {
            self.find_input.clone()
        } else {
            match clipboard {
                Some(text) => text,
                None => {
                    self.status = lit("検索するバイト列またはテキストを先にコピーしてください。");
                    assert(self@ =~= find_next_spec(v, None));
                    return;
                },
            }
        };
        let needle = needle_bytes(text.as_str());
        self.find_next_bytes(needle.as_slice());
    }

    /// Finds `needle` from `start`, or else from the start, and selects it.
    pub fn find_next_bytes_from(&mut self, start: u64, needle: &[u8]) -> (r: Option<u64>)
        requires
            old(self).wf(),
            needle@.len() * 2 <= usize::MAX,
        ensures
            final(self).wf(),
            r == (match found_at(old(self)@, needle@, start as int) {
                Some(p) => Some(p as u64),
                None => None,
            }),
            final(self)@ == find_from_spec(old(self)@, start as int, needle@),
    {
        let found = self.search_active(needle, start);
        if let Some(offset) = found {
            self.show_found(offset, needle.len());
        }
        found
    }

    /// Whether the selection holds exactly `needle`.
    fn selection_holds(&self, needle: &Vec<u8>) -> (b: bool)
        requires
            self.wf(),
        ensures
            b == selection_matches(self@, needle@),
    {
        proof {
            self.lemma_focused();
        }
        match self.selection_range() {
            Some(range) => {
                if range.end - range.start != needle.len() as u64 {
                    return false;
                }
                match self.active_doc() {
                    Some(doc) => {
                        proof {
                            doc.lemma_model_contents();
                        }
                        let bytes = doc.read_range(range.start, needle.len());
                        bytes_equal(&bytes, needle)
                    },
                    None => false,
                }
            },
            None => false,
        }
    }

    /// "Replace next".
    pub fn replace_next(&mut self)
        requires
            old(self).wf(),
            needle_of(old(self)@.find_input).len() * 2 <= usize::MAX,
            has_active(old(self)@) ==> active_len(old(self)@) + needle_of(old(self)@.replace_input).len() < u64::MAX,
        ensures
            final(self).wf(),
            final(self)@ == replace_next_spec(old(self)@),
    {
        let ghost v = self@;
        proof {
            self.lemma_focused();
        }
        let needle = self.search_bytes_from_input();
        if needle.len() == 0 {
            self.status = lit("置換する検索値が空です。");
            assert(self@ =~= replace_next_spec(v));
            return;
        }
        let replacement = self.replacement_bytes_from_input();
        if self.selection_holds(&needle) {
            let range = match self.selection_range() {
                Some(range) => range,
                None => return,
            };
            let next_start = range.start + replacement.len() as u64;
            let ix = self.focused_active_ix();
            match self.edit_doc(ix, DocEdit::Replace(range.start, range.end), replacement) {
                Ok(()) => {
                    let len = self.active_len();
                    self.cursor = if next_start < len {
                        next_start
                    } else {
                        len
                    };
                    self.selection = None;
                    let ghost w = self@;
                    let found = self.find_next_bytes_from(self.cursor, needle.as_slice());
                    if found.is_none() {
                        self.status = lit("1件置換しました。次の一致はありません。");
                    }
                    assert(self@ =~= replace_next_spec(v));
                },
                Err(err) => {
                    self.status = cat_string(lit("置換に失敗しました: "), err.message());
                },
            }
        } else {
            self.find_next_bytes(needle.as_slice());
        }
    }
}

impl Editor {
    /// "Replace all": every match of the find field's bytes, from the start
    /// on, is replaced by the replace field's bytes, each replacement its
    /// own undo step.
    pub fn replace_all(&mut self)
        requires
            old(self).wf(),
            needle_of(old(self)@.find_input).len() * 2 <= usize::MAX,
            replace_all_room(old(self)@),
        ensures
            final(self).wf(),
            final(self)@ == replace_all_spec(old(self)@),
    {
        let ghost v = self@;
        proof {
            self.lemma_focused();
        }
        let needle = self.search_bytes_from_input();
        if needle.len() == 0 {
            self.status = lit("置換する検索値が空です。");
            assert(self@ =~= replace_all_spec(v));
            return;
        }
        let replacement = self.replacement_bytes_from_input();
        if self.active_doc().is_none() {
            self.cursor = 0;
            self.selection = None;
            self.status = cat(dec_text(0), " 件を置換しました。");
            assert(self@ =~= replace_all_spec(v));
            return;
        }
        let ix = self.focused_active_ix();
        let ghost nd = needle@;
        let ghost rp = replacement@;
        let ghost nn = nd.len() as int;
        let ghost rr = rp.len() as int;
        let ghost m0 = focused_model(v);
        let ghost l0 = m0.current.contents.len() as int;
        let ghost total = replace_all_loop(m0, nd, rp, 0);
        let mut offset: u64 = 0;
        let mut count: u64 = 0;
        let mut done = false;
        proof {
            assert(with_model(v, ix as int, m0) =~= v);
        }
        while !done
            invariant
                self.wf(),
                ix == focused_ix(v),
                ix < self.docs@.len(),
                ix < v.docs.len(),
                focused_ix(self@) == ix,
                self@ == with_model(v, ix as int, focused_model(self@)),
                needle@ == nd,
                replacement@ == rp,
                nn == nd.len(),
                rr == rp.len(),
                nn >= 1,
                nn * 2 <= usize::MAX,
                l0 * (rr + 1) + rr < u64::MAX,
                l0 == m0.current.contents.len(),
                total == replace_all_loop(m0, nd, rp, 0),
                !done ==> total == ({
                    let t = replace_all_loop(focused_model(self@), nd, rp, offset as int);
                    (t.0, t.1, (t.2 + count) as nat)
                }),
                done ==> total == (focused_model(self@), offset as int, count as nat),
                focused_model(self@).current.contents.len() == l0 + count * (rr - nn),
                focused_model(self@).current.contents.len() - offset <= l0 - count * nn,
                offset <= focused_model(self@).current.contents.len(),
            decreases focused_model(self@).current.contents.len() + 1 - offset, if done { 0int } else { 1int },
        {
            let ghost cur = focused_model(self@);
            let ghost len = cur.current.contents.len() as int;
            proof {
                self.lemma_focused();
                assert(count * nn <= l0);
                assert(count <= l0) by (nonlinear_arith)
                    requires
                        count * nn <= l0,
                        nn >= 1,
                        count >= 0,
                ;
                assert(len <= l0 + l0 * rr) by (nonlinear_arith)
                    requires
                        len == l0 + count * (rr - nn),
                        count <= l0,
                        nn >= 1,
                        rr >= 0,
                        count >= 0,
                ;
                assert(l0 + l0 * rr == l0 * (rr + 1)) by (nonlinear_arith);
            }
            let found = match self.active_doc() {
                Some(doc) => {
                    proof {
                        doc.lemma_model_contents();
                    }
                    find_bytes(doc, needle.as_slice(), offset)
                },
                None => None,
            };
            match found {
                None => {
                    proof {
                        assert(first_match(cur.current.contents, nd, offset as int) is None);
                        assert(replace_all_loop(cur, nd, rp, offset as int) == (cur, offset as int, 0nat));
                    }
                    done = true;
                },
                Some(f) => {
                    proof {
                        lemma_first_match_bounds(cur.current.contents, nd, offset as int);
                        assert(first_match(cur.current.contents, nd, offset as int) == Some(f as int));
                    }
                    let repl = vstd::slice::slice_to_vec(replacement.as_slice());
                    let ghost before = self@;
                    match self.edit_doc(ix, DocEdit::Replace(f, f + needle.len() as u64), repl) {
                        Ok(()) => {},
                        Err(_) => {
                            return;
                        },
                    }
                    proof {
                        let next = spec_replace(cur, f as int, f + nn, rp);
                        assert(self@ == with_model(before, ix as int, next));
                        assert(before.docs[ix as int].path == v.docs[ix as int].path);
                        assert(with_model(before, ix as int, next).docs =~= with_model(v, ix as int, next).docs);
                        assert(self@ =~= with_model(v, ix as int, next));
                        self.lemma_focused();
                        assert(focused_model(self@) == next);
                        assert(next.current.contents.len() == len - nn + rr);
                        assert(len - nn + rr == l0 + (count + 1) * (rr - nn)) by (nonlinear_arith)
                            requires
                                len == l0 + count * (rr - nn),
                        ;
                        assert(len - nn - f <= l0 - (count + 1) * nn) by (nonlinear_arith)
                            requires
                                len - offset <= l0 - count * nn,
                                f >= offset,
                        ;
                    }
                    count = count + 1;
                    offset = f + replacement.len() as u64;
                },
            }
        }
        let len = self.active_len();
        self.cursor = if offset < len {
            offset
        } else {
            len
        };
        self.selection = None;
        self.status = cat(dec_text(count), " 件を置換しました。");
        assert(self@ =~= replace_all_spec(v));
    }
}

/// Whether two byte strings are equal.
fn bytes_equal(a: &Vec<u8>, b: &Vec<u8>) -> (r: bool)
    ensures
        r == (a@ == b@),
{
    if a.len() != b.len() {
        return false;
    }
    let mut k: usize = 0;
    while k < a.len()
        invariant
            a@.len() == b@.len(),
            k <= a@.len(),
            a@.take(k as int) == b@.take(k as int),
        decreases a@.len() - k,
    {
        if a[k] != b[k] {
            return false;
        }
        k = k + 1;
        assert(a@.take(k as int) =~= b@.take(k as int)) by {
            assert(a@.take(k - 1) == b@.take(k - 1));
            assert forall|j: int| 0 <= j < k implies a@.take(k as int)[j] == b@.take(k as int)[j] by {
                if j < k - 1 {
                    assert(a@.take(k - 1)[j] == b@.take(k - 1)[j]);
                }
            }
        }
    }
    assert(a@ =~= a@.take(a@.len() as int));
    assert(b@ =~= b@.take(b@.len() as int));
    true
}

} // verus!
