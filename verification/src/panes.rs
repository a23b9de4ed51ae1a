//! The open files and the two panes: opening files, switching the file a
//! pane shows, the split view and the file compared with.

use vstd::prelude::*;
use vstd::string::*;

use crate::document::{shown_name, ByteDocument};
use crate::editor::{doc_ok, doc_view, focus_pane_spec, focused_ix, ja_side_label, set_active_spec, DocView, Editor, EditorView, PaneSide};
use crate::formats::{cat, cat_string, dec_text, lit};
use crate::text::spec_decimal;

verus! {

/// The state after the split view was switched on or off. Switching it on
/// gives the right pane a document if it has none: the one after the active
/// one, or the active one when it is the only one. Switching it off gives
/// the left pane the focus.
pub open spec fn toggle_split_spec(v: EditorView) -> EditorView {
    if !v.split {
        EditorView {
            split: true,
            right_active: match v.right_active {
                Some(i) => Some(i),
                None => if v.docs.len() > 1 {
                    Some(((v.active + 1) % (v.docs.len() as int)) as usize)
                } else if v.docs.len() > 0 {
                    Some(v.active)
                } else {
                    None
                },
            },
            status: "分割表示を有効にしました。"@,
            ..v
        }
    } else {
        EditorView { split: false, focused_pane: PaneSide::Left, status: "分割表示を無効にしました。"@, ..v }
    }
}

/// The state after the focused pane's document moved to the other pane,
/// which then has the focus; the view is split from then on.
pub open spec fn move_to_other_split_spec(v: EditorView) -> EditorView {
    if v.docs.len() == 0 {
        v
    } else {
        let w = match v.focused_pane {
            PaneSide::Left => EditorView {
                split: true,
                right_active: Some(v.active),
                focused_pane: PaneSide::Right,
                ..v
            },
            PaneSide::Right => EditorView {
                split: true,
                active: match v.right_active {
                    Some(i) => i,
                    None => v.active,
                },
                focused_pane: PaneSide::Left,
                ..v
            },
        };
        EditorView {
            status: "アクティブなファイルを"@ + ja_side_label(w.focused_pane) + "ペインへ移動しました。"@,
            ..w
        }
    }
}

/// The state after pane `side` was switched to document `ix`: the pane takes
/// the focus, the cursor goes to the start, and a comparison with that
/// document ends. An index past the open documents changes nothing.
pub open spec fn activate_doc_for_pane_spec(v: EditorView, side: PaneSide, ix: usize) -> EditorView {
    if ix >= v.docs.len() {
        v
    } else {
        let w = focus_pane_spec(v, side);
        let w = if w.split && side == PaneSide::Right {
            EditorView { right_active: Some(ix), ..w }
        } else {
            EditorView { active: ix, ..w }
        };
        EditorView {
            cursor: 0,
            selection: None,
            pending_hex: None,
            compare_with: if w.compare_with == Some(ix) {
                None
            } else {
                w.compare_with
            },
            ..w
        }
    }
}

/// The document compared with next: the one after the current comparison
/// (or after the active document), skipping the focused one.
pub open spec fn next_compare_ix(v: EditorView) -> int {
    let n = v.docs.len() as int;
    let next = match v.compare_with {
        Some(i) => (i + 1) % n,
        None => (v.active + 1) % n,
    };
    if next == focused_ix(v) {
        (next + 1) % n
    } else {
        next
    }
}

/// The state after "compare next" with `name` the name of the document
/// compared with; with fewer than two documents nothing is compared.
pub open spec fn compare_next_spec(v: EditorView, name: Seq<char>) -> EditorView {
    if v.docs.len() < 2 {
        EditorView { compare_with: None, status: "比較するには2個以上のファイルを開いてください。"@, ..v }
    } else {
        EditorView {
            compare_with: Some(next_compare_ix(v) as usize),
            status: name + " と比較しています。"@,
            ..v
        }
    }
}

/// The documents among the results of opening files.
pub open spec fn opened_docs(rs: Seq<Result<ByteDocument, String>>) -> Seq<DocView>
    decreases rs.len(),
{
    if rs.len() == 0 {
        Seq::empty()
    } else {
        let before = opened_docs(rs.drop_last());
        match rs.last() {
            Ok(d) => before.push(doc_view(d)),
            Err(_) => before,
        }
    }
}

/// The last error among the results of opening files.
pub open spec fn last_open_error(rs: Seq<Result<ByteDocument, String>>) -> Option<Seq<char>>
    decreases rs.len(),
{
    if rs.len() == 0 {
        None
    } else {
        match rs.last() {
            Ok(_) => last_open_error(rs.drop_last()),
            Err(e) => Some(e@),
        }
    }
}

/// The state after files were opened, with `rs` the result for each file in
/// turn. The opened documents join the list and the first of them shows in
/// the focused pane; when none opened, the status gives the last error.
pub open spec fn open_paths_spec(v: EditorView, rs: Seq<Result<ByteDocument, String>>) -> EditorView {
    let new_docs = opened_docs(rs);
    if new_docs.len() > 0 {
        let w = set_active_spec(EditorView { docs: v.docs + new_docs, ..v }, v.docs.len() as usize);
        EditorView {
            cursor: 0,
            selection: None,
            compare_with: None,
            status: spec_decimal(new_docs.len()) + " 個のファイルを開きました。"@,
            ..w
        }
    } else {
        match last_open_error(rs) {
            Some(e) => EditorView { status: "ファイルを開けませんでした: "@ + e, ..v },
            None => v,
        }
    }
}

impl Editor {
    /// Switches the split view on or off.
    pub fn toggle_split(&mut self)
        requires
            old(self).wf(),
        ensures
            final(self).wf(),
            final(self)@ == toggle_split_spec(old(self)@),
    {
        self.split = !self.split;
        if self.split {
            if self.right_active.is_none() {
                if self.docs.len() > 1 {
                    self.right_active = Some((self.active + 1) % self.docs.len());
                } else if self.docs.len() > 0 {
                    self.right_active = Some(self.active);
                }
            }
            self.status = lit("分割表示を有効にしました。");
        } else {
            self.focused_pane = PaneSide::Left;
            self.status = lit("分割表示を無効にしました。");
        }
        assert(self@ =~= toggle_split_spec(old(self)@));
    }

    /// Moves the focused pane's document to the other pane.
    pub fn move_to_other_split(&mut self)
        requires
            old(self).wf(),
        ensures
            final(self).wf(),
            final(self)@ == move_to_other_split_spec(old(self)@),
    {
        if self.docs.len() == 0 {
            return;
        }
        if !self.split {
            self.split = true;
        }
        match self.focused_pane {
            PaneSide::Left => {
                self.right_active = Some(self.active);
                self.focused_pane = PaneSide::Right;
            },
            PaneSide::Right => {
                if let Some(ix) = self.right_active {
                    self.active = ix;
                }
                self.focused_pane = PaneSide::Left;
            },
        }
        let s = cat(lit("アクティブなファイルを"), self.focused_pane.ja_label());
        self.status = cat(s, "ペインへ移動しました。");
        assert(self@ =~= move_to_other_split_spec(old(self)@));
    }

    /// Gives the left pane the focus.
    pub fn focus_left_pane(&mut self)
        requires
            old(self).wf(),
        ensures
            final(self).wf(),
            final(self)@ == focus_pane_spec(old(self)@, PaneSide::Left),
    {
        self.focus_pane(PaneSide::Left);
    }

    /// Gives the right pane the focus, in a split view.
    pub fn focus_right_pane(&mut self)
        requires
            old(self).wf(),
        ensures
            final(self).wf(),
            final(self)@ == focus_pane_spec(old(self)@, PaneSide::Right),
    {
        if self.split {
            self.focus_pane(PaneSide::Right);
        }
    }

    /// Shows document `ix` in pane `side`.
    pub fn activate_doc_for_pane(&mut self, side: PaneSide, ix: usize)
        requires
            old(self).wf(),
        ensures
            final(self).wf(),
            final(self)@ == activate_doc_for_pane_spec(old(self)@, side, ix),
    {
        if ix < self.docs.len() {
            self.focus_pane(side);
            if self.split && side == PaneSide::Right {
                self.right_active = Some(ix);
            } else {
                self.active = ix;
            }
            self.cursor = 0;
            self.selection = None;
            self.pending_hex = None;
            if self.compare_with == Some(ix) {
                self.compare_with = None;
            }
            assert(self@ =~= activate_doc_for_pane_spec(old(self)@, side, ix));
        }
    }

    /// Shows document `ix` in the focused pane.
    pub fn activate_doc(&mut self, ix: usize)
        requires
            old(self).wf(),
        ensures
            final(self).wf(),
            final(self)@ == activate_doc_for_pane_spec(old(self)@, old(self).focused_pane, ix),
    {
        let side = self.focused_pane;
        self.activate_doc_for_pane(side, ix);
    }

    /// Compares the focused document with the next other document.
    pub fn compare_next(&mut self)
        requires
            old(self).wf(),
        ensures
            final(self).wf(),
            exists|name: Seq<char>|
                {
                    &&& old(self)@.docs.len() >= 2 ==> shown_name(
                        old(self)@.docs[next_compare_ix(old(self)@)].path,
                        name,
                    )
                    &&& final(self)@ == compare_next_spec(old(self)@, name)
                },
    {
        let n = self.docs.len();
        if n < 2 {
            self.compare_with = None;
            self.status = lit("比較するには2個以上のファイルを開いてください。");
            assert(self@ =~= compare_next_spec(old(self)@, Seq::empty()));
            return;
        }
        let next = match self.compare_with {
            Some(ix) => (ix + 1) % n,
            None => (self.active + 1) % n,
        };
        let active = self.focused_active_ix();
        let chosen = if next == active {
            (next + 1) % n
        } else {
            next
        };
        self.compare_with = Some(chosen);
        let name = self.docs[chosen].name();
        let ghost nm = name@;
        self.status = cat(name, " と比較しています。");
        assert(self@ =~= compare_next_spec(old(self)@, nm));
    }

    /// Takes in the results of opening files, one per file in turn.
    pub fn open_paths(&mut self, results: Vec<Result<ByteDocument, String>>)
        requires
            old(self).wf(),
            forall|i: int| 0 <= i < results@.len() ==> (#[trigger] results@[i] matches Ok(d) ==> doc_ok(d)),
        ensures
            final(self).wf(),
            final(self)@ == open_paths_spec(old(self)@, results@),
    {
        let ghost rs = results@;
        let ghost start = self@;
        let mut opened: usize = 0;
        let mut last_error: Option<String> = None;
        for result in it: results.into_iter()
            invariant
                it.seq() == rs,
                forall|i: int| 0 <= i < rs.len() ==> (#[trigger] rs[i] matches Ok(d) ==> doc_ok(d)),
                self.wf(),
                self@ == (EditorView { docs: start.docs + opened_docs(rs.take(it.index() as int)), ..start }),
                opened == opened_docs(rs.take(it.index() as int)).len(),
                self.docs@.len() == start.docs.len() + opened,
                match last_error {
                    Some(e) => last_open_error(rs.take(it.index() as int)) == Some(e@),
                    None => last_open_error(rs.take(it.index() as int)) is None,
                },
        {
            proof {
                assert(rs.take(it.index() + 1).drop_last() =~= rs.take(it.index() as int));
                assert(rs.take(it.index() + 1).last() == rs[it.index() as int]);
            }
            match result {
                Ok(doc) => {
                    let ghost before = self.docs@;
                    self.docs.push(doc);
                    let total = self.docs.len();
                    assert(opened < total);
                    opened = opened + 1;
                    proof {
                        assert(self.docs@.map_values(|d: ByteDocument| doc_view(d)) =~= before.map_values(|d: ByteDocument| doc_view(d)).push(doc_view(doc)));
                    }
                },
                Err(err) => {
                    last_error = Some(err);
                },
            }
            assert(self@ =~= (EditorView { docs: start.docs + opened_docs(rs.take(it.index() + 1)), ..start }));
        }
        proof {
            assert(rs.take(rs.len() as int) =~= rs);
        }
        let ghost mid = self@;
        assert(mid == (EditorView { docs: start.docs + opened_docs(rs), ..start }));
        if opened > 0 {
            let first_opened = self.docs.len() - opened;
            self.set_active_for_focused_pane(first_opened);
            self.cursor = 0;
            self.selection = None;
            self.compare_with = None;
            self.status = cat(dec_text(opened as u64), " 個のファイルを開きました。");
        } else if let Some(err) = last_error {
            self.status = cat_string(lit("ファイルを開けませんでした: "), err);
        }
        assert(self@ =~= open_paths_spec(old(self)@, rs));
    }
}

} // verus!
