//! Laws of editing, undo and redo, stated over the document model that the
//! editing operations' contracts use.

use vstd::prelude::*;

use crate::document::{spec_read, spec_redo, spec_replace, spec_undo, splice, DocModel};

verus! {

/// Undoing an edit returns exactly the state before it, leaves the older
/// history as it was, and offers the edit for redo.
pub proof fn lemma_undo_reverts_edit(m: DocModel, start: int, end: int, bytes: Seq<u8>)
    requires
        0 <= start <= end <= m.current.contents.len(),
        start < end || bytes.len() > 0,
    ensures
        spec_undo(spec_replace(m, start, end, bytes)).current == m.current,
        spec_undo(spec_replace(m, start, end, bytes)).undo == m.undo,
        spec_undo(spec_replace(m, start, end, bytes)).redo == seq![
            spec_replace(m, start, end, bytes).current,
        ],
{
    let e = spec_replace(m, start, end, bytes);
    assert(e.undo.drop_last() =~= m.undo);
    assert(Seq::<crate::document::DocState>::empty().push(e.current) =~= seq![e.current]);
}

/// An edit empties the redo list and is itself one undo step.
pub proof fn lemma_edit_is_one_undo_step(m: DocModel, start: int, end: int, bytes: Seq<u8>)
    requires
        0 <= start <= end <= m.current.contents.len(),
        start < end || bytes.len() > 0,
    ensures
        spec_replace(m, start, end, bytes).redo.len() == 0,
        spec_replace(m, start, end, bytes).undo.len() == m.undo.len() + 1,
        spec_replace(m, start, end, bytes).current.dirty,
{
}

/// Redo after undo restores the document and its whole history.
pub proof fn lemma_redo_after_undo(m: DocModel)
    requires
        m.undo.len() > 0,
    ensures
        spec_redo(spec_undo(m)) == m,
{
    let u = spec_undo(m);
    assert(u.redo.drop_last() =~= m.redo);
    assert(u.undo.push(u.current) =~= m.undo);
}

/// Undo after redo restores the document and its whole history.
pub proof fn lemma_undo_after_redo(m: DocModel)
    requires
        m.redo.len() > 0,
    ensures
        spec_undo(spec_redo(m)) == m,
{
    let r = spec_redo(m);
    assert(r.undo.drop_last() =~= m.undo);
    assert(r.redo.push(r.current) =~= m.redo);
}

/// Undo and redo with nothing to undo or redo change nothing.
pub proof fn lemma_empty_history_is_noop(m: DocModel)
    ensures
        m.undo.len() == 0 ==> spec_undo(m) == m,
        m.redo.len() == 0 ==> spec_redo(m) == m,
{
}

/// After replacing `[start, end)` with `bytes`, reading `bytes.len()` bytes at
/// `start` gives `bytes` back; the bytes before are those before `start` and
/// the bytes after are those from `end` on.
pub proof fn lemma_read_after_replace(c: Seq<u8>, start: int, end: int, bytes: Seq<u8>)
    requires
        0 <= start <= end <= c.len(),
        bytes.len() > 0,
    ensures
        spec_read(splice(c, start, end, bytes), start, bytes.len() as int) == bytes,
        splice(c, start, end, bytes).len() == c.len() - (end - start) + bytes.len(),
        splice(c, start, end, bytes).take(start) == c.take(start),
        splice(c, start, end, bytes).skip(start + bytes.len()) == c.skip(end),
{
    let s = splice(c, start, end, bytes);
    assert(s.subrange(start, start + bytes.len()) =~= bytes);
    assert(s.take(start) =~= c.take(start));
    assert(s.skip(start + bytes.len()) =~= c.skip(end));
}

/// Deleting what was just inserted gives the bytes before the insertion.
pub proof fn lemma_delete_undoes_insert(c: Seq<u8>, offset: int, bytes: Seq<u8>)
    requires
        0 <= offset <= c.len(),
    ensures
        splice(splice(c, offset, offset, bytes), offset, offset + bytes.len(), Seq::empty()) == c,
{
    assert(splice(splice(c, offset, offset, bytes), offset, offset + bytes.len(), Seq::empty())
        =~= c);
}

/// Overwriting inside the document keeps its length; overwriting across its
/// end extends it to the end of the written bytes.
pub proof fn lemma_overwrite_length(c: Seq<u8>, offset: int, bytes: Seq<u8>)
    requires
        0 <= offset <= c.len(),
    ensures
        offset + bytes.len() <= c.len() ==> splice(c, offset, offset + bytes.len(), bytes).len()
            == c.len(),
        offset + bytes.len() > c.len() ==> splice(c, offset, c.len() as int, bytes).len() == offset
            + bytes.len(),
{
}

} // verus!
