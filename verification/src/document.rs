//! The editable document: a piece table over the bytes it was created with
//! and the blocks that edits added, with user-level undo and redo.

use std::ops::Range;
use vstd::prelude::*;
use vstd::string::*;

use crate::text::{decimal_string, spec_decimal};
use crate::pieces::{
    delete_pieces, imin, insert_pieces, lemma_fits_sub, lemma_pieces_bytes_prefix,
    lemma_pieces_bytes_push, lemma_pieces_bytes_take, lemma_pieces_extend_adds, piece_bytes,
    piece_ok, pieces_bytes, pieces_fit, pieces_ok, source_seq, copy_pieces, Piece, Source,
};

verus! {

/// Contents and dirty flag of a document at one point of its history.
pub struct DocState {
    pub contents: Seq<u8>,
    pub dirty: bool,
}

/// A document as its users see it: the current state and the states that
/// undo and redo would return to, the most recent last.
pub struct DocModel {
    pub current: DocState,
    pub undo: Seq<DocState>,
    pub redo: Seq<DocState>,
}

/// `c` with `[start, end)` replaced by `bytes`.
pub open spec fn splice(c: Seq<u8>, start: int, end: int, bytes: Seq<u8>) -> Seq<u8> {
    c.take(start) + bytes + c.skip(end)
}

/// The model after replacing `[start, end)` with `bytes`; an edit that
/// neither removes nor adds a byte changes nothing.
pub open spec fn spec_replace(m: DocModel, start: int, end: int, bytes: Seq<u8>) -> DocModel {
    if start == end && bytes.len() == 0 {
        m
    } else {
        DocModel {
            current: DocState {
                contents: splice(m.current.contents, start, end, bytes),
                dirty: true,
            },
            undo: m.undo.push(m.current),
            redo: Seq::empty(),
        }
    }
}

/// The model after an undo: the last undo state becomes current and the
/// current state goes to the redo list. Without an undo state, unchanged.
pub open spec fn spec_undo(m: DocModel) -> DocModel {
    if m.undo.len() == 0 {
        m
    } else {
        DocModel { current: m.undo.last(), undo: m.undo.drop_last(), redo: m.redo.push(m.current) }
    }
}

/// The model after a redo, the mirror of an undo.
pub open spec fn spec_redo(m: DocModel) -> DocModel {
    if m.redo.len() == 0 {
        m
    } else {
        DocModel { current: m.redo.last(), undo: m.undo.push(m.current), redo: m.redo.drop_last() }
    }
}

/// The model after the contents were written out: clean, with no history.
pub open spec fn spec_saved(m: DocModel) -> DocModel {
    DocModel {
        current: DocState { contents: m.current.contents, dirty: false },
        undo: Seq::empty(),
        redo: Seq::empty(),
    }
}

/// What `read_range(offset, len)` returns: the bytes from `offset` on, at most
/// `len` of them; nothing when `offset` is at or past the end or `len` is 0.
pub open spec fn spec_read(c: Seq<u8>, offset: int, len: int) -> Seq<u8> {
    if offset >= c.len() || len == 0 {
        Seq::empty()
    } else {
        c.subrange(offset, imin(c.len() as int, offset + len))
    }
}

/// Why an edit was refused.
#[derive(Debug, Clone, Copy, PartialEq, Eq, Structural)]
pub enum EditError {
    /// The range `start..end` to replace or delete does not lie inside the
    /// document of length `len`.
    RangeOutsideDocument { start: u64, end: u64, len: u64 },
    /// The offset to overwrite at is past the end of the document of length
    /// `len`.
    OffsetPastEnd { offset: u64, len: u64 },
}

/// The sentence that reports an edit error.
pub open spec fn edit_error_text(e: EditError) -> Seq<char> {
    match e {
        EditError::RangeOutsideDocument { start, end, len } => "replace range "@ + spec_decimal(
            start as nat,
        ) + ".."@ + spec_decimal(end as nat) + " is outside document length "@ + spec_decimal(
            len as nat,
        ),
        EditError::OffsetPastEnd { offset, len } => "overwrite offset "@ + spec_decimal(
            offset as nat,
        ) + " is past document length "@ + spec_decimal(len as nat),
    }
}

impl EditError {
    /// The sentence that reports the error.
    pub fn message(&self) -> (s: String)
        ensures
            s@ == edit_error_text(*self),
    {
        match *self {
            EditError::RangeOutsideDocument { start, end, len } => {
                let s = String::from_str("replace range ");
                let s = s.concat(decimal_string(start).as_str());
                let s = s.concat("..");
                let s = s.concat(decimal_string(end).as_str());
                let s = s.concat(" is outside document length ");
                s.concat(decimal_string(len).as_str())
            },
            EditError::OffsetPastEnd { offset, len } => {
                let s = String::from_str("overwrite offset ");
                let s = s.concat(decimal_string(offset).as_str());
                let s = s.concat(" is past document length ");
                s.concat(decimal_string(len).as_str())
            },
        }
    }
}

struct DocumentSnapshot {
    pieces: Vec<Piece>,
    len: u64,
    dirty: bool,
}

spec fn snapshot_ok(s: DocumentSnapshot, o: Seq<u8>, a: Seq<Seq<u8>>) -> bool {
    &&& pieces_ok(s.pieces@, o, a)
    &&& s.len == pieces_bytes(s.pieces@, o, a).len()
}

spec fn snapshot_state(s: DocumentSnapshot, o: Seq<u8>, a: Seq<Seq<u8>>) -> DocState {
    DocState { contents: pieces_bytes(s.pieces@, o, a), dirty: s.dirty }
}

spec fn snapshots_ok(ss: Seq<DocumentSnapshot>, o: Seq<u8>, a: Seq<Seq<u8>>) -> bool {
    forall|i: int| 0 <= i < ss.len() ==> #[trigger] snapshot_ok(ss[i], o, a)
}

spec fn snapshot_states(ss: Seq<DocumentSnapshot>, o: Seq<u8>, a: Seq<Seq<u8>>) -> Seq<DocState> {
    ss.map_values(|s: DocumentSnapshot| snapshot_state(s, o, a))
}

proof fn lemma_snapshot_extend(s: DocumentSnapshot, o: Seq<u8>, a: Seq<Seq<u8>>, x: Seq<u8>)
    requires
        snapshot_ok(s, o, a),
    ensures
        snapshot_ok(s, o, a.push(x)),
        snapshot_state(s, o, a.push(x)) == snapshot_state(s, o, a),
{
    lemma_fits_sub(s.pieces@, o, a);
    lemma_pieces_extend_adds(s.pieces@, o, a, x);
}

proof fn lemma_snapshots_extend(ss: Seq<DocumentSnapshot>, o: Seq<u8>, a: Seq<Seq<u8>>, x: Seq<u8>)
    requires
        snapshots_ok(ss, o, a),
    ensures
        snapshots_ok(ss, o, a.push(x)),
        snapshot_states(ss, o, a.push(x)) == snapshot_states(ss, o, a),
{
    assert forall|i: int| 0 <= i < ss.len() implies #[trigger] snapshot_ok(ss[i], o, a.push(x)) by {
        lemma_snapshot_extend(ss[i], o, a, x);
    }
    assert forall|i: int| 0 <= i < ss.len() implies #[trigger] snapshot_states(ss, o, a.push(x))[i]
        == snapshot_states(ss, o, a)[i] by {
        lemma_snapshot_extend(ss[i], o, a, x);
    }
    assert(snapshot_states(ss, o, a.push(x)) =~= snapshot_states(ss, o, a));
}

/// A document being edited.
pub struct ByteDocument {
    path: Option<String>,
    original: Vec<u8>,
    additions: Vec<Vec<u8>>,
    pieces: Vec<Piece>,
    len: u64,
    dirty: bool,
    undo_stack: Vec<DocumentSnapshot>,
    redo_stack: Vec<DocumentSnapshot>,
}

impl View for ByteDocument {
    type V = Seq<u8>;

    /// The document's contents.
    closed spec fn view(&self) -> Seq<u8> {
        pieces_bytes(self.pieces@, self.original@, self.adds())
    }
}

impl ByteDocument {
    spec fn adds(&self) -> Seq<Seq<u8>> {
        self.additions@.map_values(|v: Vec<u8>| v@)
    }

    /// The document's pieces, history and length agree with its sources.
    pub closed spec fn wf(&self) -> bool {
        &&& pieces_ok(self.pieces@, self.original@, self.adds())
        &&& self.len == pieces_bytes(self.pieces@, self.original@, self.adds()).len()
        &&& snapshots_ok(self.undo_stack@, self.original@, self.adds())
        &&& snapshots_ok(self.redo_stack@, self.original@, self.adds())
    }

    /// The document with its history.
    pub closed spec fn model(&self) -> DocModel {
        DocModel {
            current: DocState { contents: self@, dirty: self.dirty },
            undo: snapshot_states(self.undo_stack@, self.original@, self.adds()),
            redo: snapshot_states(self.redo_stack@, self.original@, self.adds()),
        }
    }

    /// The path or name the document carries.
    pub closed spec fn path_spec(&self) -> Option<Seq<char>> {
        match self.path {
            Some(p) => Some(p@),
            None => None,
        }
    }

    /// A clean document holding `bytes`, named `name`, with no history.
    pub fn from_bytes(name: &str, bytes: Vec<u8>) -> (doc: Self)
        requires
            bytes@.len() <= u64::MAX,
        ensures
            doc.wf(),
            doc@ == bytes@,
            doc.model() == (DocModel {
                current: DocState { contents: bytes@, dirty: false },
                undo: Seq::empty(),
                redo: Seq::empty(),
            }),
            doc.path_spec() == Some(name@),
    {
        let len = bytes.len() as u64;
        let mut pieces: Vec<Piece> = Vec::new();
        if len > 0 {
            pieces.push(Piece { source: Source::Original, start: 0, len });
        }
        let doc = ByteDocument {
            path: Some(name.to_owned()),
            original: bytes,
            additions: Vec::new(),
            pieces,
            len,
            dirty: false,
            undo_stack: Vec::new(),
            redo_stack: Vec::new(),
        };
        proof {
            let o = doc.original@;
            let a = doc.adds();
            if len > 0 {
                assert(doc.pieces@ =~= Seq::<Piece>::empty().push(doc.pieces@[0]));
                lemma_pieces_bytes_push(Seq::<Piece>::empty(), doc.pieces@[0], o, a);
                assert(piece_bytes(doc.pieces@[0], o, a) =~= o);
                assert(pieces_bytes(Seq::<Piece>::empty(), o, a) + o =~= o);
            }
            assert(snapshot_states(doc.undo_stack@, o, a) =~= Seq::<DocState>::empty());
            assert(snapshot_states(doc.redo_stack@, o, a) =~= Seq::<DocState>::empty());
        }
        doc
    }

    /// The model's current contents are the document's contents.
    pub proof fn lemma_model_contents(&self)
        ensures
            self.model().current.contents == self@,
    {
    }

    /// A well-formed document's length fits its length field.
    pub proof fn lemma_len_fits(&self)
        requires
            self.wf(),
        ensures
            self@.len() <= u64::MAX,
    {
    }

    /// The number of bytes in the document.
    pub fn len(&self) -> (n: u64)
        requires
            self.wf(),
        ensures
            n == self@.len(),
    {
        self.len
    }

    /// Whether the document holds no byte.
    pub fn is_empty(&self) -> (b: bool)
        requires
            self.wf(),
        ensures
            b == (self@.len() == 0),
    {
        self.len == 0
    }

    /// Whether the document changed since it was created or saved.
    pub fn is_dirty(&self) -> (b: bool)
        ensures
            b == self.model().current.dirty,
    {
        self.dirty
    }

    /// Whether there is an edit to undo.
    pub fn can_undo(&self) -> (b: bool)
        ensures
            b == (self.model().undo.len() > 0),
    {
        self.undo_stack.len() > 0
    }

    /// Whether there is an undone edit to redo.
    pub fn can_redo(&self) -> (b: bool)
        ensures
            b == (self.model().redo.len() > 0),
    {
        self.redo_stack.len() > 0
    }

    /// The name shown for the document: the final component of its path,
    /// or `Untitled` when it has none.
    ///
    /// Which component is final is for the platform's path rules to say; the
    /// contract states what holds on every platform (`shown_name`): a path
    /// that is one plain file name is shown as it is.
    pub fn name(&self) -> (s: String)
        ensures
            shown_name(self.path_spec(), s@),
    {
        let file_name = match &self.path {
            Some(p) => path_file_name(p.as_str()),
            None => None,
        };
        proof {
            reveal_strlit("Untitled");
        }
        display_name(file_name)
    }

    /// The path or name the document carries.
    pub fn path(&self) -> (p: Option<&str>)
        ensures
            match p {
                Some(s) => self.path_spec() == Some(s@),
                None => self.path_spec() is None,
            },
    {
        match &self.path {
            Some(p) => Some(p.as_str()),
            None => None,
        }
    }

    /// Appends the bytes `[from, to)` of `source` to `out`.
    fn append_source(&self, out: &mut Vec<u8>, source: Source, from: u64, to: u64)
        requires
            self.wf(),
            match source {
                Source::Add(i) => i < self.additions@.len(),
                Source::Original => true,
            },
            from <= to <= source_seq(source, self.original@, self.adds()).len(),
        ensures
            final(out)@ == old(out)@ + source_seq(source, self.original@, self.adds()).subrange(
                from as int,
                to as int,
            ),
    {
        let bytes: &Vec<u8> = match source {
            Source::Original => &self.original,
            Source::Add(i) => &self.additions[i],
        };
        proof {
            match source {
                Source::Add(i) => {
                    assert(self.adds()[i as int] == self.additions@[i as int]@);
                },
                Source::Original => {},
            }
        }
        let ghost src = bytes@;
        let mut k: u64 = from;
        while k < to
            invariant
                from <= k <= to <= src.len(),
                src == bytes@,
                src.len() == bytes.len(),
                out@ == old(out)@ + src.subrange(from as int, k as int),
            decreases to - k,
        {
            let byte = bytes[k as usize];
            out.push(byte);
            k = k + 1;
            assert(out@ =~= old(out)@ + src.subrange(from as int, k as int));
        }
    }

    /// At most `len` bytes starting at `offset`; fewer at the end of the
    /// document, none when `offset` is at or past the end.
    pub fn read_range(&self, offset: u64, len: usize) -> (out: Vec<u8>)
        requires
            self.wf(),
        ensures
            out@ == spec_read(self@, offset as int, len as int),
    {
        if offset >= self.len || len == 0 {
            return Vec::new();
        }
        let wanted_end: u64 = if (len as u64) < self.len - offset {
            offset + len as u64
        } else {
            self.len
        };
        let ghost o = self.original@;
        let ghost a = self.adds();
        let ghost ps = self.pieces@;
        let mut out: Vec<u8> = Vec::new();
        let mut logical: u64 = 0;
        let mut i: usize = 0;
        proof {
            lemma_fits_sub(ps, o, a);
            assert(ps.take(0) =~= Seq::<Piece>::empty());
        }
        while i < self.pieces.len()
            invariant
                self.wf(),
                ps == self.pieces@,
                o == self.original@,
                a == self.adds(),
                pieces_fit(ps, o, a),
                i <= ps.len(),
                offset < wanted_end <= self@.len(),
                logical == pieces_bytes(ps.take(i as int), o, a).len(),
                out@ == pieces_bytes(ps.take(i as int), o, a).subrange(
                    imin(offset as int, logical as int),
                    imin(wanted_end as int, logical as int),
                ),
            decreases ps.len() - i,
        {
            let piece = self.pieces[i];
            let ghost prefix = pieces_bytes(ps.take(i as int), o, a);
            let ghost b = piece_bytes(piece, o, a);
            proof {
                assert(piece_ok(piece, o, a));
                lemma_pieces_bytes_take(ps, i as int, o, a);
                lemma_pieces_bytes_prefix(ps, i + 1, o, a);
            }
            let piece_end = logical + piece.len;
            let lo = if offset > logical {
                offset
            } else {
                logical
            };
            let hi = if wanted_end < piece_end {
                wanted_end
            } else {
                piece_end
            };
            if lo < hi {
                let source_start = piece.start + (lo - logical);
                let source_end = source_start + (hi - lo);
                self.append_source(&mut out, piece.source, source_start, source_end);
                proof {
                    assert(source_seq(piece.source, o, a).subrange(source_start as int, source_end as int)
                        =~= b.subrange(lo - logical, hi - logical));
                    assert((prefix + b).subrange(
                        imin(offset as int, piece_end as int),
                        imin(wanted_end as int, piece_end as int),
                    ) =~= prefix.subrange(
                        imin(offset as int, logical as int),
                        imin(wanted_end as int, logical as int),
                    ) + b.subrange(lo - logical, hi - logical));
                }
            } else {
                proof {
                    assert((prefix + b).subrange(
                        imin(offset as int, piece_end as int),
                        imin(wanted_end as int, piece_end as int),
                    ) =~= prefix.subrange(
                        imin(offset as int, logical as int),
                        imin(wanted_end as int, logical as int),
                    ));
                }
            }
            logical = piece_end;
            i = i + 1;
        }
        proof {
            assert(ps.take(ps.len() as int) =~= ps);
        }
        out
    }

    /// The byte at `offset`, if the document reaches that far.
    pub fn byte_at(&self, offset: u64) -> (b: Option<u8>)
        requires
            self.wf(),
        ensures
            b == (if offset < self@.len() {
                Some(self@[offset as int])
            } else {
                None::<u8>
            }),
    {
        let bytes = self.read_range(offset, 1);
        if bytes.len() > 0 {
            Some(bytes[0])
        } else {
            None
        }
    }

    /// All the document's bytes, in order.
    pub fn contents(&self) -> (out: Vec<u8>)
        requires
            self.wf(),
        ensures
            out@ == self@,
    {
        let mut out: Vec<u8> = Vec::new();
        let mut i: usize = 0;
        let ghost o = self.original@;
        let ghost a = self.adds();
        let ghost ps = self.pieces@;
        proof {
            assert(ps.take(0) =~= Seq::<Piece>::empty());
        }
        while i < self.pieces.len()
            invariant
                self.wf(),
                ps == self.pieces@,
                o == self.original@,
                a == self.adds(),
                i <= ps.len(),
                out@ == pieces_bytes(ps.take(i as int), o, a),
            decreases ps.len() - i,
        {
            let piece = self.pieces[i];
            proof {
                assert(piece_ok(piece, o, a));
                lemma_pieces_bytes_take(ps, i as int, o, a);
            }
            self.append_source(&mut out, piece.source, piece.start, piece.start + piece.len);
            i = i + 1;
        }
        proof {
            assert(ps.take(ps.len() as int) =~= ps);
        }
        out
    }

    fn snapshot(&self) -> (snap: DocumentSnapshot)
        requires
            self.wf(),
        ensures
            snapshot_ok(snap, self.original@, self.adds()),
            snapshot_state(snap, self.original@, self.adds()) == self.model().current,
    {
        DocumentSnapshot { pieces: copy_pieces(&self.pieces), len: self.len, dirty: self.dirty }
    }

    fn restore(&mut self, snap: DocumentSnapshot)
        requires
            snapshot_ok(snap, old(self).original@, old(self).adds()),
            snapshots_ok(old(self).undo_stack@, old(self).original@, old(self).adds()),
            snapshots_ok(old(self).redo_stack@, old(self).original@, old(self).adds()),
        ensures
            final(self).wf(),
            final(self).model().current == snapshot_state(snap, old(self).original@, old(self).adds()),
            final(self).original == old(self).original,
            final(self).additions == old(self).additions,
            final(self).undo_stack == old(self).undo_stack,
            final(self).redo_stack == old(self).redo_stack,
            final(self).path == old(self).path,
    {
        self.pieces = snap.pieces;
        self.len = snap.len;
        self.dirty = snap.dirty;
    }

    fn push_undo_snapshot(&mut self)
        requires
            old(self).wf(),
        ensures
            final(self).wf(),
            final(self).model() == (DocModel {
                current: old(self).model().current,
                undo: old(self).model().undo.push(old(self).model().current),
                redo: old(self).model().redo,
            }),
            final(self).original == old(self).original,
            final(self).additions == old(self).additions,
            final(self).pieces == old(self).pieces,
            final(self).len == old(self).len,
            final(self).path == old(self).path,
    {
        let snap = self.snapshot();
        let ghost o = self.original@;
        let ghost a = self.adds();
        self.undo_stack.push(snap);
        proof {
            assert(snapshot_ok(self.undo_stack@.last(), o, a));
            assert(snapshots_ok(self.undo_stack@, o, a)) by {
                assert forall|i: int| 0 <= i < self.undo_stack@.len() implies #[trigger] snapshot_ok(
                    self.undo_stack@[i],
                    o,
                    a,
                ) by {
                    if i < old(self).undo_stack@.len() {
                        assert(self.undo_stack@[i] == old(self).undo_stack@[i]);
                    }
                }
            }
            assert(snapshot_states(self.undo_stack@, o, a) =~= snapshot_states(
                old(self).undo_stack@,
                o,
                a,
            ).push(old(self).model().current));
        }
    }

    fn delete_inner(&mut self, start: u64, end: u64)
        requires
            old(self).wf(),
            start < end <= old(self)@.len(),
        ensures
            final(self).wf(),
            final(self)@ == old(self)@.take(start as int) + old(self)@.skip(end as int),
            final(self).original == old(self).original,
            final(self).additions == old(self).additions,
            final(self).undo_stack == old(self).undo_stack,
            final(self).redo_stack == old(self).redo_stack,
            final(self).dirty == old(self).dirty,
            final(self).path == old(self).path,
    {
        let next = delete_pieces(&self.pieces, start, end, Ghost(self.original@), Ghost(self.adds()));
        self.len = self.len - (end - start);
        self.pieces = next;
    }

    fn insert_inner(&mut self, offset: u64, bytes: Vec<u8>)
        requires
            old(self).wf(),
            offset <= old(self)@.len(),
            bytes@.len() > 0,
            old(self)@.len() + bytes@.len() <= u64::MAX,
        ensures
            final(self).wf(),
            final(self)@ == old(self)@.take(offset as int) + bytes@ + old(self)@.skip(offset as int),
            final(self).model().undo == old(self).model().undo,
            final(self).model().redo == old(self).model().redo,
            final(self).dirty == old(self).dirty,
            final(self).path == old(self).path,
    {
        let n = bytes.len() as u64;
        let add_ix = self.additions.len();
        let ghost o = self.original@;
        let ghost a = self.adds();
        let ghost x = bytes@;
        self.additions.push(bytes);
        proof {
            assert(self.adds() =~= a.push(x));
            lemma_fits_sub(self.pieces@, o, a);
            lemma_pieces_extend_adds(self.pieces@, o, a, x);
            lemma_snapshots_extend(self.undo_stack@, o, a, x);
            lemma_snapshots_extend(self.redo_stack@, o, a, x);
        }
        let inserted = Piece { source: Source::Add(add_ix), start: 0, len: n };
        proof {
            assert(piece_bytes(inserted, o, a.push(x)) =~= x);
        }
        let next = insert_pieces(&self.pieces, offset, inserted, Ghost(self.original@), Ghost(self.adds()));
        self.pieces = next;
        self.len = self.len + n;
    }

    /// Replaces the bytes `range` with `bytes` as one undoable edit; an edit
    /// that neither removes nor adds a byte changes nothing. A range that does
    /// not lie inside the document is refused.
    pub fn replace_range(&mut self, range: Range<u64>, bytes: Vec<u8>) -> (r: Result<(), EditError>)
        requires
            old(self).wf(),
            range.start <= range.end <= old(self)@.len() ==> old(self)@.len() - (range.end
                - range.start) + bytes@.len() <= u64::MAX,
        ensures
            final(self).wf(),
            final(self).path_spec() == old(self).path_spec(),
            r is Ok <==> range.start <= range.end <= old(self)@.len(),
            r is Ok ==> final(self).model() == spec_replace(
                old(self).model(),
                range.start as int,
                range.end as int,
                bytes@,
            ),
            r is Err ==> r == Err::<(), EditError>(
                EditError::RangeOutsideDocument {
                    start: range.start,
                    end: range.end,
                    len: old(self)@.len() as u64,
                },
            ) && final(self).model() == old(self).model(),
    {
        if range.start > range.end || range.end > self.len {
            return Err(EditError::RangeOutsideDocument { start: range.start, end: range.end, len: self.len });
        }
        if range.start == range.end && bytes.len() == 0 {
            return Ok(());
        }
        let ghost before = self.model();
        self.push_undo_snapshot();
        if range.start < range.end {
            self.delete_inner(range.start, range.end);
        }
        let ghost mid = self@;
        if bytes.len() > 0 {
            self.insert_inner(range.start, bytes);
        } else {
            proof {
                assert(mid.take(range.start as int) + bytes@ + mid.skip(range.start as int) =~= mid);
            }
        }
        self.redo_stack.clear();
        self.dirty = true;
        proof {
            let c = before.current.contents;
            let s = range.start as int;
            let e = range.end as int;
            if s < e {
                assert(mid == c.take(s) + c.skip(e));
            } else {
                assert(mid =~= c.take(s) + c.skip(e));
            }
            assert(mid.take(s) =~= c.take(s));
            assert(mid.skip(s) =~= c.skip(e));
            assert(self@ =~= splice(c, s, e, bytes@));
            assert(snapshot_states(self.redo_stack@, self.original@, self.adds()) =~= Seq::<DocState>::empty());
        }
        Ok(())
    }

    /// Inserts `bytes` before the byte at `offset` (at the end when `offset`
    /// is the length) as one undoable edit.
    pub fn insert(&mut self, offset: u64, bytes: Vec<u8>) -> (r: Result<(), EditError>)
        requires
            old(self).wf(),
            offset <= old(self)@.len() ==> old(self)@.len() + bytes@.len() <= u64::MAX,
        ensures
            final(self).wf(),
            final(self).path_spec() == old(self).path_spec(),
            r is Ok <==> offset <= old(self)@.len(),
            r is Ok ==> final(self).model() == spec_replace(
                old(self).model(),
                offset as int,
                offset as int,
                bytes@,
            ),
            r is Err ==> r == Err::<(), EditError>(
                EditError::RangeOutsideDocument { start: offset, end: offset, len: old(self)@.len() as u64 },
            ) && final(self).model() == old(self).model(),
    {
        self.replace_range(offset..offset, bytes)
    }

    /// Deletes the bytes `range` as one undoable edit.
    pub fn delete(&mut self, range: Range<u64>) -> (r: Result<(), EditError>)
        requires
            old(self).wf(),
        ensures
            final(self).wf(),
            final(self).path_spec() == old(self).path_spec(),
            r is Ok <==> range.start <= range.end <= old(self)@.len(),
            r is Ok ==> final(self).model() == spec_replace(
                old(self).model(),
                range.start as int,
                range.end as int,
                Seq::empty(),
            ),
            r is Err ==> r == Err::<(), EditError>(
                EditError::RangeOutsideDocument {
                    start: range.start,
                    end: range.end,
                    len: old(self)@.len() as u64,
                },
            ) && final(self).model() == old(self).model(),
    {
        let empty: Vec<u8> = Vec::new();
        self.replace_range(range, empty)
    }

    /// Writes `bytes` over the bytes from `offset` on, extending the document
    /// where they run past its end, as one undoable edit. An offset past the
    /// end is refused.
    pub fn overwrite(&mut self, offset: u64, bytes: Vec<u8>) -> (r: Result<(), EditError>)
        requires
            old(self).wf(),
            offset <= old(self)@.len() ==> offset + bytes@.len() <= u64::MAX,
        ensures
            final(self).wf(),
            final(self).path_spec() == old(self).path_spec(),
            r is Ok <==> offset <= old(self)@.len(),
            r is Ok ==> final(self).model() == spec_replace(
                old(self).model(),
                offset as int,
                imin(old(self)@.len() as int, offset + bytes@.len()),
                bytes@,
            ),
            r is Err ==> r == Err::<(), EditError>(
                EditError::OffsetPastEnd { offset, len: old(self)@.len() as u64 },
            ) && final(self).model() == old(self).model(),
    {
        if offset > self.len {
            return Err(EditError::OffsetPastEnd { offset, len: self.len });
        }
        let n = bytes.len() as u64;
        let end = if n < self.len - offset {
            offset + n
        } else {
            self.len
        };
        self.replace_range(offset..end, bytes)
    }

    /// Returns to the state before the last edit that is not undone; false
    /// when there is none.
    pub fn undo(&mut self) -> (b: bool)
        requires
            old(self).wf(),
        ensures
            final(self).wf(),
            final(self).path_spec() == old(self).path_spec(),
            b == (old(self).model().undo.len() > 0),
            final(self).model() == spec_undo(old(self).model()),
    {
        let ghost o = self.original@;
        let ghost a = self.adds();
        let ghost before = self.model();
        match self.undo_stack.pop() {
            None => false,
            Some(snap) => {
                proof {
                    assert(snapshot_ok(old(self).undo_stack@.last(), o, a));
                    assert(snapshot_states(self.undo_stack@, o, a) =~= before.undo.drop_last());
                }
                let current = self.snapshot_of_fields();
                self.restore(snap);
                self.redo_stack.push(current);
                proof {
                    assert(snapshots_ok(self.redo_stack@, o, a)) by {
                        assert forall|i: int| 0 <= i < self.redo_stack@.len() implies #[trigger] snapshot_ok(
                            self.redo_stack@[i],
                            o,
                            a,
                        ) by {
                            if i < old(self).redo_stack@.len() {
                                assert(self.redo_stack@[i] == old(self).redo_stack@[i]);
                            }
                        }
                    }
                    assert(snapshot_states(self.redo_stack@, o, a) =~= before.redo.push(before.current));
                }
                true
            },
        }
    }

    /// Re-applies the last undone edit; false when there is none.
    pub fn redo(&mut self) -> (b: bool)
        requires
            old(self).wf(),
        ensures
            final(self).wf(),
            final(self).path_spec() == old(self).path_spec(),
            b == (old(self).model().redo.len() > 0),
            final(self).model() == spec_redo(old(self).model()),
    {
        let ghost o = self.original@;
        let ghost a = self.adds();
        let ghost before = self.model();
        match self.redo_stack.pop() {
            None => false,
            Some(snap) => {
                proof {
                    assert(snapshot_ok(old(self).redo_stack@.last(), o, a));
                    assert(snapshot_states(self.redo_stack@, o, a) =~= before.redo.drop_last());
                }
                let current = self.snapshot_of_fields();
                self.restore(snap);
                self.undo_stack.push(current);
                proof {
                    assert(snapshots_ok(self.undo_stack@, o, a)) by {
                        assert forall|i: int| 0 <= i < self.undo_stack@.len() implies #[trigger] snapshot_ok(
                            self.undo_stack@[i],
                            o,
                            a,
                        ) by {
                            if i < old(self).undo_stack@.len() {
                                assert(self.undo_stack@[i] == old(self).undo_stack@[i]);
                            }
                        }
                    }
                    assert(snapshot_states(self.undo_stack@, o, a) =~= before.undo.push(before.current));
                }
                true
            },
        }
    }

    /// A snapshot of the current pieces, whatever the history holds.
    fn snapshot_of_fields(&self) -> (snap: DocumentSnapshot)
        requires
            pieces_ok(self.pieces@, self.original@, self.adds()),
            self.len == pieces_bytes(self.pieces@, self.original@, self.adds()).len(),
        ensures
            snapshot_ok(snap, self.original@, self.adds()),
            snapshot_state(snap, self.original@, self.adds()) == self.model().current,
    {
        DocumentSnapshot { pieces: copy_pieces(&self.pieces), len: self.len, dirty: self.dirty }
    }

    /// Records that the contents were written to `path`: the document takes
    /// that path, is clean and has no history.
    pub fn mark_saved(&mut self, path: &str)
        requires
            old(self).wf(),
        ensures
            final(self).wf(),
            final(self).path_spec() == Some(path@),
            final(self).model() == spec_saved(old(self).model()),
    {
        self.path = Some(path.to_owned());
        self.dirty = false;
        self.undo_stack.clear();
        self.redo_stack.clear();
        proof {
            assert(snapshot_states(self.undo_stack@, self.original@, self.adds()) =~= Seq::<DocState>::empty());
            assert(snapshot_states(self.redo_stack@, self.original@, self.adds()) =~= Seq::<DocState>::empty());
        }
    }
}

/// A path that is one plain file name on every platform: not empty, not `.`
/// or `..`, and free of `/`, `\` and `:`.
pub open spec fn plain_file_name(p: Seq<char>) -> bool {
    &&& p.len() > 0
    &&& p != seq!['.']
    &&& p != seq!['.', '.']
    &&& !p.contains('/')
    &&& !p.contains('\\')
    &&& !p.contains(':')
}

/// The text after the last `/` of `p`, all of `p` when it holds none.
pub open spec fn after_last_slash(p: Seq<char>) -> Seq<char>
    decreases p.len(),
{
    if p.len() == 0 {
        p
    } else if p.last() == '/' {
        Seq::empty()
    } else {
        after_last_slash(p.drop_last()).push(p.last())
    }
}

/// The final component of a path that every platform reads alike: one that
/// separates its components by `/` alone, holds no `\` and no `:`, does not
/// start with `//`, and ends in a plain file name. None for any other path.
pub open spec fn portable_file_name(p: Seq<char>) -> Option<Seq<char>> {
    if p.contains('\\') || p.contains(':') || (p.len() >= 2 && p[0] == '/' && p[1] == '/') {
        None
    } else if plain_file_name(after_last_slash(p)) {
        Some(after_last_slash(p))
    } else {
        None
    }
}

/// What the name shown for a document with `path` can be on any platform:
/// `Untitled` without a path; with one, some non-empty text, the path itself
/// when it is one plain file name, and its final component when every
/// platform reads it alike (`portable_file_name`).
pub open spec fn shown_name(path: Option<Seq<char>>, s: Seq<char>) -> bool {
    match path {
        None => s == "Untitled"@,
        Some(p) => {
            &&& s.len() > 0
            &&& plain_file_name(p) ==> s == p
            &&& portable_file_name(p) is Some ==> portable_file_name(p) == Some(s)
        },
    }
}

/// The final component of `path`, as `std::path::Path::file_name` finds it,
/// as text (`OsStr::to_string_lossy`, which keeps text that is UTF-8 as it
/// is). What counts as a separator depends on the platform; the contract
/// states what holds on every platform: a component found is never empty,
/// a path that is one plain file name is its own final component, and a path
/// that every platform reads alike ends in the component
/// `portable_file_name` gives.
#[verifier::external_body]
fn path_file_name(path: &str) -> (r: Option<String>)
    ensures
        match r {
            Some(n) => {
                &&& n@.len() > 0
                &&& plain_file_name(path@) ==> n@ == path@
                &&& portable_file_name(path@) is Some ==> portable_file_name(path@) == Some(n@)
            },
            None => !plain_file_name(path@) && portable_file_name(path@) is None,
        },
{
    match std::path::Path::new(path).file_name() {
        Some(n) => Some(n.to_string_lossy().into_owned()),
        None => None,
    }
}

/// The name shown for a file name that a path lookup gave, `Untitled` for
/// none.
pub fn display_name(file_name: Option<String>) -> (s: String)
    ensures
        s@ == match file_name {
            Some(n) => n@,
            None => "Untitled"@,
        },
{
    match file_name {
        Some(n) => n,
        None => String::from_str("Untitled"),
    }
}

} // verus!
