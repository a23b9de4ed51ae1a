//! Pieces of a piece table and what they spell out.
//!
//! A piece names a run of bytes in one of the document's sources: the bytes
//! the document was created with, or one of the byte blocks added by edits.
//! The document's contents are its pieces' runs, one after the other.

use vstd::prelude::*;

verus! {

/// Where the bytes of a piece live.
#[derive(Clone, Copy, PartialEq, Eq, Structural)]
pub enum Source {
    /// The bytes the document was created with.
    Original,
    /// The added block with this index.
    Add(usize),
}

/// A run of `len` bytes starting at `start` in `source`.
#[derive(Clone, Copy)]
pub struct Piece {
    pub source: Source,
    pub start: u64,
    pub len: u64,
}

impl Piece {
    /// The end of the piece's run in its source.
    pub fn end(&self) -> (e: u64)
        requires
            self.start + self.len <= u64::MAX,
        ensures
            e == self.start + self.len,
    {
        self.start + self.len
    }
}

/// The bytes of a source.
pub open spec fn source_seq(src: Source, original: Seq<u8>, adds: Seq<Seq<u8>>) -> Seq<u8> {
    match src {
        Source::Original => original,
        Source::Add(i) => adds[i as int],
    }
}

/// The piece names an existing source and its run lies inside it.
pub open spec fn piece_fits(p: Piece, original: Seq<u8>, adds: Seq<Seq<u8>>) -> bool {
    &&& (match p.source {
        Source::Add(i) => i < adds.len(),
        Source::Original => true,
    })
    &&& p.start + p.len <= source_seq(p.source, original, adds).len()
    &&& p.start + p.len <= u64::MAX
}

/// The piece fits and is not empty.
pub open spec fn piece_ok(p: Piece, original: Seq<u8>, adds: Seq<Seq<u8>>) -> bool {
    piece_fits(p, original, adds) && p.len > 0
}

pub open spec fn pieces_fit(ps: Seq<Piece>, original: Seq<u8>, adds: Seq<Seq<u8>>) -> bool {
    forall|i: int| 0 <= i < ps.len() ==> #[trigger] piece_fits(ps[i], original, adds)
}

pub open spec fn pieces_ok(ps: Seq<Piece>, original: Seq<u8>, adds: Seq<Seq<u8>>) -> bool {
    forall|i: int| 0 <= i < ps.len() ==> #[trigger] piece_ok(ps[i], original, adds)
}

/// The bytes a piece stands for.
pub open spec fn piece_bytes(p: Piece, original: Seq<u8>, adds: Seq<Seq<u8>>) -> Seq<u8> {
    source_seq(p.source, original, adds).subrange(p.start as int, p.start + p.len)
}

/// The bytes a list of pieces stands for.
pub open spec fn pieces_bytes(ps: Seq<Piece>, original: Seq<u8>, adds: Seq<Seq<u8>>) -> Seq<u8>
    decreases ps.len(),
{
    if ps.len() == 0 {
        Seq::empty()
    } else {
        pieces_bytes(ps.drop_last(), original, adds) + piece_bytes(ps.last(), original, adds)
    }
}

pub proof fn lemma_pieces_bytes_push(ps: Seq<Piece>, p: Piece, o: Seq<u8>, a: Seq<Seq<u8>>)
    ensures
        pieces_bytes(ps.push(p), o, a) == pieces_bytes(ps, o, a) + piece_bytes(p, o, a),
{
    assert(ps.push(p).drop_last() =~= ps);
}

pub proof fn lemma_pieces_bytes_take(ps: Seq<Piece>, i: int, o: Seq<u8>, a: Seq<Seq<u8>>)
    requires
        0 <= i < ps.len(),
    ensures
        pieces_bytes(ps.take(i + 1), o, a) == pieces_bytes(ps.take(i), o, a) + piece_bytes(
            ps[i],
            o,
            a,
        ),
{
    assert(ps.take(i + 1) =~= ps.take(i).push(ps[i]));
    lemma_pieces_bytes_push(ps.take(i), ps[i], o, a);
}

pub proof fn lemma_pieces_bytes_concat(x: Seq<Piece>, y: Seq<Piece>, o: Seq<u8>, a: Seq<Seq<u8>>)
    ensures
        pieces_bytes(x + y, o, a) == pieces_bytes(x, o, a) + pieces_bytes(y, o, a),
    decreases y.len(),
{
    if y.len() == 0 {
        assert(x + y =~= x);
        assert(pieces_bytes(x, o, a) + pieces_bytes(y, o, a) =~= pieces_bytes(x, o, a));
    } else {
        assert((x + y).drop_last() =~= x + y.drop_last());
        lemma_pieces_bytes_concat(x, y.drop_last(), o, a);
        assert(pieces_bytes(x + y, o, a) =~= pieces_bytes(x, o, a) + pieces_bytes(y, o, a));
    }
}

/// A prefix of the pieces spells out a prefix of the bytes.
pub proof fn lemma_pieces_bytes_prefix(ps: Seq<Piece>, i: int, o: Seq<u8>, a: Seq<Seq<u8>>)
    requires
        0 <= i <= ps.len(),
    ensures
        pieces_bytes(ps, o, a) == pieces_bytes(ps.take(i), o, a) + pieces_bytes(ps.skip(i), o, a),
        pieces_bytes(ps.take(i), o, a).len() <= pieces_bytes(ps, o, a).len(),
{
    assert(ps =~= ps.take(i) + ps.skip(i));
    lemma_pieces_bytes_concat(ps.take(i), ps.skip(i), o, a);
}

/// The pieces' lengths added up.
pub open spec fn pieces_len(ps: Seq<Piece>) -> int
    decreases ps.len(),
{
    if ps.len() == 0 {
        0
    } else {
        pieces_len(ps.drop_last()) + ps.last().len
    }
}

/// What fitting pieces spell out is as long as their lengths added up,
/// whatever the sources hold beyond their runs.
pub proof fn lemma_pieces_bytes_len(ps: Seq<Piece>, o: Seq<u8>, a: Seq<Seq<u8>>)
    requires
        pieces_fit(ps, o, a),
    ensures
        pieces_bytes(ps, o, a).len() == pieces_len(ps),
    decreases ps.len(),
{
    if ps.len() > 0 {
        assert(pieces_fit(ps.drop_last(), o, a)) by {
            assert forall|i: int| 0 <= i < ps.drop_last().len() implies #[trigger] piece_fits(
                ps.drop_last()[i],
                o,
                a,
            ) by {
                assert(ps.drop_last()[i] == ps[i]);
            }
        }
        assert(piece_fits(ps[ps.len() - 1], o, a));
        lemma_pieces_bytes_len(ps.drop_last(), o, a);
    }
}

/// Adding a block leaves what existing pieces stand for unchanged.
pub proof fn lemma_pieces_extend_adds(
    ps: Seq<Piece>,
    o: Seq<u8>,
    a: Seq<Seq<u8>>,
    x: Seq<u8>,
)
    requires
        pieces_fit(ps, o, a),
    ensures
        pieces_fit(ps, o, a.push(x)),
        pieces_ok(ps, o, a) ==> pieces_ok(ps, o, a.push(x)),
        pieces_bytes(ps, o, a.push(x)) == pieces_bytes(ps, o, a),
    decreases ps.len(),
{
    assert forall|i: int| 0 <= i < ps.len() implies #[trigger] piece_fits(ps[i], o, a.push(x)) by {
        assert(piece_fits(ps[i], o, a));
        match ps[i].source {
            Source::Add(k) => {
                assert(a.push(x)[k as int] == a[k as int]);
            },
            Source::Original => {},
        }
    }
    if pieces_ok(ps, o, a) {
        assert forall|i: int| 0 <= i < ps.len() implies #[trigger] piece_ok(ps[i], o, a.push(x)) by {
            assert(piece_ok(ps[i], o, a));
            assert(piece_fits(ps[i], o, a.push(x)));
        }
    }
    if ps.len() > 0 {
        let last = ps[ps.len() - 1];
        assert(piece_fits(last, o, a));
        match last.source {
            Source::Add(k) => {
                assert(a.push(x)[k as int] == a[k as int]);
            },
            Source::Original => {},
        }
        assert(piece_bytes(last, o, a.push(x)) == piece_bytes(last, o, a));
        assert(pieces_fit(ps.drop_last(), o, a)) by {
            assert forall|i: int| 0 <= i < ps.drop_last().len() implies #[trigger] piece_fits(
                ps.drop_last()[i],
                o,
                a,
            ) by {
                assert(ps.drop_last()[i] == ps[i]);
            }
        }
        lemma_pieces_extend_adds(ps.drop_last(), o, a, x);
    }
}


pub proof fn lemma_fits_sub(ps: Seq<Piece>, o: Seq<u8>, a: Seq<Seq<u8>>)
    requires
        pieces_ok(ps, o, a),
    ensures
        pieces_fit(ps, o, a),
{
    assert forall|i: int| 0 <= i < ps.len() implies #[trigger] piece_fits(ps[i], o, a) by {
        assert(piece_ok(ps[i], o, a));
    }
}

/// Copies a list of pieces.
pub fn copy_pieces(ps: &Vec<Piece>) -> (out: Vec<Piece>)
    ensures
        out@ == ps@,
{
    let mut out: Vec<Piece> = Vec::with_capacity(ps.len());
    let mut i: usize = 0;
    while i < ps.len()
        invariant
            i <= ps@.len(),
            out@ == ps@.take(i as int),
        decreases ps@.len() - i,
    {
        out.push(ps[i]);
        i = i + 1;
        assert(out@ =~= ps@.take(i as int));
    }
    assert(ps@.take(ps@.len() as int) =~= ps@);
    out
}

/// Two runs of one source that meet spell out the run that joins them.
proof fn lemma_merge(p: Piece, q: Piece, o: Seq<u8>, a: Seq<Seq<u8>>)
    requires
        piece_fits(p, o, a),
        piece_fits(q, o, a),
        p.source == q.source,
        p.start + p.len == q.start,
    ensures
        piece_fits(Piece { source: p.source, start: p.start, len: (p.len + q.len) as u64 }, o, a),
        piece_bytes(p, o, a) + piece_bytes(q, o, a) == piece_bytes(
            Piece { source: p.source, start: p.start, len: (p.len + q.len) as u64 },
            o,
            a,
        ),
{
    let s = source_seq(p.source, o, a);
    assert(s.subrange(p.start as int, p.start + p.len) + s.subrange(q.start as int, q.start + q.len)
        =~= s.subrange(p.start as int, q.start + q.len));
}

/// `p` and `q` are runs of one source and `q` starts where `p` ends.
pub open spec fn continues(p: Piece, q: Piece) -> bool {
    p.source == q.source && p.start + p.len == q.start
}

/// The pieces without the empty ones, neighbours that continue one another
/// joined into one.
pub open spec fn compacted(ps: Seq<Piece>) -> Seq<Piece>
    decreases ps.len(),
{
    if ps.len() == 0 {
        Seq::empty()
    } else {
        let out = compacted(ps.drop_last());
        let p = ps.last();
        if p.len == 0 {
            out
        } else if out.len() > 0 && continues(out.last(), p) {
            out.drop_last().push(Piece { source: p.source, start: out.last().start, len: (out.last().len + p.len) as u64 })
        } else {
            out.push(p)
        }
    }
}

/// Every run ends inside the range of `u64`.
pub open spec fn runs_bounded(ps: Seq<Piece>) -> bool {
    forall|i: int| 0 <= i < ps.len() ==> (#[trigger] ps[i]).start + ps[i].len <= u64::MAX
}

/// Compacting keeps what the pieces spell out, leaves no empty piece, and
/// never adds a piece.
pub proof fn lemma_compacted(ps: Seq<Piece>, o: Seq<u8>, a: Seq<Seq<u8>>)
    requires
        pieces_fit(ps, o, a),
    ensures
        pieces_ok(compacted(ps), o, a),
        pieces_bytes(compacted(ps), o, a) == pieces_bytes(ps, o, a),
        compacted(ps).len() <= ps.len(),
    decreases ps.len(),
{
    if ps.len() > 0 {
        let rest = ps.drop_last();
        assert forall|i: int| 0 <= i < rest.len() implies #[trigger] piece_fits(rest[i], o, a) by {
            assert(piece_fits(ps[i], o, a));
        }
        lemma_compacted(rest, o, a);
        let out = compacted(rest);
        let p = ps.last();
        assert(piece_fits(p, o, a));
        if p.len == 0 {
            assert(piece_bytes(p, o, a) =~= Seq::<u8>::empty());
            assert(pieces_bytes(rest, o, a) + piece_bytes(p, o, a) =~= pieces_bytes(rest, o, a));
        } else if out.len() > 0 && continues(out.last(), p) {
            let last = out.last();
            assert(piece_ok(out[out.len() - 1], o, a));
            let joined = Piece { source: p.source, start: last.start, len: (last.len + p.len) as u64 };
            lemma_merge(last, p, o, a);
            lemma_pieces_bytes_push(out.drop_last(), last, o, a);
            assert(out.drop_last().push(last) =~= out);
            lemma_pieces_bytes_push(out.drop_last(), joined, o, a);
            let res = out.drop_last().push(joined);
            assert forall|i: int| 0 <= i < res.len() implies #[trigger] piece_ok(res[i], o, a) by {
                if i < res.len() - 1 {
                    assert(res[i] == out[i]);
                }
            }
        } else {
            lemma_pieces_bytes_push(out, p, o, a);
            let res = out.push(p);
            assert forall|i: int| 0 <= i < res.len() implies #[trigger] piece_ok(res[i], o, a) by {
                if i < res.len() - 1 {
                    assert(res[i] == out[i]);
                }
            }
        }
    }
}

/// Compacting leaves no empty piece and no two neighbours of which the
/// second continues the first; every run still ends inside the range of
/// `u64`. With `lemma_compacted`, the pieces still spell out the same bytes.
pub proof fn lemma_compacted_maximal(ps: Seq<Piece>)
    requires
        runs_bounded(ps),
    ensures
        forall|i: int| 0 <= i < compacted(ps).len() ==> (#[trigger] compacted(ps)[i]).len > 0,
        forall|i: int|
            0 <= i < compacted(ps).len() - 1 ==> !continues(#[trigger] compacted(ps)[i], compacted(ps)[i + 1]),
        runs_bounded(compacted(ps)),
    decreases ps.len(),
{
    if ps.len() > 0 {
        let rest = ps.drop_last();
        assert forall|i: int| 0 <= i < rest.len() implies (#[trigger] rest[i]).start + rest[i].len <= u64::MAX by {
            assert(rest[i] == ps[i]);
        }
        lemma_compacted_maximal(rest);
        let out = compacted(rest);
        let p = ps.last();
        assert(p.start + p.len <= u64::MAX);
        let c = compacted(ps);
        if p.len == 0 {
        } else if out.len() > 0 && continues(out.last(), p) {
            let last = out.last();
            let joined = Piece { source: p.source, start: last.start, len: (last.len + p.len) as u64 };
            assert(last.len + p.len <= u64::MAX);
            assert(c == out.drop_last().push(joined));
            assert forall|i: int| 0 <= i < c.len() - 1 implies !continues(#[trigger] c[i], c[i + 1]) by {
                assert(c[i] == out[i]);
                if i + 1 < c.len() - 1 {
                    assert(c[i + 1] == out[i + 1]);
                } else {
                    assert(!continues(out[i], out[i + 1]));
                    assert(out[i + 1] == last);
                }
            }
            assert forall|i: int| 0 <= i < c.len() implies (#[trigger] c[i]).len > 0 by {
                if i < c.len() - 1 {
                    assert(c[i] == out[i]);
                }
            }
            assert forall|i: int| 0 <= i < c.len() implies (#[trigger] c[i]).start + c[i].len <= u64::MAX by {
                if i < c.len() - 1 {
                    assert(c[i] == out[i]);
                }
            }
        } else {
            assert(c == out.push(p));
            assert forall|i: int| 0 <= i < c.len() - 1 implies !continues(#[trigger] c[i], c[i + 1]) by {
                assert(c[i] == out[i]);
                if i + 1 < c.len() - 1 {
                    assert(c[i + 1] == out[i + 1]);
                }
            }
            assert forall|i: int| 0 <= i < c.len() implies (#[trigger] c[i]).len > 0 by {
                if i < c.len() - 1 {
                    assert(c[i] == out[i]);
                }
            }
            assert forall|i: int| 0 <= i < c.len() implies (#[trigger] c[i]).start + c[i].len <= u64::MAX by {
                if i < c.len() - 1 {
                    assert(c[i] == out[i]);
                }
            }
        }
    }
}

/// `compact_pieces` on pieces that fit their sources.
fn compact_pieces_fit(pieces: Vec<Piece>, Ghost(o): Ghost<Seq<u8>>, Ghost(a): Ghost<Seq<Seq<u8>>>) -> (out: Vec<Piece>)
    requires
        pieces_fit(pieces@, o, a),
    ensures
        pieces_ok(out@, o, a),
        pieces_bytes(out@, o, a) == pieces_bytes(pieces@, o, a),
        out@.len() <= pieces@.len(),
{
    proof {
        assert forall|i: int| 0 <= i < pieces@.len() implies (#[trigger] pieces@[i]).start + pieces@[i].len <= u64::MAX by {
            assert(piece_fits(pieces@[i], o, a));
        }
        lemma_compacted(pieces@, o, a);
    }
    compact_pieces(pieces)
}

/// Drops empty pieces and joins neighbours that continue one another in the
/// same source.
pub fn compact_pieces(pieces: Vec<Piece>) -> (out: Vec<Piece>)
    requires
        runs_bounded(pieces@),
    ensures
        out@ == compacted(pieces@),
{
    let mut out: Vec<Piece> = Vec::with_capacity(pieces.len());
    let mut i: usize = 0;
    while i < pieces.len()
        invariant
            i <= pieces@.len(),
            runs_bounded(pieces@),
            out@ == compacted(pieces@.take(i as int)),
            runs_bounded(out@),
        decreases pieces@.len() - i,
    {
        let piece = pieces[i];
        proof {
            assert(pieces@.take(i + 1).drop_last() =~= pieces@.take(i as int));
            assert(pieces@.take(i + 1).last() == piece);
            assert(piece.start + piece.len <= u64::MAX);
        }
        if piece.len > 0 {
            let n = out.len();
            let mut merged = false;
            if n > 0 {
                let last = out[n - 1];
                if last.source == piece.source && last.start + last.len == piece.start {
                    let joined = Piece { source: last.source, start: last.start, len: last.len + piece.len };
                    let ghost before = out@;
                    out.set(n - 1, joined);
                    proof {
                        assert(out@ =~= before.drop_last().push(joined));
                    }
                    merged = true;
                }
            }
            if !merged {
                out.push(piece);
            }
        }
        i = i + 1;
    }
    assert(pieces@.take(pieces@.len() as int) =~= pieces@);
    out
}


pub open spec fn imin(x: int, y: int) -> int {
    if x <= y {
        x
    } else {
        y
    }
}

pub open spec fn imax(x: int, y: int) -> int {
    if x >= y {
        x
    } else {
        y
    }
}

/// What a piece covering `[L, L + B.len())` keeps when `[s, e)` is cut out.
pub open spec fn kept_after_cut(b: Seq<u8>, l: int, s: int, e: int) -> Seq<u8> {
    let l2 = l + b.len();
    if l2 <= s || l >= e {
        b
    } else {
        (if s > l {
            b.subrange(0, s - l)
        } else {
            Seq::empty()
        }) + (if e < l2 {
            b.subrange(e - l, b.len() as int)
        } else {
            Seq::empty()
        })
    }
}

/// `p` with `[s, e)` cut out, as far as `p` reaches.
pub open spec fn cut_prefix(p: Seq<u8>, s: int, e: int) -> Seq<u8> {
    p.subrange(0, imin(s, p.len() as int)) + p.subrange(imin(e, p.len() as int), p.len() as int)
}

proof fn lemma_cut_step(p: Seq<u8>, b: Seq<u8>, s: int, e: int)
    requires
        0 <= s < e,
    ensures
        cut_prefix(p + b, s, e) == cut_prefix(p, s, e) + kept_after_cut(b, p.len() as int, s, e),
{
    let l = p.len() as int;
    let l2 = l + b.len();
    if l2 <= s {
        assert(cut_prefix(p + b, s, e) =~= cut_prefix(p, s, e) + b);
    } else if l >= e {
        assert(cut_prefix(p + b, s, e) =~= cut_prefix(p, s, e) + b);
    } else {
        assert(cut_prefix(p + b, s, e) =~= cut_prefix(p, s, e) + kept_after_cut(b, l, s, e));
    }
}

/// The pieces with the bytes `[start, end)` of what they spell out removed.
pub fn delete_pieces(
    pieces: &Vec<Piece>,
    start: u64,
    end: u64,
    Ghost(o): Ghost<Seq<u8>>,
    Ghost(a): Ghost<Seq<Seq<u8>>>,
) -> (out: Vec<Piece>)
    requires
        pieces_ok(pieces@, o, a),
        start < end <= pieces_bytes(pieces@, o, a).len(),
        pieces_bytes(pieces@, o, a).len() <= u64::MAX,
    ensures
        pieces_ok(out@, o, a),
        pieces_bytes(out@, o, a) == pieces_bytes(pieces@, o, a).take(start as int)
            + pieces_bytes(pieces@, o, a).skip(end as int),
{
    let ghost total = pieces_bytes(pieces@, o, a);
    let mut next: Vec<Piece> = Vec::with_capacity(pieces.len());
    let mut logical: u64 = 0;
    let mut i: usize = 0;
    proof {
        lemma_fits_sub(pieces@, o, a);
        assert(pieces@.take(0) =~= Seq::<Piece>::empty());
        assert(cut_prefix(Seq::<u8>::empty(), start as int, end as int) =~= Seq::<u8>::empty());
    }
    while i < pieces.len()
        invariant
            i <= pieces@.len(),
            pieces_ok(pieces@, o, a),
            pieces_fit(pieces@, o, a),
            total == pieces_bytes(pieces@, o, a),
            start < end <= total.len() <= u64::MAX,
            logical == pieces_bytes(pieces@.take(i as int), o, a).len(),
            pieces_ok(next@, o, a),
            pieces_bytes(next@, o, a) == cut_prefix(
                pieces_bytes(pieces@.take(i as int), o, a),
                start as int,
                end as int,
            ),
        decreases pieces@.len() - i,
    {
        let piece = pieces[i];
        let ghost prefix = pieces_bytes(pieces@.take(i as int), o, a);
        let ghost b = piece_bytes(piece, o, a);
        proof {
            assert(piece_ok(piece, o, a));
            lemma_pieces_bytes_take(pieces@, i as int, o, a);
            lemma_pieces_bytes_prefix(pieces@, i + 1, o, a);
            lemma_cut_step(prefix, b, start as int, end as int);
        }
        let piece_start = logical;
        let piece_end = logical + piece.len;
        if piece_end <= start || piece_start >= end {
            proof {
                lemma_pieces_bytes_push(next@, piece, o, a);
            }
            next.push(piece);
        } else {
            let ghost before = pieces_bytes(next@, o, a);
            if start > piece_start {
                let left = Piece { source: piece.source, start: piece.start, len: start - piece_start };
                proof {
                    lemma_pieces_bytes_push(next@, left, o, a);
                    assert(piece_bytes(left, o, a) =~= b.subrange(0, start - piece_start));
                }
                next.push(left);
            }
            let ghost mid = pieces_bytes(next@, o, a);
            if end < piece_end {
                let keep_start = end - piece_start;
                let right = Piece {
                    source: piece.source,
                    start: piece.start + keep_start,
                    len: piece_end - end,
                };
                proof {
                    lemma_pieces_bytes_push(next@, right, o, a);
                    assert(piece_bytes(right, o, a) =~= b.subrange(end - piece_start, b.len() as int));
                }
                next.push(right);
            }
            proof {
                assert(pieces_bytes(next@, o, a) =~= before + kept_after_cut(
                    b,
                    piece_start as int,
                    start as int,
                    end as int,
                ));
            }
        }
        logical = piece_end;
        i = i + 1;
    }
    proof {
        assert(pieces@.take(pieces@.len() as int) =~= pieces@);
        assert(cut_prefix(total, start as int, end as int) =~= total.take(start as int) + total.skip(end as int));
        lemma_fits_sub(next@, o, a);
    }
    compact_pieces_fit(next, Ghost(o), Ghost(a))
}

/// The pieces with `inserted` spliced in at byte `offset` of what they spell
/// out, splitting the piece that covers `offset` if there is one.
pub fn insert_pieces(
    pieces: &Vec<Piece>,
    offset: u64,
    inserted: Piece,
    Ghost(o): Ghost<Seq<u8>>,
    Ghost(a): Ghost<Seq<Seq<u8>>>,
) -> (out: Vec<Piece>)
    requires
        pieces_ok(pieces@, o, a),
        piece_ok(inserted, o, a),
        offset <= pieces_bytes(pieces@, o, a).len() <= u64::MAX,
    ensures
        pieces_ok(out@, o, a),
        pieces_bytes(out@, o, a) == pieces_bytes(pieces@, o, a).take(offset as int) + piece_bytes(
            inserted,
            o,
            a,
        ) + pieces_bytes(pieces@, o, a).skip(offset as int),
{
    let ghost total = pieces_bytes(pieces@, o, a);
    let ghost x = piece_bytes(inserted, o, a);
    let mut next: Vec<Piece> = Vec::with_capacity(pieces.len());
    let mut logical: u64 = 0;
    let mut inserted_done = false;
    let mut i: usize = 0;
    proof {
        lemma_fits_sub(pieces@, o, a);
        assert(pieces@.take(0) =~= Seq::<Piece>::empty());
    }
    while i < pieces.len()
        invariant
            i <= pieces@.len(),
            pieces_ok(pieces@, o, a),
            pieces_fit(pieces@, o, a),
            piece_ok(inserted, o, a),
            x == piece_bytes(inserted, o, a),
            total == pieces_bytes(pieces@, o, a),
            offset <= total.len() <= u64::MAX,
            logical == pieces_bytes(pieces@.take(i as int), o, a).len(),
            pieces_ok(next@, o, a),
            !inserted_done ==> offset >= logical,
            !inserted_done ==> pieces_bytes(next@, o, a) == pieces_bytes(
                pieces@.take(i as int),
                o,
                a,
            ),
            inserted_done ==> offset <= logical,
            inserted_done ==> pieces_bytes(next@, o, a) == pieces_bytes(
                pieces@.take(i as int),
                o,
                a,
            ).take(offset as int) + x + pieces_bytes(pieces@.take(i as int), o, a).skip(
                offset as int,
            ),
        decreases pieces@.len() - i,
    {
        let piece = pieces[i];
        let ghost prefix = pieces_bytes(pieces@.take(i as int), o, a);
        let ghost b = piece_bytes(piece, o, a);
        proof {
            assert(piece_ok(piece, o, a));
            lemma_pieces_bytes_take(pieces@, i as int, o, a);
            lemma_pieces_bytes_prefix(pieces@, i + 1, o, a);
        }
        if !inserted_done && offset <= logical {
            proof {
                lemma_pieces_bytes_push(next@, inserted, o, a);
                assert(prefix.take(offset as int) + x + prefix.skip(offset as int) =~= prefix + x);
            }
            next.push(inserted);
            inserted_done = true;
        }
        let piece_end = logical + piece.len;
        if !inserted_done && offset > logical && offset < piece_end {
            let left_len = offset - logical;
            let left = Piece { source: piece.source, start: piece.start, len: left_len };
            let right = Piece {
                source: piece.source,
                start: piece.start + left_len,
                len: piece.len - left_len,
            };
            proof {
                lemma_pieces_bytes_push(next@, left, o, a);
                lemma_pieces_bytes_push(next@.push(left), inserted, o, a);
                lemma_pieces_bytes_push(next@.push(left).push(inserted), right, o, a);
                assert(piece_bytes(left, o, a) =~= b.take(left_len as int));
                assert(piece_bytes(right, o, a) =~= b.skip(left_len as int));
                assert((prefix + b).take(offset as int) + x + (prefix + b).skip(offset as int)
                    =~= prefix + b.take(left_len as int) + x + b.skip(left_len as int));
            }
            next.push(left);
            next.push(inserted);
            next.push(right);
            inserted_done = true;
        } else {
            proof {
                lemma_pieces_bytes_push(next@, piece, o, a);
                if inserted_done {
                    assert(prefix.take(offset as int) + x + prefix.skip(offset as int) + b
                        =~= (prefix + b).take(offset as int) + x + (prefix + b).skip(offset as int));
                }
            }
            next.push(piece);
        }
        logical = piece_end;
        i = i + 1;
    }
    proof {
        assert(pieces@.take(pieces@.len() as int) =~= pieces@);
    }
    if !inserted_done {
        proof {
            lemma_pieces_bytes_push(next@, inserted, o, a);
            assert(total.take(offset as int) + x + total.skip(offset as int) =~= total + x);
        }
        next.push(inserted);
    }
    proof {
        lemma_fits_sub(next@, o, a);
    }
    compact_pieces_fit(next, Ghost(o), Ghost(a))
}

} // verus!
