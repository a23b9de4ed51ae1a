//! Searching a document for a byte pattern.

use vstd::prelude::*;

use crate::document::{spec_read, ByteDocument};

verus! {

/// `needle` occurs in `c` at `p`.
pub open spec fn matches_at(c: Seq<u8>, needle: Seq<u8>, p: int) -> bool {
    &&& 0 <= p
    &&& p + needle.len() <= c.len()
    &&& c.subrange(p, p + needle.len()) == needle
}

/// Whether `needle` occurs in `bytes` at `p`.
fn equal_at(bytes: &Vec<u8>, p: usize, needle: &[u8]) -> (b: bool)
    requires
        p + needle@.len() <= bytes@.len(),
    ensures
        b == matches_at(bytes@, needle@, p as int),
{
    let blen = bytes.len();
    let mut k: usize = 0;
    while k < needle.len()
        invariant
            blen == bytes@.len(),
            k <= needle@.len(),
            p + needle@.len() <= bytes@.len(),
            bytes@.subrange(p as int, p + k) == needle@.take(k as int),
        decreases needle@.len() - k,
    {
        if bytes[p + k] != needle[k] {
            assert(bytes@.subrange(p as int, p + needle@.len())[k as int] != needle@[k as int]);
            return false;
        }
        k = k + 1;
        assert(bytes@.subrange(p as int, p + k) =~= needle@.take(k as int));
    }
    assert(needle@.take(needle@.len() as int) =~= needle@);
    true
}

/// The first position at which `needle` occurs in `bytes`.
pub(crate) fn position_in(bytes: &Vec<u8>, needle: &[u8]) -> (r: Option<usize>)
    requires
        needle@.len() > 0,
    ensures
        r matches Some(p) ==> matches_at(bytes@, needle@, p as int) && forall|q: int|
            0 <= q < p ==> !#[trigger] matches_at(bytes@, needle@, q),
        r is None ==> forall|q: int| !#[trigger] matches_at(bytes@, needle@, q),
{
    if bytes.len() < needle.len() {
        return None;
    }
    let last = bytes.len() - needle.len();
    let mut p: usize = 0;
    while p <= last
        invariant
            last + needle@.len() == bytes@.len(),
            bytes@.len() <= usize::MAX,
            needle@.len() > 0,
            p <= last + 1,
            forall|q: int| 0 <= q < p ==> !#[trigger] matches_at(bytes@, needle@, q),
        decreases last + 1 - p,
    {
        if equal_at(bytes, p, needle) {
            return Some(p);
        }
        p = p + 1;
    }
    None
}

/// The first offset at or after `start` where `needle` occurs in the
/// document; none for an empty needle or a start at or past the end.
///
/// The document is read in windows of at least a mebibyte that overlap by
/// one byte less than the needle, so a match across two windows is found.
pub fn find_bytes(haystack: &ByteDocument, needle: &[u8], start: u64) -> (r: Option<u64>)
    requires
        haystack.wf(),
        needle@.len() * 2 <= usize::MAX,
    ensures
        r is None ==> needle@.len() == 0 || forall|q: int|
            start <= q ==> !#[trigger] matches_at(haystack@, needle@, q),
        r matches Some(p) ==> {
            &&& needle@.len() > 0
            &&& start <= p
            &&& matches_at(haystack@, needle@, p as int)
            &&& forall|q: int| start <= q < p ==> !#[trigger] matches_at(haystack@, needle@, q)
        },
        needle@.len() > 0 ==> match first_match(haystack@, needle@, start as int) {
            Some(p) => r == Some(p as u64),
            None => r is None,
        },
{
    let len = haystack.len();
    if needle.len() == 0 || start >= len {
        proof {
            if needle@.len() > 0 {
                lemma_first_match_none(haystack@, needle@, start as int);
            }
        }
        return None;
    }
    let n = needle.len();
    let window_len: usize = if n * 2 > 1024 * 1024 {
        n * 2
    } else {
        1024 * 1024
    };
    let overlap: u64 = (n - 1) as u64;
    let ghost c = haystack@;
    let mut offset: u64 = start;
    while offset < len
        invariant
            haystack.wf(),
            c == haystack@,
            len == c.len(),
            n == needle@.len(),
            n > 0,
            window_len >= 2 * n,
            overlap == n - 1,
            start <= offset,
            forall|q: int| start <= q < offset ==> !#[trigger] matches_at(c, needle@, q),
        decreases len - offset,
    {
        let bytes = haystack.read_range(offset, window_len);
        assert(bytes@ == spec_read(c, offset as int, window_len as int));
        let found = position_in(&bytes, needle);
        match found {
            Some(pos) => {
                proof {
                    assert(bytes@.subrange(pos as int, pos + n) =~= c.subrange(
                        offset + pos,
                        offset + pos + n,
                    ));
                    assert forall|q: int| start <= q < offset + pos implies !#[trigger] matches_at(
                        c,
                        needle@,
                        q,
                    ) by {
                        if q >= offset {
                            assert(bytes@.subrange(q - offset, q - offset + n) =~= c.subrange(
                                q,
                                q + n,
                            ));
                            assert(!matches_at(bytes@, needle@, q - offset));
                        }
                    }
                    lemma_first_match_some(c, needle@, start as int, offset + pos);
                }
                return Some(offset + pos as u64);
            },
            None => {},
        }
        if bytes.len() < window_len {
            proof {
                assert forall|q: int| start <= q implies !#[trigger] matches_at(c, needle@, q) by {
                    if q >= offset && q + n <= c.len() {
                        assert(bytes@.subrange(q - offset, q - offset + n) =~= c.subrange(
                            q,
                            q + n,
                        ));
                        assert(!matches_at(bytes@, needle@, q - offset));
                    }
                }
                lemma_first_match_none(c, needle@, start as int);
            }
            return None;
        }
        let step: u64 = bytes.len() as u64 - overlap;
        proof {
            assert forall|q: int| start <= q < offset + step implies !#[trigger] matches_at(
                c,
                needle@,
                q,
            ) by {
                if q >= offset && q + n <= c.len() {
                    assert(bytes@.subrange(q - offset, q - offset + n) =~= c.subrange(q, q + n));
                    assert(!matches_at(bytes@, needle@, q - offset));
                }
            }
        }
        offset = offset + step;
    }
    proof {
        lemma_first_match_none(c, needle@, start as int);
    }
    None
}


/// The first position at or after `start` where `needle` occurs in `c`.
pub open spec fn first_match(c: Seq<u8>, needle: Seq<u8>, start: int) -> Option<int>
    decreases c.len() + 1 - start,
{
    if start < 0 || start + needle.len() > c.len() {
        None
    } else if matches_at(c, needle, start) {
        Some(start)
    } else {
        first_match(c, needle, start + 1)
    }
}

/// A match with none before it from `start` on is the first match.
pub proof fn lemma_first_match_some(c: Seq<u8>, needle: Seq<u8>, start: int, p: int)
    requires
        0 <= start <= p,
        matches_at(c, needle, p),
        forall|q: int| start <= q < p ==> !#[trigger] matches_at(c, needle, q),
    ensures
        first_match(c, needle, start) == Some(p),
    decreases p - start,
{
    if start < p {
        assert(!matches_at(c, needle, start));
        lemma_first_match_some(c, needle, start + 1, p);
    }
}

/// A first match from `start` on lies inside the sequence, at or after
/// `start`.
pub proof fn lemma_first_match_bounds(c: Seq<u8>, needle: Seq<u8>, start: int)
    ensures
        first_match(c, needle, start) matches Some(p) ==> start <= p && p + needle.len() <= c.len()
            && matches_at(c, needle, p),
    decreases c.len() + 1 - start,
{
    if start >= 0 && start + needle.len() <= c.len() && !matches_at(c, needle, start) {
        lemma_first_match_bounds(c, needle, start + 1);
    }
}

/// With no match from `start` on there is no first match.
pub proof fn lemma_first_match_none(c: Seq<u8>, needle: Seq<u8>, start: int)
    requires
        0 <= start,
        forall|q: int| start <= q ==> !#[trigger] matches_at(c, needle, q),
    ensures
        first_match(c, needle, start) is None,
    decreases c.len() + 1 - start,
{
    if start + needle.len() <= c.len() {
        assert(!matches_at(c, needle, start));
        lemma_first_match_none(c, needle, start + 1);
    }
}

} // verus!
