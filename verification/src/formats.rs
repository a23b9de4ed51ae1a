//! Read-only fields of recognised file formats, and what they share: the
//! field list capped at a maximum, byte reads that fall back to a default,
//! and value texts.

use vstd::prelude::*;
use vstd::string::*;

use crate::document::{spec_read, ByteDocument};
use crate::inspector::{printable_char, printable_or_dot};
use crate::numbers::{read_uint, signed_of, to_signed, uint_of, Endianness};
use crate::text::{append_padded, append_signed_decimal, push_char, spec_decimal, spec_hex, spec_signed_decimal};

verus! {

/// A decoded field: the bytes `[offset, offset + len)`, what they are, what
/// they mean and how they read.
#[derive(Debug, Clone, PartialEq, Eq)]
pub struct FormatField {
    pub offset: u64,
    pub len: u64,
    pub name: String,
    pub meaning: String,
    pub value: String,
}

/// The fields decoded from a document, under the format's name.
#[derive(Debug, Clone, PartialEq, Eq)]
pub struct FormatSummary {
    pub format: String,
    pub fields: Vec<FormatField>,
}

/// A field as plain values.
pub struct FieldSpec {
    pub offset: int,
    pub len: int,
    pub name: Seq<char>,
    pub meaning: Seq<char>,
    pub value: Seq<char>,
}

pub open spec fn fs(offset: int, len: int, name: Seq<char>, meaning: Seq<char>, value: Seq<char>) -> FieldSpec {
    FieldSpec { offset, len, name, meaning, value }
}

impl FormatField {
    pub open spec fn spec(self) -> FieldSpec {
        fs(self.offset as int, self.len as int, self.name@, self.meaning@, self.value@)
    }

    /// Whether `offset` lies inside the field.
    pub fn contains(&self, offset: u64) -> (b: bool)
        requires
            self.offset + self.len <= u64::MAX,
        ensures
            b == (self.offset <= offset && offset < self.offset + self.len),
    {
        self.offset <= offset && offset < self.offset + self.len
    }
}

pub open spec fn fields_view(fields: Seq<FormatField>) -> Seq<FieldSpec> {
    fields.map_values(|f: FormatField| f.spec())
}

/// A field joins the list if the list is not full and the field is not empty.
pub open spec fn push_spec(fields: Seq<FieldSpec>, max: nat, f: FieldSpec) -> Seq<FieldSpec> {
    if fields.len() < max && f.len > 0 {
        fields.push(f)
    } else {
        fields
    }
}

/// `acc` with the candidate fields offered one after the other.
pub open spec fn fold_fields(acc: Seq<FieldSpec>, cands: Seq<FieldSpec>, max: nat) -> Seq<FieldSpec>
    decreases cands.len(),
{
    if cands.len() == 0 {
        acc
    } else {
        push_spec(fold_fields(acc, cands.drop_last(), max), max, cands.last())
    }
}

/// The non-empty candidates, at most `max` of them, in order.
pub open spec fn capped(cands: Seq<FieldSpec>, max: nat) -> Seq<FieldSpec> {
    fold_fields(Seq::empty(), cands, max)
}

pub proof fn lemma_fold_concat(acc: Seq<FieldSpec>, a: Seq<FieldSpec>, b: Seq<FieldSpec>, max: nat)
    ensures
        fold_fields(acc, a + b, max) == fold_fields(fold_fields(acc, a, max), b, max),
    decreases b.len(),
{
    if b.len() == 0 {
        assert(a + b =~= a);
    } else {
        assert((a + b).drop_last() =~= a + b.drop_last());
        lemma_fold_concat(acc, a, b.drop_last(), max);
    }
}

/// Offering one candidate is one push.
pub proof fn lemma_fold_single(acc: Seq<FieldSpec>, x: FieldSpec, max: nat)
    ensures
        fold_fields(acc, seq![x], max) == push_spec(acc, max, x),
{
    assert(seq![x].drop_last() =~= Seq::<FieldSpec>::empty());
    assert(fold_fields(acc, Seq::<FieldSpec>::empty(), max) == acc);
}

/// Once the list is full, no candidate changes it.
pub proof fn lemma_fold_full(acc: Seq<FieldSpec>, b: Seq<FieldSpec>, max: nat)
    requires
        acc.len() >= max,
    ensures
        fold_fields(acc, b, max) == acc,
    decreases b.len(),
{
    if b.len() > 0 {
        lemma_fold_full(acc, b.drop_last(), max);
    }
}

/// The list never grows past `max`, nor past what it started with and the
/// number of candidates.
pub proof fn lemma_fold_len(acc: Seq<FieldSpec>, b: Seq<FieldSpec>, max: nat)
    ensures
        fold_fields(acc, b, max).len() <= acc.len() + b.len(),
        acc.len() <= max ==> fold_fields(acc, b, max).len() <= max,
    decreases b.len(),
{
    if b.len() > 0 {
        lemma_fold_len(acc, b.drop_last(), max);
    }
}

/// Offered candidates never add an empty field.
proof fn lemma_fold_nonempty(acc: Seq<FieldSpec>, b: Seq<FieldSpec>, max: nat)
    requires
        forall|i: int| 0 <= i < acc.len() ==> (#[trigger] acc[i]).len > 0,
    ensures
        forall|i: int| 0 <= i < fold_fields(acc, b, max).len() ==> (#[trigger] fold_fields(acc, b, max)[i]).len > 0,
    decreases b.len(),
{
    if b.len() > 0 {
        lemma_fold_nonempty(acc, b.drop_last(), max);
        let prev = fold_fields(acc, b.drop_last(), max);
        let f = b.last();
        let next = fold_fields(acc, b, max);
        assert(next == push_spec(prev, max, f));
        assert forall|i: int| 0 <= i < next.len() implies (#[trigger] next[i]).len > 0 by {
            if i < prev.len() {
                assert(prev[i].len > 0);
                if prev.len() < max && f.len > 0 {
                    assert(next[i] == prev[i]);
                }
            }
        }
    } else {
        assert(fold_fields(acc, b, max) == acc);
    }
}

/// A format's summary holds at most `max` fields, none of them empty, and
/// the first of them are the first non-empty candidates.
pub proof fn lemma_capped_bounds(cands: Seq<FieldSpec>, max: nat)
    ensures
        capped(cands, max).len() <= max,
        capped(cands, max).len() <= cands.len(),
        forall|i: int| 0 <= i < capped(cands, max).len() ==> (#[trigger] capped(cands, max)[i]).len > 0,
{
    lemma_fold_len(Seq::empty(), cands, max);
    lemma_fold_nonempty(Seq::empty(), cands, max);
}

/// Adds `f` if the list is not full and `f` is not empty.
pub fn push_field(fields: &mut Vec<FormatField>, max_fields: usize, f: FormatField)
    ensures
        fields_view(final(fields)@) == push_spec(fields_view(old(fields)@), max_fields as nat, f.spec()),
{
    if fields.len() < max_fields && f.len > 0 {
        fields.push(f);
        assert(fields_view(fields@) =~= fields_view(old(fields)@).push(f.spec()));
    }
}

/// Appends a candidate field.
pub fn push_cand(cands: &mut Vec<FormatField>, f: FormatField)
    ensures
        fields_view(final(cands)@) == fields_view(old(cands)@).push(f.spec()),
{
    cands.push(f);
    assert(fields_view(cands@) =~= fields_view(old(cands)@).push(f.spec()));
}

/// No candidate fields yet.
pub fn no_cands() -> (cands: Vec<FormatField>)
    ensures
        fields_view(cands@) == Seq::<FieldSpec>::empty(),
{
    let v: Vec<FormatField> = Vec::new();
    assert(fields_view(v@) =~= Seq::<FieldSpec>::empty());
    v
}

/// Offers each candidate in turn.
pub fn push_all(fields: &mut Vec<FormatField>, max_fields: usize, cands: Vec<FormatField>)
    ensures
        fields_view(final(fields)@) == fold_fields(
            fields_view(old(fields)@),
            fields_view(cands@),
            max_fields as nat,
        ),
{
    let ghost start = fields_view(fields@);
    let ghost cs = cands@;
    let ghost cv = fields_view(cands@);
    for f in it: cands.into_iter()
        invariant
            it.seq() == cs,
            cv == fields_view(cs),
            fields_view(fields@) == fold_fields(start, cv.take(it.index() as int), max_fields as nat),
    {
        proof {
            assert(cv.take(it.index() + 1).drop_last() =~= cv.take(it.index() as int));
            assert(cv.take(it.index() + 1).last() == f.spec());
        }
        push_field(fields, max_fields, f);
    }
    assert(cv.take(cv.len() as int) =~= cv);
}


/// The unsigned `n`-byte value at `offset`, if the document holds those bytes.
pub open spec fn spec_uint_at(c: Seq<u8>, offset: int, n: nat, e: Endianness) -> Option<nat> {
    if 0 <= offset && offset + n <= c.len() {
        Some(uint_of(c.subrange(offset, offset + n), e))
    } else {
        None
    }
}

/// The unsigned `n`-byte value at `offset`, or 0 past the end.
pub open spec fn uint_or_zero(c: Seq<u8>, offset: int, n: nat, e: Endianness) -> nat {
    match spec_uint_at(c, offset, n, e) {
        Some(v) => v,
        None => 0,
    }
}

/// The signed `n`-byte value at `offset`, or 0 past the end.
pub open spec fn int_or_zero(c: Seq<u8>, offset: int, n: nat, e: Endianness) -> int {
    signed_of(uint_or_zero(c, offset, n, e), 8 * n)
}

/// The `n` bytes at `offset` as ASCII with `.` for what does not print, if
/// the document holds those bytes.
pub open spec fn spec_ascii_at(c: Seq<u8>, offset: int, n: nat) -> Option<Seq<char>> {
    if n == 0 {
        Some(Seq::empty())
    } else if 0 <= offset && offset + n <= c.len() {
        Some(c.subrange(offset, offset + n).map_values(|b: u8| printable_or_dot(b)))
    } else {
        None
    }
}

/// The ASCII text at `offset`, or `default` past the end.
pub open spec fn ascii_or(c: Seq<u8>, offset: int, n: nat, default: Seq<char>) -> Seq<char> {
    match spec_ascii_at(c, offset, n) {
        Some(s) => s,
        None => default,
    }
}

/// The unsigned `n`-byte value at `offset`, if the document holds those bytes.
pub fn read_uint_at(doc: &ByteDocument, offset: u64, n: usize, e: Endianness) -> (r: Option<u64>)
    requires
        doc.wf(),
        1 <= n <= 8,
    ensures
        match r {
            Some(v) => spec_uint_at(doc@, offset as int, n as nat, e) == Some(v as nat),
            None => spec_uint_at(doc@, offset as int, n as nat, e) is None,
        },
{
    let bytes = doc.read_range(offset, n);
    assert(bytes@ == spec_read(doc@, offset as int, n as int));
    if bytes.len() == n {
        let v = read_uint(bytes.as_slice(), 0, n, e);
        assert(bytes@.subrange(0, n as int) =~= doc@.subrange(offset as int, offset + n));
        Some(v)
    } else {
        None
    }
}

/// The unsigned `n`-byte value at `offset`, or 0 past the end.
pub fn read_uint_or_zero(doc: &ByteDocument, offset: u64, n: usize, e: Endianness) -> (v: u64)
    requires
        doc.wf(),
        1 <= n <= 8,
    ensures
        v == uint_or_zero(doc@, offset as int, n as nat, e),
{
    match read_uint_at(doc, offset, n, e) {
        Some(v) => v,
        None => 0,
    }
}

/// The `n` bytes at `offset` as ASCII, if the document holds them.
pub fn read_ascii(doc: &ByteDocument, offset: u64, n: usize) -> (r: Option<String>)
    requires
        doc.wf(),
    ensures
        match r {
            Some(s) => spec_ascii_at(doc@, offset as int, n as nat) == Some(s@),
            None => spec_ascii_at(doc@, offset as int, n as nat) is None,
        },
{
    let bytes = doc.read_range(offset, n);
    assert(bytes@ == spec_read(doc@, offset as int, n as int));
    if bytes.len() != n {
        return None;
    }
    let mut out = String::new();
    let mut k: usize = 0;
    while k < n
        invariant
            bytes@.len() == n,
            k <= n,
            out@ == bytes@.take(k as int).map_values(|b: u8| printable_or_dot(b)),
        decreases n - k,
    {
        push_char(&mut out, printable_char(bytes[k]));
        k = k + 1;
        assert(out@ =~= bytes@.take(k as int).map_values(|b: u8| printable_or_dot(b)));
    }
    proof {
        assert(bytes@.take(n as int) =~= bytes@);
        if n > 0 {
            assert(bytes@ =~= doc@.subrange(offset as int, offset + n));
        } else {
            assert(out@ =~= Seq::<char>::empty());
        }
    }
    Some(out)
}

/// A string holding `s`.
pub fn lit(s: &str) -> (r: String)
    ensures
        r@ == s@,
{
    String::from_str(s)
}

/// `a` followed by `b`.
pub fn cat(a: String, b: &str) -> (r: String)
    ensures
        r@ == a@ + b@,
{
    a.concat(b)
}

/// `a` followed by `b`.
pub fn cat_string(a: String, b: String) -> (r: String)
    ensures
        r@ == a@ + b@,
{
    a.concat(b.as_str())
}

/// `n` in decimal.
pub fn dec_text(n: u64) -> (s: String)
    ensures
        s@ == spec_decimal(n as nat),
{
    let mut s = String::new();
    append_padded(&mut s, n, 10, 0);
    assert(s@ =~= spec_decimal(n as nat));
    s
}

pub open spec fn spec_bytes_text(n: nat) -> Seq<char> {
    spec_decimal(n) + " bytes"@
}

/// `n` in decimal followed by ` bytes`.
pub fn bytes_text(n: u64) -> (s: String)
    ensures
        s@ == spec_bytes_text(n as nat),
{
    cat(dec_text(n), " bytes")
}

pub open spec fn spec_hex_text(n: nat, width: nat) -> Seq<char> {
    "0x"@ + spec_hex(n, width)
}

/// `0x` and `n` in upper-case hexadecimal padded to `width` digits.
pub fn hex_text(n: u64, width: usize) -> (s: String)
    ensures
        s@ == spec_hex_text(n as nat, width as nat),
{
    let mut s = lit("0x");
    append_padded(&mut s, n, 16, width);
    s
}

/// A signed value in decimal.
pub fn signed_text(v: i64) -> (s: String)
    ensures
        s@ == spec_signed_decimal(v as int),
{
    let mut s = String::new();
    append_signed_decimal(&mut s, v);
    assert(s@ =~= spec_signed_decimal(v as int));
    s
}

/// The signed `n`-byte value at `offset`, or 0 past the end.
pub fn read_int_or_zero(doc: &ByteDocument, offset: u64, n: usize, e: Endianness) -> (v: i64)
    requires
        doc.wf(),
        n == 1 || n == 2 || n == 4 || n == 8,
    ensures
        v == int_or_zero(doc@, offset as int, n as nat, e),
{
    let u = read_uint_or_zero(doc, offset, n, e);
    proof {
        crate::numbers::lemma_pow_values();
        crate::numbers::lemma_uint_bound(doc@, offset as int, n as nat, e);
    }
    to_signed(u, 8 * n as u64)
}

pub open spec fn spec_coded_text(code: nat, name: Seq<char>) -> Seq<char> {
    spec_decimal(code) + " ("@ + name + ")"@
}

/// A code in decimal followed by its name in brackets.
pub fn coded_text(code: u64, name: &str) -> (s: String)
    ensures
        s@ == spec_coded_text(code as nat, name@),
{
    let s = cat(dec_text(code), " (");
    let s = cat(s, name);
    cat(s, ")")
}

/// A field of `len` bytes at `offset`.
pub fn field(offset: u64, len: u64, name: String, meaning: &str, value: String) -> (f: FormatField)
    ensures
        f.spec() == fs(offset as int, len as int, name@, meaning@, value@),
{
    FormatField { offset, len, name, meaning: lit(meaning), value }
}


pub open spec fn u16_le_at(c: Seq<u8>, offset: int) -> nat {
    uint_or_zero(c, offset, 2, Endianness::Little)
}

pub open spec fn u32_le_at(c: Seq<u8>, offset: int) -> nat {
    uint_or_zero(c, offset, 4, Endianness::Little)
}

pub open spec fn u16_be_at(c: Seq<u8>, offset: int) -> nat {
    uint_or_zero(c, offset, 2, Endianness::Big)
}

pub open spec fn u32_be_at(c: Seq<u8>, offset: int) -> nat {
    uint_or_zero(c, offset, 4, Endianness::Big)
}

pub open spec fn u8_at(c: Seq<u8>, offset: int) -> nat {
    uint_or_zero(c, offset, 1, Endianness::Little)
}

pub open spec fn i32_le_at(c: Seq<u8>, offset: int) -> int {
    int_or_zero(c, offset, 4, Endianness::Little)
}

/// The 16-bit value at `offset`, or 0 past the end.
pub fn read_u16(doc: &ByteDocument, offset: u64, e: Endianness) -> (v: u16)
    requires
        doc.wf(),
    ensures
        v == uint_or_zero(doc@, offset as int, 2, e),
{
    let u = read_uint_or_zero(doc, offset, 2, e);
    proof {
        crate::numbers::lemma_pow_values();
        crate::numbers::lemma_uint_bound(doc@, offset as int, 2, e);
    }
    u as u16
}

/// The 32-bit value at `offset`, or 0 past the end.
pub fn read_u32(doc: &ByteDocument, offset: u64, e: Endianness) -> (v: u32)
    requires
        doc.wf(),
    ensures
        v == uint_or_zero(doc@, offset as int, 4, e),
{
    let u = read_uint_or_zero(doc, offset, 4, e);
    proof {
        crate::numbers::lemma_pow_values();
        crate::numbers::lemma_uint_bound(doc@, offset as int, 4, e);
    }
    u as u32
}

/// The byte at `offset`, or 0 past the end.
pub fn read_u8_or_zero(doc: &ByteDocument, offset: u64) -> (v: u8)
    requires
        doc.wf(),
    ensures
        v == u8_at(doc@, offset as int),
{
    let u = read_uint_or_zero(doc, offset, 1, Endianness::Little);
    proof {
        crate::numbers::lemma_pow_values();
        crate::numbers::lemma_uint_bound(doc@, offset as int, 1, Endianness::Little);
    }
    u as u8
}

/// The ASCII text at `offset`, or the empty string past the end.
pub fn ascii_or_empty(doc: &ByteDocument, offset: u64, n: usize) -> (s: String)
    requires
        doc.wf(),
    ensures
        s@ == ascii_or(doc@, offset as int, n as nat, Seq::empty()),
{
    match read_ascii(doc, offset, n) {
        Some(s) => s,
        None => String::new(),
    }
}

/// The ASCII text at `offset`, or `????` past the end.
pub fn ascii_or_unknown(doc: &ByteDocument, offset: u64, n: usize) -> (s: String)
    requires
        doc.wf(),
    ensures
        s@ == ascii_or(doc@, offset as int, n as nat, "????"@),
{
    match read_ascii(doc, offset, n) {
        Some(s) => s,
        None => lit("????"),
    }
}


/// Whether `a` holds the same text as `b`.
pub fn same_text(a: &String, b: &str) -> (r: bool)
    ensures
        r == (a@ == b@),
{
    *a == String::from_str(b)
}

/// A copy of `s`.
pub fn copy_text(s: &String) -> (r: String)
    ensures
        r@ == s@,
{
    s.clone()
}

} // verus!
