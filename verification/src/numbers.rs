//! Unsigned and two's-complement integers read from bytes in either order.

use vstd::prelude::*;

verus! {

/// Byte order of multi-byte values.
#[derive(Clone, Copy, Debug, PartialEq, Eq, Structural)]
pub enum Endianness {
    Little,
    Big,
}

/// 256 to the power `k`.
pub open spec fn pow256(k: nat) -> nat
    decreases k,
{
    if k == 0 {
        1
    } else {
        256 * pow256((k - 1) as nat)
    }
}

/// The unsigned value of `s`, least significant byte first.
pub open spec fn uint_le(s: Seq<u8>) -> nat
    decreases s.len(),
{
    if s.len() == 0 {
        0
    } else {
        (s[0] + 256 * uint_le(s.drop_first())) as nat
    }
}

/// The unsigned value of `s`, most significant byte first.
pub open spec fn uint_be(s: Seq<u8>) -> nat
    decreases s.len(),
{
    if s.len() == 0 {
        0
    } else {
        (uint_be(s.drop_last()) * 256 + s.last()) as nat
    }
}

/// The unsigned value of `s` in byte order `e`.
pub open spec fn uint_of(s: Seq<u8>, e: Endianness) -> nat {
    match e {
        Endianness::Little => uint_le(s),
        Endianness::Big => uint_be(s),
    }
}

/// The two's-complement value of the `bits`-bit pattern `u`.
pub open spec fn signed_of(u: nat, bits: nat) -> int {
    if u >= pow2(bits) / 2 {
        u - pow2(bits)
    } else {
        u as int
    }
}

/// 2 to the power `k`.
pub open spec fn pow2(k: nat) -> nat
    decreases k,
{
    if k == 0 {
        1
    } else {
        2 * pow2((k - 1) as nat)
    }
}

pub proof fn lemma_pow_values()
    ensures
        pow256(1) == 0x100,
        pow256(2) == 0x1_0000,
        pow256(4) == 0x1_0000_0000,
        pow256(8) == 0x1_0000_0000_0000_0000,
        pow2(8) == 0x100,
        pow2(16) == 0x1_0000,
        pow2(32) == 0x1_0000_0000,
        pow2(64) == 0x1_0000_0000_0000_0000,
{
    reveal_with_fuel(pow256, 9);
    reveal_with_fuel(pow2, 65);
}

proof fn lemma_le_step(s: Seq<u8>, k: int)
    requires
        0 <= k < s.len(),
    ensures
        uint_le(s.subrange(k, s.len() as int)) == s[k] + 256 * uint_le(
            s.subrange(k + 1, s.len() as int),
        ),
{
    assert(s.subrange(k, s.len() as int).drop_first() =~= s.subrange(k + 1, s.len() as int));
}

proof fn lemma_be_step(s: Seq<u8>, k: int)
    requires
        0 <= k < s.len(),
    ensures
        uint_be(s.take(k + 1)) == uint_be(s.take(k)) * 256 + s[k],
{
    assert(s.take(k + 1).drop_last() =~= s.take(k));
}

/// The unsigned value of the `n` bytes of `bytes` from `start` on.
pub fn read_uint(bytes: &[u8], start: usize, n: usize, e: Endianness) -> (v: u64)
    requires
        1 <= n <= 8,
        start + n <= bytes@.len(),
    ensures
        v == uint_of(bytes@.subrange(start as int, start + n), e),
        v < pow256(n as nat),
{
    let ghost s = bytes@.subrange(start as int, start + n);
    proof {
        lemma_pow_values();
    }
    let blen = bytes.len();
    let mut v: u64 = 0;
    match e {
        Endianness::Little => {
            let mut k: usize = n;
            assert(s.subrange(n as int, n as int) =~= Seq::<u8>::empty());
            while k > 0
                invariant
                    k <= n <= 8,
                    start + n <= bytes@.len(),
                    blen == bytes@.len(),
                    s == bytes@.subrange(start as int, start + n),
                    v == uint_le(s.subrange(k as int, n as int)),
                    v < pow256((n - k) as nat),
                    pow256(8) == 0x1_0000_0000_0000_0000,
                decreases k,
            {
                proof {
                    lemma_le_step(s, k - 1);
                    assert(s.subrange(k - 1, n as int) =~= s.subrange(k - 1, s.len() as int));
                    assert(pow256((n - k + 1) as nat) == 256 * pow256((n - k) as nat));
                    lemma_pow_mono((n - k + 1) as nat, 8);
                }
                v = (bytes[start + k - 1] as u64) + 256 * v;
                k = k - 1;
            }
            assert(s.subrange(0, n as int) =~= s);
        },
        Endianness::Big => {
            let mut k: usize = 0;
            assert(s.take(0) =~= Seq::<u8>::empty());
            while k < n
                invariant
                    k <= n <= 8,
                    start + n <= bytes@.len(),
                    blen == bytes@.len(),
                    s == bytes@.subrange(start as int, start + n),
                    v == uint_be(s.take(k as int)),
                    v < pow256(k as nat),
                    pow256(8) == 0x1_0000_0000_0000_0000,
                decreases n - k,
            {
                proof {
                    lemma_be_step(s, k as int);
                    assert(pow256((k + 1) as nat) == 256 * pow256(k as nat));
                    lemma_pow_mono((k + 1) as nat, 8);
                }
                v = v * 256 + (bytes[start + k] as u64);
                k = k + 1;
            }
            assert(s.take(n as int) =~= s);
        },
    }
    v
}

proof fn lemma_pow_mono(a: nat, b: nat)
    requires
        a <= b,
    ensures
        pow256(a) <= pow256(b),
    decreases b,
{
    if a < b {
        lemma_pow_mono(a, (b - 1) as nat);
    }
}

/// The two's-complement value of the low `bits` bits, given as `u`.
pub fn to_signed(u: u64, bits: u64) -> (v: i64)
    requires
        bits == 8 || bits == 16 || bits == 32 || bits == 64,
        u < pow2(bits as nat),
    ensures
        v == signed_of(u as nat, bits as nat),
{
    proof {
        lemma_pow_values();
    }
    if bits == 64 {
        if u >= 0x8000_0000_0000_0000 {
            ((u - 0x8000_0000_0000_0000) as i64) + i64::MIN
        } else {
            u as i64
        }
    } else {
        let half: u64 = if bits == 8 {
            0x80
        } else if bits == 16 {
            0x8000
        } else {
            0x8000_0000
        };
        if u >= half {
            (u as i64) - 2 * (half as i64)
        } else {
            u as i64
        }
    }
}


/// A value below `256^n` is below `2^(8n)`.
pub proof fn lemma_pow256_pow2()
    ensures
        pow256(1) == pow2(8),
        pow256(2) == pow2(16),
        pow256(4) == pow2(32),
        pow256(8) == pow2(64),
{
    lemma_pow_values();
}


/// A value of `n` bytes, or 0, lies below `2^(8n)`.
pub proof fn lemma_uint_bound(c: Seq<u8>, offset: int, n: nat, e: Endianness)
    requires
        n == 1 || n == 2 || n == 4 || n == 8,
    ensures
        (0 <= offset && offset + n <= c.len()) ==> uint_of(c.subrange(offset, offset + n), e) < pow2(8 * n),
{
    lemma_pow_values();
    if 0 <= offset && offset + n <= c.len() {
        lemma_uint_lt(c.subrange(offset, offset + n), e);
        if n == 1 {
            assert(pow256(1) == pow2(8));
        }
    }
}

/// A value of `s.len()` bytes lies below `256^s.len()`.
pub proof fn lemma_uint_lt(s: Seq<u8>, e: Endianness)
    ensures
        uint_of(s, e) < pow256(s.len()),
{
    lemma_uint_le_lt(s);
    lemma_uint_be_lt(s);
}

proof fn lemma_uint_le_lt(s: Seq<u8>)
    ensures
        uint_le(s) < pow256(s.len()),
    decreases s.len(),
{
    if s.len() > 0 {
        lemma_uint_le_lt(s.drop_first());
        assert(pow256(s.len()) == 256 * pow256(s.drop_first().len()));
    }
}

proof fn lemma_uint_be_lt(s: Seq<u8>)
    ensures
        uint_be(s) < pow256(s.len()),
    decreases s.len(),
{
    if s.len() > 0 {
        lemma_uint_be_lt(s.drop_last());
        assert(pow256(s.len()) == 256 * pow256(s.drop_last().len()));
    }
}

} // verus!
