//! The 1-to-9-byte big-endian variable-length integer of the file format.
//!
//! Each of the first eight bytes carries seven bits and a continuation flag
//! in its high bit; a ninth byte, when reached, carries eight bits.

use vstd::prelude::*;
use vstd::arithmetic::power2::*;
use crate::error::DbError;

verus! {

/// Reading from index `i` with `acc` accumulated so far: the value read and
/// the index one past the last byte used. A buffer that ends before the
/// terminating byte gives what was accumulated and its own length.
pub open spec fn varint_from(bytes: Seq<u8>, i: nat, acc: nat) -> (nat, nat)
    decreases 9 - i,
{
    if i >= bytes.len() || i >= 9 {
        (acc, i)
    } else if i == 8 {
        (acc * 256 + bytes[8] as nat, 9)
    } else if bytes[i as int] < 128 {
        (acc * 128 + bytes[i as int] as nat, i + 1)
    } else {
        varint_from(bytes, i + 1, acc * 128 + (bytes[i as int] - 128) as nat)
    }
}

/// The value of the varint at the start of `bytes`.
pub open spec fn varint_value(bytes: Seq<u8>) -> nat {
    varint_from(bytes, 0, 0).0
}

/// The number of bytes the varint at the start of `bytes` occupies.
pub open spec fn varint_len(bytes: Seq<u8>) -> nat {
    varint_from(bytes, 0, 0).1
}

/// A varint uses at least one byte of a non-empty buffer, at most nine, and
/// never more than the buffer holds; its value fits 64 bits.
pub proof fn lemma_varint_bounds(bytes: Seq<u8>)
    ensures
        varint_len(bytes) <= 9,
        varint_len(bytes) <= bytes.len(),
        bytes.len() > 0 ==> varint_len(bytes) >= 1,
        varint_value(bytes) <= u64::MAX,
{
    lemma2_to64();
    lemma2_to64_rest();
    lemma_varint_from_bounds(bytes, 0, 0);
}

proof fn lemma_varint_from_bounds(bytes: Seq<u8>, i: nat, acc: nat)
    requires
        i <= 8,
        i <= bytes.len(),
        acc < pow2(7 * i),
    ensures
        i <= varint_from(bytes, i, acc).1 <= 9,
        varint_from(bytes, i, acc).1 <= bytes.len(),
        i < bytes.len() ==> varint_from(bytes, i, acc).1 > i,
        varint_from(bytes, i, acc).0 <= u64::MAX,
    decreases 9 - i,
{
    lemma2_to64();
    lemma2_to64_rest();
    if i < 8 {
        lemma_pow2_strictly_increases(7 * i, 56);
    }
    if i < bytes.len() {
        if i == 8 {
        } else {
            lemma_pow2_adds(7 * i, 7);
            assert(acc * 128 + 127 < pow2(7 * i) * 128) by (nonlinear_arith)
                requires acc < pow2(7 * i);
            if bytes[i as int] >= 128 {
                lemma_varint_from_bounds(
                    bytes,
                    i + 1,
                    acc * 128 + (bytes[i as int] - 128) as nat,
                );
            } else {
                if i + 1 < 8 {
                    lemma_pow2_strictly_increases(7 * (i + 1), 56);
                }
            }
        }
    }
}

/// Decodes the varint at the start of `data`: its value and the number of
/// bytes it occupies. Only an empty buffer is refused.
pub fn read_varint(data: &[u8]) -> (r: Result<(u64, usize), DbError>)
    ensures
        r is Err <==> data@.len() == 0,
        r matches Err(e) ==> e == DbError::TruncatedVarint,
        r matches Ok((v, n)) ==> v == varint_value(data@) && n == varint_len(data@),
{
    if data.len() == 0 {
        return Err(DbError::TruncatedVarint);
    }
    let mut i: usize = 0;
    let mut val: u64 = 0;
    proof {
        lemma2_to64();
    }
    while i < 8 && i < data.len()
        invariant
            i <= 8,
            i <= data@.len(),
            val < pow2(7 * (i as nat)),
            varint_from(data@, i as nat, val as nat) == varint_from(data@, 0, 0),
        decreases 8 - i,
    {
        let b: u8 = data[i];
        proof {
            lemma2_to64();
            lemma2_to64_rest();
            if i < 7 {
                lemma_pow2_strictly_increases(7 * (i as nat), 49);
            }
            lemma_pow2_adds(7 * (i as nat), 7);
            assert(val * 128 + 127 < pow2(7 * (i as nat)) * 128) by (nonlinear_arith)
                requires val < pow2(7 * (i as nat));
            assert(val < 0x2000000000000u64 ==> (val << 7) | ((b & 0x7f) as u64) == val * 128 + (b
                % 128) as u64) by (bit_vector);
            assert((b & 0x80 == 0) <==> b < 128) by (bit_vector);
        }
        let next: u64 = (val << 7) | ((b & 0x7f) as u64);
        if b & 0x80 == 0 {
            return Ok((next, i + 1));
        }
        val = next;
        i += 1;
    }
    if i < data.len() {
        let b: u8 = data[i];
        proof {
            lemma2_to64();
            lemma2_to64_rest();
            assert(val < 0x100000000000000u64 ==> (val << 8) | (b as u64) == val * 256 + b as u64)
                by (bit_vector);
        }
        val = (val << 8) | (b as u64);
        i += 1;
    }
    Ok((val, i))
}

/// `n` continuation bytes that carry the low `7 * n` bits of `v`, most
/// significant group first.
pub open spec fn continued_groups(v: nat, n: nat) -> Seq<u8>
    decreases n,
{
    if n == 0 {
        Seq::empty()
    } else {
        continued_groups(v / 128, (n - 1) as nat).push((128 + v % 128) as u8)
    }
}

/// The number of bytes of the shortest encoding of `v`.
pub open spec fn varint_width(v: nat) -> nat {
    if v < 0x80 {
        1
    } else if v < 0x4000 {
        2
    } else if v < 0x20_0000 {
        3
    } else if v < 0x1000_0000 {
        4
    } else if v < 0x8_0000_0000 {
        5
    } else if v < 0x400_0000_0000 {
        6
    } else if v < 0x2_0000_0000_0000 {
        7
    } else if v < 0x100_0000_0000_0000 {
        8
    } else {
        9
    }
}

/// The shortest encoding of `v`: continuation bytes, then a last byte of
/// seven bits, or of eight bits where nine bytes are needed.
pub open spec fn encode_varint(v: u64) -> Seq<u8> {
    let w = varint_width(v as nat);
    if w == 9 {
        continued_groups(v as nat / 256, 8).push((v % 256) as u8)
    } else {
        continued_groups(v as nat / 128, (w - 1) as nat).push((v % 128) as u8)
    }
}

proof fn lemma_continued_groups_len(v: nat, n: nat)
    ensures
        continued_groups(v, n).len() == n,
    decreases n,
{
    if n > 0 {
        lemma_continued_groups_len(v / 128, (n - 1) as nat);
    }
}

/// Reading across `n` continuation bytes that carry `x` arrives behind them
/// with `x` accumulated.
proof fn lemma_read_continued(s: Seq<u8>, x: nat, n: nat)
    requires
        n <= 8,
        s.len() >= n,
        x < pow2(7 * n),
        s.subrange(0, n as int) == continued_groups(x, n),
    ensures
        varint_from(s, 0, 0) == varint_from(s, n, x),
    decreases n,
{
    lemma2_to64();
    if n > 0 {
        let m = (n - 1) as nat;
        lemma_continued_groups_len(x / 128, m);
        lemma_continued_groups_len(x, n);
        lemma_pow2_adds(7 * m, 7);
        assert(x / 128 < pow2(7 * m)) by (nonlinear_arith)
            requires x < pow2(7 * m) * 128;
        assert(s.subrange(0, m as int) =~= continued_groups(x / 128, m)) by {
            assert forall|j: int| 0 <= j < m implies s.subrange(0, m as int)[j]
                == continued_groups(x / 128, m)[j] by {
                assert(s.subrange(0, n as int)[j] == s[j]);
            }
        }
        lemma_read_continued(s, x / 128, m);
        assert(s[m as int] == s.subrange(0, n as int)[m as int]);
        assert(s[m as int] == (128 + x % 128) as u8);
        assert((x / 128) * 128 + x % 128 == x) by (nonlinear_arith);
    } else {
        assert(x == 0);
    }
}

/// Decoding the shortest encoding of any 64-bit value gives that value back
/// and uses exactly the bytes of the encoding.
pub proof fn lemma_varint_round_trip(v: u64)
    ensures
        encode_varint(v).len() == varint_width(v as nat),
        varint_value(encode_varint(v)) == v,
        varint_len(encode_varint(v)) == encode_varint(v).len(),
{
    lemma2_to64();
    lemma2_to64_rest();
    let s = encode_varint(v);
    let w = varint_width(v as nat);
    let n = (w - 1) as nat;
    let x: nat = if w == 9 {
        v as nat / 256
    } else {
        v as nat / 128
    };
    lemma_continued_groups_len(x, n);
    assert(s.subrange(0, n as int) =~= continued_groups(x, n));
    assert(x < pow2(7 * n));
    lemma_read_continued(s, x, n);
}

/// Appends to `out` the `n` continuation bytes that carry the low bits of `x`.
fn push_continued(out: &mut Vec<u8>, x: u64, n: usize)
    ensures
        final(out)@ == old(out)@ + continued_groups(x as nat, n as nat),
    decreases n,
{
    if n > 0 {
        push_continued(out, x / 128, n - 1);
        out.push(128 + (x % 128) as u8);
        assert(final(out)@ =~= old(out)@ + continued_groups(x as nat, n as nat));
    } else {
        assert(final(out)@ =~= old(out)@ + continued_groups(x as nat, n as nat));
    }
}

/// The shortest encoding of `v`.
pub fn write_varint(v: u64) -> (out: Vec<u8>)
    ensures
        out@ == encode_varint(v),
{
    let w: usize = if v < 0x80 {
        1
    } else if v < 0x4000 {
        2
    } else if v < 0x20_0000 {
        3
    } else if v < 0x1000_0000 {
        4
    } else if v < 0x8_0000_0000 {
        5
    } else if v < 0x400_0000_0000 {
        6
    } else if v < 0x2_0000_0000_0000 {
        7
    } else if v < 0x100_0000_0000_0000 {
        8
    } else {
        9
    };
    let mut out: Vec<u8> = Vec::new();
    if w == 9 {
        push_continued(&mut out, v / 256, 8);
        out.push((v % 256) as u8);
    } else {
        push_continued(&mut out, v / 128, w - 1);
        out.push((v % 128) as u8);
    }
    assert(out@ =~= encode_varint(v));
    out
}

} // verus!
