//! Little-endian integer fields, as every CIP and encapsulation field is laid
//! out on the wire.
use vstd::prelude::*;

verus! {

/// The unsigned value of the two bytes of `s` that start at `i`.
pub open spec fn le16(s: Seq<u8>, i: int) -> int {
    s[i] + 256 * s[i + 1]
}

/// The unsigned value of the four bytes of `s` that start at `i`.
pub open spec fn le32(s: Seq<u8>, i: int) -> int {
    le16(s, i) + 65536 * le16(s, i + 2)
}

/// The unsigned value of the eight bytes of `s` that start at `i`.
pub open spec fn le64(s: Seq<u8>, i: int) -> int {
    le32(s, i) + 4294967296 * le32(s, i + 4)
}

/// The two bytes that hold `v` (taken modulo 2^16).
pub open spec fn u16_bytes(v: int) -> Seq<u8> {
    seq![(v % 256) as u8, ((v / 256) % 256) as u8]
}

/// The four bytes that hold `v` (taken modulo 2^32).
pub open spec fn u32_bytes(v: int) -> Seq<u8> {
    u16_bytes(v % 65536) + u16_bytes((v / 65536) % 65536)
}

/// The eight bytes that hold `v` (taken modulo 2^64).
pub open spec fn u64_bytes(v: int) -> Seq<u8> {
    u32_bytes(v % 4294967296) + u32_bytes((v / 4294967296) % 4294967296)
}

/// The two's-complement value of an unsigned `bits`-wide field.
pub open spec fn signed_of(u: int, modulus: int) -> int {
    if u >= modulus / 2 {
        u - modulus
    } else {
        u
    }
}

/// The unsigned field that holds the two's-complement form of `v`.
pub open spec fn unsigned_of(v: int, modulus: int) -> int {
    if v < 0 {
        v + modulus
    } else {
        v
    }
}

pub proof fn lemma_u16_bytes_roundtrip(v: int)
    requires
        0 <= v < 65536,
    ensures
        u16_bytes(v).len() == 2,
        le16(u16_bytes(v), 0) == v,
{
}

pub proof fn lemma_u32_bytes_roundtrip(v: int)
    requires
        0 <= v < 4294967296,
    ensures
        u32_bytes(v).len() == 4,
        le32(u32_bytes(v), 0) == v,
{
    let lo = v % 65536;
    let hi = (v / 65536) % 65536;
    assert(u32_bytes(v) =~= seq![(lo % 256) as u8, ((lo / 256) % 256) as u8, (hi % 256) as u8, ((hi / 256) % 256) as u8]);
    assert(v == lo + 65536 * (v / 65536));
}

pub proof fn lemma_u64_bytes_roundtrip(v: int)
    requires
        0 <= v < 18446744073709551616,
    ensures
        u64_bytes(v).len() == 8,
        le64(u64_bytes(v), 0) == v,
{
    let lo = v % 4294967296;
    let hi = (v / 4294967296) % 4294967296;
    lemma_u32_bytes_roundtrip(lo);
    lemma_u32_bytes_roundtrip(hi);
    let s = u64_bytes(v);
    assert(s.subrange(0, 4) =~= u32_bytes(lo));
    assert(s.subrange(4, 8) =~= u32_bytes(hi));
    assert(le32(s, 0) == le32(u32_bytes(lo), 0));
    assert(le32(s, 4) == le32(u32_bytes(hi), 0));
    assert(v == lo + 4294967296 * (v / 4294967296));
}

/// A 16-bit field laid out as `u16_bytes(v)` reads back as `v`.
pub proof fn lemma_le16_at(b: Seq<u8>, i: int, v: int)
    requires
        0 <= v < 65536,
        0 <= i,
        i + 2 <= b.len(),
        b.subrange(i, i + 2) == u16_bytes(v),
    ensures
        le16(b, i) == v,
{
    lemma_u16_bytes_roundtrip(v);
    assert(b[i] == b.subrange(i, i + 2)[0]);
    assert(b[i + 1] == b.subrange(i, i + 2)[1]);
}

/// A 32-bit field laid out as `u32_bytes(v)` reads back as `v`.
pub proof fn lemma_le32_at(b: Seq<u8>, i: int, v: int)
    requires
        0 <= v < 4294967296,
        0 <= i,
        i + 4 <= b.len(),
        b.subrange(i, i + 4) == u32_bytes(v),
    ensures
        le32(b, i) == v,
{
    lemma_u32_bytes_roundtrip(v);
    let f = b.subrange(i, i + 4);
    assert(b[i] == f[0]);
    assert(b[i + 1] == f[1]);
    assert(b[i + 2] == f[2]);
    assert(b[i + 3] == f[3]);
}

/// The two bytes at `i`, read as a 16-bit field and laid out again, are
/// those bytes.
pub proof fn lemma_u16_bytes_of_le16(b: Seq<u8>, i: int)
    requires
        0 <= i,
        i + 2 <= b.len(),
    ensures
        u16_bytes(le16(b, i)) == b.subrange(i, i + 2),
{
    let x = b[i] as int;
    let y = b[i + 1] as int;
    assert((x + 256 * y) % 256 == x && ((x + 256 * y) / 256) % 256 == y) by (nonlinear_arith)
        requires
            0 <= x < 256,
            0 <= y < 256,
    ;
    assert(u16_bytes(le16(b, i)) =~= b.subrange(i, i + 2));
}

/// The four bytes at `i`, read as a 32-bit field and laid out again, are
/// those bytes.
pub proof fn lemma_u32_bytes_of_le32(b: Seq<u8>, i: int)
    requires
        0 <= i,
        i + 4 <= b.len(),
    ensures
        u32_bytes(le32(b, i)) == b.subrange(i, i + 4),
{
    let lo = le16(b, i);
    let hi = le16(b, i + 2);
    assert((lo + 65536 * hi) % 65536 == lo && ((lo + 65536 * hi) / 65536) % 65536 == hi) by (nonlinear_arith)
        requires
            0 <= lo < 65536,
            0 <= hi < 65536,
    ;
    lemma_u16_bytes_of_le16(b, i);
    lemma_u16_bytes_of_le16(b, i + 2);
    assert(u32_bytes(le32(b, i)) =~= b.subrange(i, i + 4));
}

/// The unsigned 16-bit field at `i`.
pub fn get_u16(b: &[u8], i: usize) -> (v: u16)
    requires
        i + 2 <= b@.len(),
    ensures
        v == le16(b@, i as int),
{
    b[i] as u16 + (b[i + 1] as u16) * 256
}

/// The unsigned 32-bit field at `i`.
pub fn get_u32(b: &[u8], i: usize) -> (v: u32)
    requires
        i + 4 <= b@.len(),
    ensures
        v == le32(b@, i as int),
{
    let _n = b.len();
    let lo = get_u16(b, i);
    let hi = get_u16(b, i + 2);
    lo as u32 + (hi as u32) * 65536
}

/// The unsigned 64-bit field at `i`.
pub fn get_u64(b: &[u8], i: usize) -> (v: u64)
    requires
        i + 8 <= b@.len(),
    ensures
        v == le64(b@, i as int),
{
    let _n = b.len();
    let lo = get_u32(b, i);
    let hi = get_u32(b, i + 4);
    lo as u64 + (hi as u64) * 4294967296
}

/// The two's-complement reading of an 8-bit field.
pub fn to_i8(u: u8) -> (v: i8)
    ensures
        v == signed_of(u as int, 256),
{
    if u >= 128 {
        ((u - 128) as i8) - 127 - 1
    } else {
        u as i8
    }
}

/// The two's-complement reading of a 16-bit field.
pub fn to_i16(u: u16) -> (v: i16)
    ensures
        v == signed_of(u as int, 65536),
{
    if u >= 32768 {
        ((u - 32768) as i16) - 32767 - 1
    } else {
        u as i16
    }
}

/// The two's-complement reading of a 32-bit field.
pub fn to_i32(u: u32) -> (v: i32)
    ensures
        v == signed_of(u as int, 4294967296),
{
    if u >= 2147483648 {
        ((u - 2147483648) as i32) - 2147483647 - 1
    } else {
        u as i32
    }
}

/// The two's-complement reading of a 64-bit field.
pub fn to_i64(u: u64) -> (v: i64)
    ensures
        v == signed_of(u as int, 18446744073709551616),
{
    if u >= 9223372036854775808 {
        ((u - 9223372036854775808) as i64) - 9223372036854775807 - 1
    } else {
        u as i64
    }
}

/// The 8-bit field that holds an `i8`.
pub fn from_i8(v: i8) -> (u: u8)
    ensures
        u == unsigned_of(v as int, 256),
{
    if v < 0 {
        (v as i16 + 256) as u8
    } else {
        v as u8
    }
}

/// The 16-bit field that holds an `i16`.
pub fn from_i16(v: i16) -> (u: u16)
    ensures
        u == unsigned_of(v as int, 65536),
{
    if v < 0 {
        (v as i32 + 65536) as u16
    } else {
        v as u16
    }
}

/// The 32-bit field that holds an `i32`.
pub fn from_i32(v: i32) -> (u: u32)
    ensures
        u == unsigned_of(v as int, 4294967296),
{
    if v < 0 {
        (v as i64 + 4294967296) as u32
    } else {
        v as u32
    }
}

/// The 64-bit field that holds an `i64`.
pub fn from_i64(v: i64) -> (u: u64)
    ensures
        u == unsigned_of(v as int, 18446744073709551616),
{
    if v < 0 {
        (v as i128 + 18446744073709551616) as u64
    } else {
        v as u64
    }
}

/// Appends the two bytes of `v`.
pub fn push_u16(out: &mut Vec<u8>, v: u16)
    ensures
        final(out)@ == old(out)@ + u16_bytes(v as int),
{
    out.push((v % 256) as u8);
    out.push((v / 256) as u8);
    assert(final(out)@ =~= old(out)@ + u16_bytes(v as int));
}

/// Appends the four bytes of `v`.
pub fn push_u32(out: &mut Vec<u8>, v: u32)
    ensures
        final(out)@ == old(out)@ + u32_bytes(v as int),
{
    push_u16(out, (v % 65536) as u16);
    push_u16(out, (v / 65536) as u16);
    assert(final(out)@ =~= old(out)@ + u32_bytes(v as int));
}

/// Appends the eight bytes of `v`.
pub fn push_u64(out: &mut Vec<u8>, v: u64)
    ensures
        final(out)@ == old(out)@ + u64_bytes(v as int),
{
    let lo = (v % 4294967296) as u32;
    let hi = (v / 4294967296) as u32;
    assert(lo as int == (v as int) % 4294967296);
    assert(hi as int == ((v as int) / 4294967296) % 4294967296);
    let ghost mid = out@;
    push_u32(out, lo);
    push_u32(out, hi);
    assert(u64_bytes(v as int) == u32_bytes(lo as int) + u32_bytes(hi as int));
    assert(final(out)@ =~= old(out)@ + u64_bytes(v as int));
}

/// Appends every byte of `src`.
pub fn push_all(out: &mut Vec<u8>, src: &[u8])
    ensures
        final(out)@ == old(out)@ + src@,
{
    let mut i: usize = 0;
    while i < src.len()
        invariant
            i <= src@.len(),
            out@ == old(out)@ + src@.subrange(0, i as int),
        decreases src@.len() - i,
    {
        out.push(src[i]);
        i = i + 1;
        assert(out@ =~= old(out)@ + src@.subrange(0, i as int));
    }
    assert(src@.subrange(0, src@.len() as int) =~= src@);
}

} // verus!
