//! The request data of a Write Tag service: type, element count and value.
use vstd::prelude::*;
use vstd::utf8::encode_utf8;
use crate::le::{
    from_i16, from_i32, from_i64, from_i8, push_all, push_u16, push_u32, push_u64, u16_bytes,
    u32_bytes, u64_bytes, unsigned_of,
};
use crate::types::{same_option, text_value, CipType, CipValue};
use crate::text::utf8_text;
use crate::cip::spec_decode_cip_response;
use crate::le::{le16, lemma_le16_at, lemma_u16_bytes_roundtrip, lemma_u32_bytes_roundtrip, lemma_u64_bytes_roundtrip};

verus! {

/// Length of the character data of a Logix STRING.
pub const STRING_DATA_LEN: usize = 82;

/// `n` zero bytes.
pub open spec fn zeros(n: int) -> Seq<u8> {
    Seq::new(n as nat, |i: int| 0u8)
}

/// The bytes of a Logix STRING: the length (at most 82), that many bytes of
/// the text, then zeros up to 82 bytes.
pub open spec fn string_block(b: Seq<u8>) -> Seq<u8> {
    let n = if b.len() < 82 {
        b.len() as int
    } else {
        82
    };
    u16_bytes(n) + b.subrange(0, n) + zeros(82 - n)
}

/// Type code, element count and data of a written value. A BOOL is written
/// as 0xFF or 0x00; a packed BOOL array counts its bytes; a unit writes
/// nothing.
pub open spec fn value_payload(v: CipValue) -> Seq<u8> {
    match v {
        CipValue::Bool(b) => u16_bytes(0xC1) + u16_bytes(1) + seq![
            if b {
                0xFFu8
            } else {
                0x00u8
            },
        ],
        CipValue::SInt(x) => u16_bytes(0xC2) + u16_bytes(1) + seq![unsigned_of(x as int, 256) as u8],
        CipValue::Int(x) => u16_bytes(0xC3) + u16_bytes(1) + u16_bytes(unsigned_of(x as int, 65536)),
        CipValue::DInt(x) => u16_bytes(0xC4) + u16_bytes(1) + u32_bytes(
            unsigned_of(x as int, 4294967296),
        ),
        CipValue::LInt(x) => u16_bytes(0xC5) + u16_bytes(1) + u64_bytes(
            unsigned_of(x as int, 18446744073709551616),
        ),
        CipValue::Real(bits) => u16_bytes(0xCA) + u16_bytes(1) + u32_bytes(bits as int),
        CipValue::String(s) => u16_bytes(0xD0) + u16_bytes(1) + string_block(encode_utf8(s@)),
        CipValue::BoolPacked(bytes) => u16_bytes(0xD3) + u16_bytes((bytes.len() as u16) as int)
            + bytes@,
        CipValue::Unit => Seq::empty(),
    }
}

pub(crate) fn push_string_block(out: &mut Vec<u8>, bytes: &[u8])
    ensures
        final(out)@ == old(out)@ + string_block(bytes@),
{
    let len = if bytes.len() < STRING_DATA_LEN {
        bytes.len()
    } else {
        STRING_DATA_LEN
    };
    push_u16(out, len as u16);
    push_all(out, &bytes[0..len]);
    let ghost mid = out@;
    let mut i = len;
    while i < STRING_DATA_LEN
        invariant
            len <= i <= STRING_DATA_LEN,
            out@ == mid + zeros(i - len),
        decreases STRING_DATA_LEN - i,
    {
        out.push(0);
        i = i + 1;
        assert(out@ =~= mid + zeros(i - len));
    }
    assert(final(out)@ =~= old(out)@ + string_block(bytes@));
}

/// Appends the type, count and data of `value`.
pub fn encode_value(value: &CipValue, out: &mut Vec<u8>)
    ensures
        final(out)@ == old(out)@ + value_payload(*value),
{
    let ghost start = out@;
    match value {
        CipValue::Bool(v) => {
            push_u16(out, CipType::Bool.code());
            push_u16(out, 1);
            out.push(
                if *v {
                    0xFF
                } else {
                    0x00
                },
            );
        },
        CipValue::SInt(v) => {
            push_u16(out, CipType::SInt.code());
            push_u16(out, 1);
            out.push(from_i8(*v));
        },
        CipValue::Int(v) => {
            push_u16(out, CipType::Int.code());
            push_u16(out, 1);
            push_u16(out, from_i16(*v));
        },
        CipValue::DInt(v) => {
            push_u16(out, CipType::DInt.code());
            push_u16(out, 1);
            push_u32(out, from_i32(*v));
        },
        CipValue::LInt(v) => {
            push_u16(out, CipType::LInt.code());
            push_u16(out, 1);
            push_u64(out, from_i64(*v));
        },
        CipValue::Real(bits) => {
            push_u16(out, CipType::Real.code());
            push_u16(out, 1);
            push_u32(out, *bits);
        },
        CipValue::String(s) => {
            push_u16(out, CipType::String.code());
            push_u16(out, 1);
            push_string_block(out, s.as_str().as_bytes());
        },
        CipValue::BoolPacked(bytes) => {
            push_u16(out, CipType::BoolPacked.code());
            push_u16(out, bytes.len() as u16);
            push_all(out, bytes.as_slice());
        },
        CipValue::Unit => {},
    }
    assert(final(out)@ =~= start + value_payload(*value));
}

/// What a read gives back of a write: the type code and the bytes that a
/// Write Tag request carries for a BOOL, SINT, INT, DINT, LINT or REAL, or
/// for a STRING of at most 82 bytes of UTF-8 (without the element count),
/// decode, as the data of a Read Tag reply, to the value written.
pub proof fn lemma_written_value_reads_back(v: CipValue)
    requires
        v is Bool || v is SInt || v is Int || v is DInt || v is LInt || v is Real || (
        v matches CipValue::String(s) && encode_utf8(s@).len() <= 82),
    ensures
        ({
            let w = value_payload(v);
            same_option(
                spec_decode_cip_response(w.subrange(0, 2) + w.subrange(4, w.len() as int)),
                Some(v),
            )
        }),
{
    let w = value_payload(v);
    let r = w.subrange(0, 2) + w.subrange(4, w.len() as int);
    let d = r.subrange(2, r.len() as int);
    assert(d =~= w.subrange(4, w.len() as int));
    match v {
        CipValue::Int(x) => {
            lemma_u16_bytes_roundtrip(unsigned_of(x as int, 65536));
            assert(d =~= u16_bytes(unsigned_of(x as int, 65536)));
        },
        CipValue::DInt(x) => {
            lemma_u32_bytes_roundtrip(unsigned_of(x as int, 4294967296));
            assert(d =~= u32_bytes(unsigned_of(x as int, 4294967296)));
        },
        CipValue::LInt(x) => {
            lemma_u64_bytes_roundtrip(unsigned_of(x as int, 18446744073709551616));
            assert(d =~= u64_bytes(unsigned_of(x as int, 18446744073709551616)));
        },
        CipValue::Real(bits) => {
            lemma_u32_bytes_roundtrip(bits as int);
            assert(d =~= u32_bytes(bits as int));
        },
        CipValue::String(s) => {
            broadcast use vstd::utf8::encode_utf8_valid_utf8, vstd::utf8::encode_utf8_decode_utf8;
            let b = encode_utf8(s@);
            let n = b.len() as int;
            lemma_u16_bytes_roundtrip(n);
            assert(d =~= u16_bytes(n) + b + zeros(82 - n));
            assert(d.subrange(2, 2 + n) =~= b);
            assert(utf8_text(b) == s@);
            assert(text_value(s@)@ == s@);
        },
        _ => {},
    }
}

/// What a Write Tag request carries for a value: its type code, then its
/// element count (one for a single value, the number of bytes for a packed
/// BOOL array), then the data; a BOOL is written as 0xFF or 0x00.
pub proof fn lemma_value_payload_fields(v: CipValue)
    requires
        !(v is Unit),
        v matches CipValue::BoolPacked(b) ==> b@.len() < 65536,
    ensures
        ({
            let w = value_payload(v);
            &&& w.len() >= 4
            &&& le16(w, 2) == (match v {
                CipValue::BoolPacked(b) => b@.len() as int,
                _ => 1int,
            })
            &&& v matches CipValue::Bool(x) ==> w.len() == 5 && w[4] == (if x {
                0xFFu8
            } else {
                0u8
            })
        }),
{
    let w = value_payload(v);
    match v {
        CipValue::BoolPacked(b) => {
            assert((b@.len() as u16) as int == b@.len());
            assert(w.subrange(2, 4) =~= u16_bytes(b@.len() as int));
            lemma_le16_at(w, 2, b@.len() as int);
        },
        _ => {
            assert(w.subrange(2, 4) =~= u16_bytes(1));
            lemma_le16_at(w, 2, 1);
        },
    }
}

} // verus!
