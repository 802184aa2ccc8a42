//! Decoding of typed single-value replies (type byte, pad byte, data).
use vstd::prelude::*;
use crate::le::{get_u16, get_u32, get_u64, le16, le32, le64, signed_of, to_i16, to_i32, to_i64, to_i8};
use crate::text::{text_from_utf8_lossy, utf8_text};
use crate::types::{same_option, spec_type_of_code, text_value, CipType, CipValue};

verus! {

/// What the data `p` of a value of type `typ` decodes to: the first element
/// of the type, the length-prefixed text of a STRING, or the first bit of a
/// packed BOOL array; `None` when `p` is too short.
pub open spec fn spec_decode_payload(typ: CipType, p: Seq<u8>) -> Option<CipValue> {
    match typ {
        CipType::Bool => if p.len() >= 1 {
            Some(CipValue::Bool(p[0] != 0))
        } else {
            None
        },
        CipType::SInt => if p.len() >= 1 {
            Some(CipValue::SInt(signed_of(p[0] as int, 256) as i8))
        } else {
            None
        },
        CipType::Int => if p.len() >= 2 {
            Some(CipValue::Int(signed_of(le16(p, 0), 65536) as i16))
        } else {
            None
        },
        CipType::DInt => if p.len() >= 4 {
            Some(CipValue::DInt(signed_of(le32(p, 0), 4294967296) as i32))
        } else {
            None
        },
        CipType::LInt => if p.len() >= 8 {
            Some(CipValue::LInt(signed_of(le64(p, 0), 18446744073709551616) as i64))
        } else {
            None
        },
        CipType::Real => if p.len() >= 4 {
            Some(CipValue::Real(le32(p, 0) as u32))
        } else {
            None
        },
        CipType::String => if p.len() >= 2 && 2 + le16(p, 0) <= p.len() {
            Some(CipValue::String(text_value(utf8_text(p.subrange(2, 2 + le16(p, 0))))))
        } else {
            None
        },
        CipType::BoolPacked => if p.len() >= 1 {
            Some(CipValue::Bool(p[0] % 2 == 1))
        } else {
            None
        },
    }
}

fn decode_cip_payload(typ: CipType, payload: &[u8]) -> (r: Option<CipValue>)
    ensures
        same_option(r, spec_decode_payload(typ, payload@)),
{
    let n = payload.len();
    match typ {
        CipType::Bool => if n >= 1 {
            Some(CipValue::Bool(payload[0] != 0))
        } else {
            None
        },
        CipType::SInt => if n >= 1 {
            Some(CipValue::SInt(to_i8(payload[0])))
        } else {
            None
        },
        CipType::Int => if n >= 2 {
            Some(CipValue::Int(to_i16(get_u16(payload, 0))))
        } else {
            None
        },
        CipType::DInt => if n >= 4 {
            Some(CipValue::DInt(to_i32(get_u32(payload, 0))))
        } else {
            None
        },
        CipType::LInt => if n >= 8 {
            Some(CipValue::LInt(to_i64(get_u64(payload, 0))))
        } else {
            None
        },
        CipType::Real => if n >= 4 {
            Some(CipValue::Real(get_u32(payload, 0)))
        } else {
            None
        },
        CipType::String => {
            if n < 2 {
                return None;
            }
            let len = get_u16(payload, 0) as usize;
            if 2 + len > n {
                return None;
            }
            let text = text_from_utf8_lossy(&payload[2..2 + len]);
            proof {
                let t = utf8_text(payload@.subrange(2, 2 + len as int));
                assert(text@ == t);
                assert(text_value(t)@ == t);
            }
            Some(CipValue::String(text))
        },
        CipType::BoolPacked => if n >= 1 {
            Some(CipValue::Bool(payload[0] % 2 == 1))
        } else {
            None
        },
    }
}

/// A typed reply: a known type byte, a zero pad byte, then data that
/// decodes as that type; `None` otherwise.
pub open spec fn spec_typed_reply(buf: Seq<u8>) -> Option<CipValue> {
    if buf.len() < 2 || spec_type_of_code(buf[0] as int) is None || buf[1] != 0 {
        None
    } else {
        spec_decode_payload(spec_type_of_code(buf[0] as int)->0, buf.subrange(2, buf.len() as int))
    }
}

/// Decodes a reply whose data starts with a one-byte type code and a pad
/// byte.
pub fn decode_cip_response(buf: &[u8]) -> (r: Option<CipValue>)
    ensures
        same_option(r, spec_typed_reply(buf@)),
{
    if buf.len() < 2 {
        return None;
    }
    let typ = match CipType::from_u8(buf[0]) {
        Some(t) => t,
        None => return None,
    };
    let pad = buf[1];
    if pad != 0x00 {
        return None;
    }
    decode_cip_payload(typ, &buf[2..buf.len()])
}

} // verus!
