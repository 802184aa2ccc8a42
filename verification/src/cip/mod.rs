pub mod builder;
pub mod connection;
pub mod epath;
pub mod msp;
pub mod error;
pub mod path;
pub mod payload;
pub mod read_write;
pub mod service;
pub mod symbol;
pub mod tag_text;
pub mod value;

pub use builder::{
    build_forward_close_request, build_forward_open_request, build_get_attribute_all_request,
    build_get_attribute_single_request, build_large_forward_close_request,
    build_large_forward_open_request, decode_extended_status, describe_extended_status,
};
pub use connection::{
    connection_manager_path, message_router_path, ConnectionIds, ConnectionParams,
    TransportTrigger,
};
pub use epath::{encode_epath, encode_epath_with_slot, encode_port_segment};
pub use error::{map_extended_status, CipError, ForwardOpenError};
pub use msp::{
    build_cip_multiple_service_request, decode_write_response, parse_cip_multiple_service_response,
};
pub use path::{encode_path, PathSegment};
pub use payload::encode_value;
pub use read_write::{build_read_fragmented_request, build_read_request, build_write_request};
pub use service::CipService;
pub use symbol::{build_symbol_browse_request, parse_symbol_browse_response};

use vstd::prelude::*;
use crate::le::{get_u16, get_u32, le16, le32, signed_of, to_i16, to_i32, to_i8};
use crate::types::{same_option, CipValue};
use crate::cip::value::spec_typed_reply;

verus! {

/// Bytes per element of the array types that list decoding knows (0 for
/// any other type code).
pub open spec fn element_size(type_id: u16) -> int {
    if type_id == 0xC1 || type_id == 0xC2 {
        1
    } else if type_id == 0xC3 {
        2
    } else if type_id == 0xC4 || type_id == 0xCA {
        4
    } else {
        0
    }
}

/// The element of type `type_id` whose bytes start at `at`.
pub open spec fn element_at(type_id: u16, d: Seq<u8>, at: int) -> CipValue {
    if type_id == 0xC1 {
        CipValue::Bool(d[at] != 0)
    } else if type_id == 0xC2 {
        CipValue::SInt(signed_of(d[at] as int, 256) as i8)
    } else if type_id == 0xC3 {
        CipValue::Int(signed_of(le16(d, at), 65536) as i16)
    } else if type_id == 0xC4 {
        CipValue::DInt(signed_of(le32(d, at), 4294967296) as i32)
    } else {
        CipValue::Real(le32(d, at) as u32)
    }
}

/// The whole elements held in `d`: as many as fit, a trailing partial
/// element ignored; nothing for an unknown type.
pub open spec fn spec_data_list(type_id: u16, d: Seq<u8>) -> Seq<CipValue> {
    let size = element_size(type_id);
    if size == 0 {
        Seq::empty()
    } else {
        Seq::new((d.len() as int / size) as nat, |i: int| element_at(type_id, d, i * size))
    }
}

proof fn lemma_element_step(k: int, size: int, len: int)
    requires
        0 <= k,
        0 < size,
        k < len / size,
    ensures
        (k + 1) * size == k * size + size,
        k * size + size <= len,
        0 <= k * size,
{
    assert((k + 1) * size == k * size + size) by (nonlinear_arith);
    assert(k * size + size <= len) by (nonlinear_arith)
        requires
            0 <= k < len / size,
            0 < size,
    {
        assert(k + 1 <= len / size);
        assert((k + 1) * size <= (len / size) * size);
        assert((len / size) * size <= len);
    }
    assert(0 <= k * size) by (nonlinear_arith)
        requires
            0 <= k,
            0 < size,
    ;
}

/// Decodes the elements of an array of type `type_id` held in `data`.
pub fn decode_cip_data_list(type_id: u16, data: &[u8]) -> (out: Vec<CipValue>)
    ensures
        out@ == spec_data_list(type_id, data@),
{
    let size: usize = if type_id == 0x00C1 || type_id == 0x00C2 {
        1
    } else if type_id == 0x00C3 {
        2
    } else if type_id == 0x00C4 || type_id == 0x00CA {
        4
    } else {
        return Vec::new();
    };
    let n = data.len() / size;
    let mut out: Vec<CipValue> = Vec::new();
    let mut k: usize = 0;
    let mut pos: usize = 0;
    let dlen = data.len();
    while k < n
        invariant
            dlen == data@.len(),
            size == element_size(type_id),
            size > 0,
            n == data@.len() as int / (size as int),
            k <= n,
            pos == k * size,
            out@ == spec_data_list(type_id, data@).subrange(0, k as int),
        decreases n - k,
    {
        proof {
            lemma_element_step(k as int, size as int, data@.len() as int);
        }
        let v = if type_id == 0x00C1 {
            CipValue::Bool(data[pos] != 0)
        } else if type_id == 0x00C2 {
            CipValue::SInt(to_i8(data[pos]))
        } else if type_id == 0x00C3 {
            CipValue::Int(to_i16(get_u16(data, pos)))
        } else if type_id == 0x00C4 {
            CipValue::DInt(to_i32(get_u32(data, pos)))
        } else {
            CipValue::Real(get_u32(data, pos))
        };
        out.push(v);
        assert(pos + size <= data@.len());
        pos = pos + size;
        k = k + 1;
        assert(out@ =~= spec_data_list(type_id, data@).subrange(0, k as int));
    }
    assert(spec_data_list(type_id, data@).subrange(0, k as int) =~= spec_data_list(type_id, data@));
    out
}

/// A single-read reply: the type code (one byte, then a zero byte), then
/// the data; the value is the first element of the data, or the text of a
/// STRING.
pub open spec fn spec_decode_cip_response(buf: Seq<u8>) -> Option<CipValue> {
    spec_typed_reply(buf)
}

/// Decodes a standard CIP single-read reply.
pub fn decode_cip_response(buf: &[u8]) -> (r: Option<CipValue>)
    ensures
        same_option(r, spec_decode_cip_response(buf@)),
{
    value::decode_cip_response(buf)
}

/// A packed BOOL array reply (type 0xD3) reads as its first element: bit 0
/// of the first data byte, whatever the other bits and bytes hold.
pub proof fn lemma_packed_bool_first_bit(d: Seq<u8>)
    requires
        d.len() >= 1,
    ensures
        spec_decode_cip_response(seq![0xD3u8, 0u8] + d) == Some(CipValue::Bool(d[0] & 1u8 == 1u8)),
{
    let buf = seq![0xD3u8, 0u8] + d;
    assert(buf.subrange(2, buf.len() as int) =~= d);
    let b = d[0];
    assert((b % 2 == 1) == (b & 1u8 == 1u8)) by (bit_vector);
}

} // verus!
