//! Read Tag, Write Tag and Read Tag Fragmented requests.
use vstd::prelude::*;
use vstd::string::StringSliceAdditionalSpecFns;
use crate::cip::epath::{encode_epath_with_slot, spec_encode_epath_with_slot, tag_ok};
use crate::cip::payload::{encode_value, value_payload};
use crate::cip::service::CipService;
use crate::le::{le16, le32, lemma_le16_at, lemma_le32_at, push_all, push_u16, push_u32, u16_bytes, u32_bytes};
use crate::types::CipValue;

verus! {

/// Read Tag (0x4C) of one element.
pub open spec fn spec_read_request(t: Seq<u8>, slot: Option<u8>) -> Seq<u8> {
    seq![0x4Cu8] + spec_encode_epath_with_slot(t, slot) + u16_bytes(1)
}

/// Write Tag (0x4D) of one value.
pub open spec fn spec_write_request(t: Seq<u8>, value: CipValue, slot: Option<u8>) -> Seq<u8> {
    seq![0x4Du8] + spec_encode_epath_with_slot(t, slot) + value_payload(value)
}

/// Read Tag Fragmented (0x52): element count, then byte offset.
pub open spec fn spec_read_fragmented_request(
    t: Seq<u8>,
    count: u16,
    offset: u32,
    slot: Option<u8>,
) -> Seq<u8> {
    seq![0x52u8] + spec_encode_epath_with_slot(t, slot) + u16_bytes(count as int) + u32_bytes(
        offset as int,
    )
}

pub fn build_read_request(tag: &str, slot: Option<u8>) -> (cip: Vec<u8>)
    requires
        tag_ok(tag.spec_bytes()),
    ensures
        cip@ == spec_read_request(tag.spec_bytes(), slot),
{
    let epath = encode_epath_with_slot(tag, slot);
    let mut cip = Vec::new();
    cip.push(CipService::ReadData.as_u8());
    push_all(&mut cip, epath.as_slice());
    push_u16(&mut cip, 1);
    cip
}

pub fn build_write_request(tag: &str, value: &CipValue, slot: Option<u8>) -> (cip: Vec<u8>)
    requires
        tag_ok(tag.spec_bytes()),
    ensures
        cip@ == spec_write_request(tag.spec_bytes(), *value, slot),
{
    let epath = encode_epath_with_slot(tag, slot);
    let mut cip = Vec::new();
    cip.push(CipService::WriteData.as_u8());
    push_all(&mut cip, epath.as_slice());
    encode_value(value, &mut cip);
    cip
}

pub fn build_read_fragmented_request(tag: &str, count: u16, offset: u32, slot: Option<u8>) -> (cip:
    Vec<u8>)
    requires
        tag_ok(tag.spec_bytes()),
    ensures
        cip@ == spec_read_fragmented_request(tag.spec_bytes(), count, offset, slot),
{
    let epath = encode_epath_with_slot(tag, slot);
    let mut cip = Vec::new();
    cip.push(CipService::ReadFragmented.as_u8());
    push_all(&mut cip, epath.as_slice());
    push_u16(&mut cip, count);
    push_u32(&mut cip, offset);
    cip
}

/// Where the tag requests put their fields: the service (Read Tag 0x4C,
/// Write Tag 0x4D, Read Tag Fragmented 0x52), the tag's routed EPATH whole,
/// then for a read the element count 1, for a fragmented read the element
/// count and the byte offset, and for a write the value's type code,
/// element count and data.
pub proof fn lemma_tag_request_fields(t: Seq<u8>, slot: Option<u8>, count: u16, offset: u32, v: CipValue)
    ensures
        ({
            let e = spec_encode_epath_with_slot(t, slot);
            let n = e.len() as int;
            let r = spec_read_request(t, slot);
            let f = spec_read_fragmented_request(t, count, offset, slot);
            let w = spec_write_request(t, v, slot);
            &&& r[0] == 0x4C && r.subrange(1, n + 1) == e && r.len() == n + 3 && le16(r, n + 1) == 1
            &&& f[0] == 0x52 && f.subrange(1, n + 1) == e && f.len() == n + 7 && le16(f, n + 1) == count
                && le32(f, n + 3) == offset
            &&& w[0] == 0x4D && w.subrange(1, n + 1) == e && w.subrange(n + 1, w.len() as int)
                == value_payload(v)
        }),
{
    let e = spec_encode_epath_with_slot(t, slot);
    let n = e.len() as int;
    let r = spec_read_request(t, slot);
    let f = spec_read_fragmented_request(t, count, offset, slot);
    let w = spec_write_request(t, v, slot);
    assert(r.subrange(1, n + 1) =~= e);
    assert(r.subrange(n + 1, n + 3) =~= u16_bytes(1));
    lemma_le16_at(r, n + 1, 1);
    assert(f.subrange(1, n + 1) =~= e);
    assert(f.subrange(n + 1, n + 3) =~= u16_bytes(count as int));
    assert(f.subrange(n + 3, n + 7) =~= u32_bytes(offset as int));
    lemma_le16_at(f, n + 1, count as int);
    lemma_le32_at(f, n + 3, offset as int);
    assert(w.subrange(1, n + 1) =~= e);
    assert(w.subrange(n + 1, w.len() as int) =~= value_payload(v));
}

} // verus!
