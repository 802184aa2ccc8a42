//! What the client makes of the replies to its tag and attribute requests,
//! the typed accessors, and the requests it derives for array writes and
//! multi-tag reads.
use vstd::prelude::*;
use vstd::string::StringSliceAdditionalSpecFns;
use crate::cip::error::spec_status_error;
use crate::cip::epath::tag_ok;
use crate::cip::msp::spec_write_reply;
use crate::cip::read_write::{spec_read_request, spec_write_request};
use crate::cip::symbol::{symbol_matches, symbols_from};
use crate::cip::{
    build_read_request, build_write_request, decode_cip_data_list, decode_cip_response,
    decode_write_response, element_at, element_size, parse_symbol_browse_response, spec_data_list,
    spec_decode_cip_response, CipError,
};
use crate::le::{
    lemma_u16_bytes_of_le16, lemma_u32_bytes_of_le32, le32, signed_of,
};
use crate::le::{get_u16, le16, push_all, push_u16, push_u32, u16_bytes, u32_bytes, unsigned_of, from_i8, from_i16, from_i32};
use crate::text::{decimal, push_decimal};
use crate::types::{
    identity_decode_error, identity_matches, same_value, spec_type_name, CipValue, ConnectionManagerInfo,
    IdentityInfo, SymbolInfo,
};

verus! {

/// The data of a successful reply (after the reply service, reserved byte,
/// general status and extended status words); the failure that the reply
/// reports otherwise.
pub open spec fn spec_reply_payload(res: Seq<u8>) -> Result<Seq<u8>, CipError> {
    if res.len() < 4 {
        Err(CipError::VendorSpecific(0xFE))
    } else if res[2] != 0 {
        Err(spec_status_error(res[2]))
    } else if res.len() < 4 + 2 * res[3] {
        Err(CipError::VendorSpecific(0xFD))
    } else {
        Ok(res.subrange(4 + 2 * res[3], res.len() as int))
    }
}

pub fn parse_cip_response_payload(res: &[u8]) -> (r: Result<&[u8], CipError>)
    ensures
        match r {
            Ok(p) => spec_reply_payload(res@) == Ok::<Seq<u8>, CipError>(p@),
            Err(e) => spec_reply_payload(res@) == Err::<Seq<u8>, CipError>(e),
        },
{
    if res.len() < 4 {
        return Err(CipError::VendorSpecific(0xFE));
    }
    let general_status = res[2];
    if general_status != 0 {
        return Err(CipError::from(general_status));
    }
    let ext_words = res[3] as usize;
    let data_start = 4 + ext_words * 2;
    if res.len() < data_start {
        return Err(CipError::VendorSpecific(0xFD));
    }
    Ok(&res[data_start..res.len()])
}

/// The value that a Read Tag (or Get Attribute Single) reply carries.
pub open spec fn spec_read_reply_value(res: Seq<u8>) -> Result<CipValue, CipError> {
    match spec_reply_payload(res) {
        Err(e) => Err(e),
        Ok(p) => match spec_decode_cip_response(p) {
            Some(v) => Ok(v),
            None => Err(CipError::VendorSpecific(0xFC)),
        },
    }
}

/// `a` and `b` are the same outcome of a read; texts are compared by their
/// characters.
pub open spec fn same_read(a: Result<CipValue, CipError>, b: Result<CipValue, CipError>) -> bool {
    match a {
        Ok(x) => b matches Ok(y) && same_value(x, y),
        Err(e) => b == Err::<CipValue, CipError>(e),
    }
}

pub fn read_reply_value(res: &[u8]) -> (r: Result<CipValue, CipError>)
    ensures
        same_read(r, spec_read_reply_value(res@)),
{
    let payload = parse_cip_response_payload(res)?;
    match decode_cip_response(payload) {
        Some(v) => Ok(v),
        None => Err(CipError::VendorSpecific(0xFC)),
    }
}

/// The outcome that a Write Tag reply reports.
pub open spec fn spec_write_reply_result(res: Seq<u8>) -> Result<(), CipError> {
    match spec_write_reply(res) {
        Ok(()) => Ok(()),
        Err(status) => Err(spec_status_error(status)),
    }
}

pub fn write_reply_result(res: &[u8]) -> (r: Result<(), CipError>)
    ensures
        r == spec_write_reply_result(res@),
{
    match decode_write_response(res) {
        Ok(()) => Ok(()),
        Err(status) => Err(CipError::from(status)),
    }
}

/// The elements that a Read Tag reply for several elements carries.
pub open spec fn spec_read_multi_reply(res: Seq<u8>) -> Result<Seq<CipValue>, CipError> {
    match spec_reply_payload(res) {
        Err(e) => Err(e),
        Ok(p) => if p.len() < 2 {
            Err(CipError::VendorSpecific(0xFD))
        } else {
            Ok(spec_data_list(le16(p, 0) as u16, p.subrange(2, p.len() as int)))
        },
    }
}

pub fn read_multi_reply_values(res: &[u8]) -> (r: Result<Vec<CipValue>, CipError>)
    ensures
        match r {
            Ok(vs) => spec_read_multi_reply(res@) == Ok::<Seq<CipValue>, CipError>(vs@),
            Err(e) => spec_read_multi_reply(res@) == Err::<Seq<CipValue>, CipError>(e),
        },
{
    let payload = parse_cip_response_payload(res)?;
    if payload.len() < 2 {
        return Err(CipError::VendorSpecific(0xFD));
    }
    let type_id = get_u16(payload, 0);
    let data = &payload[2..payload.len()];
    Ok(decode_cip_data_list(type_id, data))
}

/// The symbols that a symbol browse reply lists.
pub fn browse_reply_symbols(res: &[u8]) -> (r: Result<Vec<SymbolInfo>, CipError>)
    ensures
        match r {
            Ok(syms) => spec_reply_payload(res@) matches Ok(p) && syms@.len() == symbols_from(p, 0).len()
                && forall|i: int|
                0 <= i < syms@.len() ==> symbol_matches(#[trigger] syms@[i], symbols_from(p, 0)[i]),
            Err(e) => spec_reply_payload(res@) == Err::<Seq<u8>, CipError>(e),
        },
{
    let payload = parse_cip_response_payload(res)?;
    Ok(parse_symbol_browse_response(payload))
}

/// The Identity object from its attributes; an undecodable attribute block
/// is reported as vendor-specific status 0xFC.
pub fn identity_from_attributes(raw: &[u8]) -> (r: Result<IdentityInfo, CipError>)
    ensures
        match r {
            Ok(info) => identity_decode_error(raw@) is None && identity_matches(info, raw@),
            Err(e) => identity_decode_error(raw@) is Some && e == CipError::VendorSpecific(0xFC),
        },
{
    match IdentityInfo::decode(raw) {
        Ok(info) => Ok(info),
        Err(_) => Err(CipError::VendorSpecific(0xFC)),
    }
}

/// The Connection Manager object from its attributes; an undecodable
/// attribute block is reported as vendor-specific status 0xFC.
pub fn connection_manager_from_attributes(raw: &[u8]) -> (r: Result<ConnectionManagerInfo, CipError>)
    ensures
        match r {
            Ok(info) => raw@.len() >= 6 && info.revision == le16(raw@, 0) && info.status == le16(raw@, 2)
                && info.configuration_capability == le16(raw@, 4),
            Err(e) => raw@.len() < 6 && e == CipError::VendorSpecific(0xFC),
        },
{
    match ConnectionManagerInfo::decode(raw) {
        Ok(info) => Ok(info),
        Err(_) => Err(CipError::VendorSpecific(0xFC)),
    }
}

/// The error of a typed accessor that got a value of another type.
pub open spec fn is_mismatch(e: CipError, expected: Seq<char>, v: CipValue) -> bool {
    e matches CipError::TypeMismatch { expected: x, actual: a } && x@ == expected && a@ == spec_type_name(v)
}

pub fn expect_bool(v: CipValue) -> (r: Result<bool, CipError>)
    ensures
        match v {
            CipValue::Bool(b) => r == Ok::<bool, CipError>(b),
            _ => r matches Err(e) && is_mismatch(e, "BOOL"@, v),
        },
{
    match v {
        CipValue::Bool(b) => Ok(b),
        other => Err(CipError::TypeMismatch { expected: "BOOL", actual: other.type_label() }),
    }
}

pub fn expect_sint(v: CipValue) -> (r: Result<i8, CipError>)
    ensures
        match v {
            CipValue::SInt(x) => r == Ok::<i8, CipError>(x),
            _ => r matches Err(e) && is_mismatch(e, "SINT"@, v),
        },
{
    match v {
        CipValue::SInt(x) => Ok(x),
        other => Err(CipError::TypeMismatch { expected: "SINT", actual: other.type_label() }),
    }
}

pub fn expect_int(v: CipValue) -> (r: Result<i16, CipError>)
    ensures
        match v {
            CipValue::Int(x) => r == Ok::<i16, CipError>(x),
            _ => r matches Err(e) && is_mismatch(e, "INT"@, v),
        },
{
    match v {
        CipValue::Int(x) => Ok(x),
        other => Err(CipError::TypeMismatch { expected: "INT", actual: other.type_label() }),
    }
}

pub fn expect_dint(v: CipValue) -> (r: Result<i32, CipError>)
    ensures
        match v {
            CipValue::DInt(x) => r == Ok::<i32, CipError>(x),
            _ => r matches Err(e) && is_mismatch(e, "DINT"@, v),
        },
{
    match v {
        CipValue::DInt(x) => Ok(x),
        other => Err(CipError::TypeMismatch { expected: "DINT", actual: other.type_label() }),
    }
}

/// A REAL, as the bit pattern of its single-precision value.
pub fn expect_real(v: CipValue) -> (r: Result<u32, CipError>)
    ensures
        match v {
            CipValue::Real(bits) => r == Ok::<u32, CipError>(bits),
            _ => r matches Err(e) && is_mismatch(e, "REAL"@, v),
        },
{
    match v {
        CipValue::Real(bits) => Ok(bits),
        other => Err(CipError::TypeMismatch { expected: "REAL", actual: other.type_label() }),
    }
}

pub fn expect_string(v: CipValue) -> (r: Result<String, CipError>)
    ensures
        match v {
            CipValue::String(s) => r matches Ok(t) && t@ == s@,
            _ => r matches Err(e) && is_mismatch(e, "STRING"@, v),
        },
{
    match v {
        CipValue::String(s) => Ok(s),
        other => Err(CipError::TypeMismatch { expected: "STRING", actual: other.type_label() }),
    }
}

/// The name of element `i` of array tag `tag`: `tag[i]`.
pub fn indexed_tag_name(tag: &str, i: usize) -> (s: String)
    ensures
        s@ == tag@ + "["@ + decimal(i as nat) + "]"@,
{
    let mut s = String::from_str(tag);
    s.append("[");
    push_decimal(&mut s, i as u64);
    s.append("]");
    s
}

/// The Read Tag requests of a multi-tag read, one per tag.
pub fn read_requests(tags: &[&str], slot: Option<u8>) -> (reqs: Vec<Vec<u8>>)
    requires
        forall|i: int| 0 <= i < tags@.len() ==> tag_ok(#[trigger] tags@[i].spec_bytes()),
    ensures
        reqs@.len() == tags@.len(),
        forall|i: int|
            0 <= i < tags@.len() ==> (#[trigger] reqs@[i])@ == spec_read_request(tags@[i].spec_bytes(), slot),
{
    let mut reqs: Vec<Vec<u8>> = Vec::new();
    let mut i: usize = 0;
    while i < tags.len()
        invariant
            i <= tags@.len(),
            reqs@.len() == i,
            forall|j: int| 0 <= j < tags@.len() ==> tag_ok(#[trigger] tags@[j].spec_bytes()),
            forall|j: int|
                0 <= j < i ==> (#[trigger] reqs@[j])@ == spec_read_request(tags@[j].spec_bytes(), slot),
        decreases tags@.len() - i,
    {
        let cip = build_read_request(tags[i], slot);
        reqs.push(cip);
        i = i + 1;
    }
    reqs
}

/// How an array of values is written.
#[derive(Debug)]
pub enum ArrayWritePlan {
    /// Nothing to write.
    Done,
    /// One Write Tag request carries every element.
    Send(Vec<u8>),
    /// The elements are written one by one, as `tag[i]`.
    PerElement,
}

/// The type code under which a value can be packed into an array write.
pub open spec fn packed_type(v: CipValue) -> Option<u16> {
    match v {
        CipValue::Bool(_) => Some(0xC1u16),
        CipValue::SInt(_) => Some(0xC2u16),
        CipValue::Int(_) => Some(0xC3u16),
        CipValue::DInt(_) => Some(0xC4u16),
        CipValue::Real(_) => Some(0xCAu16),
        _ => None,
    }
}

/// The bytes of one packed element: a BOOL as 1 or 0, the others
/// little-endian in two's complement.
pub open spec fn packed_bytes(v: CipValue) -> Seq<u8> {
    match v {
        CipValue::Bool(b) => seq![
            if b {
                1u8
            } else {
                0u8
            },
        ],
        CipValue::SInt(x) => seq![unsigned_of(x as int, 256) as u8],
        CipValue::Int(x) => u16_bytes(unsigned_of(x as int, 65536)),
        CipValue::DInt(x) => u32_bytes(unsigned_of(x as int, 4294967296)),
        CipValue::Real(bits) => u32_bytes(bits as int),
        _ => Seq::empty(),
    }
}

/// The first `k` values packed back to back.
pub open spec fn packed_data(vs: Seq<CipValue>, k: int) -> Seq<u8>
    decreases k,
{
    if k <= 0 {
        Seq::empty()
    } else {
        packed_data(vs, k - 1) + packed_bytes(vs[k - 1])
    }
}

/// The index of the first value from `j` on whose type differs from that
/// of the first value (the number of values if none does).
pub open spec fn first_other_type(vs: Seq<CipValue>, j: int) -> int
    decreases vs.len() - j,
{
    if j >= vs.len() || j < 0 {
        vs.len() as int
    } else if packed_type(vs[j]) != packed_type(vs[0]) {
        j
    } else {
        first_other_type(vs, j + 1)
    }
}

/// The single Write Tag request for a homogeneous array: the service and
/// path of the request that writes the first value, then the type code,
/// the number of values (modulo 2^16) and the packed values.
pub open spec fn array_write_request(t: Seq<u8>, vs: Seq<CipValue>, slot: Option<u8>) -> Seq<u8> {
    let tmpl = spec_write_request(t, vs[0], slot);
    tmpl.subrange(0, 2 + 2 * tmpl[1]) + u16_bytes(packed_type(vs[0])->0 as int) + u16_bytes(
        vs.len() as int % 65536,
    ) + packed_data(vs, vs.len() as int)
}

proof fn lemma_first_other_type_step(vs: Seq<CipValue>, j: int)
    requires
        0 <= j < vs.len(),
        packed_type(vs[j]) == packed_type(vs[0]),
    ensures
        first_other_type(vs, j) == first_other_type(vs, j + 1),
{
}

/// Whether planning the write of `values` builds a request, and so needs a
/// tag reference that can be encoded: the values are BOOL, SINT, INT, DINT
/// or REAL, all of the type of the first.
pub fn array_write_needs_tag(values: &[CipValue]) -> (r: bool)
    ensures
        r == (values@.len() > 0 && packed_type(values@[0]) is Some && first_other_type(values@, 0)
            == values@.len()),
{
    if values.len() == 0 {
        return false;
    }
    let ghost vs = values@;
    let first = &values[0];
    match first {
        CipValue::Bool(_) | CipValue::SInt(_) | CipValue::Int(_) | CipValue::DInt(_) | CipValue::Real(_) => {},
        _ => return false,
    }
    let mut i: usize = 0;
    while i < values.len()
        invariant
            vs == values@,
            vs.len() > 0,
            *first == vs[0],
            packed_type(vs[0]) is Some,
            i <= vs.len(),
            first_other_type(vs, 0) == first_other_type(vs, i as int),
        decreases vs.len() - i,
    {
        let same = match (first, &values[i]) {
            (CipValue::Bool(_), CipValue::Bool(_)) => true,
            (CipValue::SInt(_), CipValue::SInt(_)) => true,
            (CipValue::Int(_), CipValue::Int(_)) => true,
            (CipValue::DInt(_), CipValue::DInt(_)) => true,
            (CipValue::Real(_), CipValue::Real(_)) => true,
            _ => false,
        };
        if !same {
            assert(packed_type(vs[i as int]) != packed_type(vs[0]));
            assert(first_other_type(vs, i as int) == i);
            return false;
        }
        proof {
            lemma_first_other_type_step(vs, i as int);
        }
        i = i + 1;
    }
    true
}

/// Plans the write of `values` to array tag `tag`: nothing for no values;
/// one request when the values are BOOL, SINT, INT, DINT or REAL, all of
/// the type of the first; a type mismatch for the first value of another
/// type; element by element when the first value is of another kind.
pub fn plan_array_write(tag: &str, values: &[CipValue], slot: Option<u8>) -> (r: Result<
    ArrayWritePlan,
    CipError,
>)
    requires
        values@.len() > 0 && packed_type(values@[0]) is Some && first_other_type(values@, 0) == values@.len()
            ==> tag_ok(tag.spec_bytes()),
    ensures
        values@.len() == 0 ==> r matches Ok(ArrayWritePlan::Done),
        values@.len() > 0 && packed_type(values@[0]) is None ==> r matches Ok(ArrayWritePlan::PerElement),
        values@.len() > 0 && packed_type(values@[0]) is Some ==> {
            let k = first_other_type(values@, 0);
            let tmpl = spec_write_request(tag.spec_bytes(), values@[0], slot);
            if k < values@.len() {
                r matches Err(e) && is_mismatch(e, spec_type_name(values@[0]), values@[k])
            } else if tmpl.len() < 4 {
                r == Err::<ArrayWritePlan, CipError>(CipError::VendorSpecific(0xFE))
            } else if tmpl.len() < 2 + 2 * tmpl[1] {
                r == Err::<ArrayWritePlan, CipError>(CipError::VendorSpecific(0xFD))
            } else {
                r matches Ok(ArrayWritePlan::Send(cip)) && cip@ == array_write_request(
                    tag.spec_bytes(),
                    values@,
                    slot,
                )
            }
        },
{
    if values.len() == 0 {
        return Ok(ArrayWritePlan::Done);
    }
    let ghost vs = values@;
    let first = &values[0];
    let type_id: u16 = match first {
        CipValue::Bool(_) => 0x00C1,
        CipValue::SInt(_) => 0x00C2,
        CipValue::Int(_) => 0x00C3,
        CipValue::DInt(_) => 0x00C4,
        CipValue::Real(_) => 0x00CA,
        _ => return Ok(ArrayWritePlan::PerElement),
    };
    let mut raw: Vec<u8> = Vec::new();
    let mut i: usize = 0;
    while i < values.len()
        invariant
            vs == values@,
            vs.len() > 0,
            *first == vs[0],
            i <= vs.len(),
            packed_type(vs[0]) == Some(type_id),
            first_other_type(vs, 0) == first_other_type(vs, i as int),
            raw@ == packed_data(vs, i as int),
        decreases vs.len() - i,
    {
        let v = &values[i];
        match v {
            CipValue::Bool(b) if type_id == 0x00C1 => raw.push(if *b { 1 } else { 0 }),
            CipValue::SInt(x) if type_id == 0x00C2 => raw.push(from_i8(*x)),
            CipValue::Int(x) if type_id == 0x00C3 => push_u16(&mut raw, from_i16(*x)),
            CipValue::DInt(x) if type_id == 0x00C4 => push_u32(&mut raw, from_i32(*x)),
            CipValue::Real(bits) if type_id == 0x00CA => push_u32(&mut raw, *bits),
            other => {
                assert(packed_type(vs[i as int]) != packed_type(vs[0]));
                assert(first_other_type(vs, i as int) == i);
                return Err(
                    CipError::TypeMismatch { expected: first.type_label(), actual: other.type_label() },
                );
            },
        }
        proof {
            lemma_first_other_type_step(vs, i as int);
        }
        i = i + 1;
        assert(raw@ =~= packed_data(vs, i as int));
    }
    let template_cip = build_write_request(tag, first, slot);
    if template_cip.len() < 4 {
        return Err(CipError::VendorSpecific(0xFE));
    }
    let path_words = template_cip[1] as usize;
    let header_len = 2 + (path_words * 2);
    if template_cip.len() < header_len {
        return Err(CipError::VendorSpecific(0xFD));
    }
    let mut cip: Vec<u8> = Vec::new();
    push_all(&mut cip, &template_cip.as_slice()[0..header_len]);
    push_u16(&mut cip, type_id);
    push_u16(&mut cip, (values.len() % 65536) as u16);
    push_all(&mut cip, raw.as_slice());
    Ok(ArrayWritePlan::Send(cip))
}

/// One element of an array reply, packed again as an array write packs it,
/// gives back its bytes.
proof fn lemma_element_reencodes(t: u16, d: Seq<u8>, at: int)
    requires
        element_size(t) > 0,
        0 <= at,
        at + element_size(t) <= d.len(),
        t == 0xC1 ==> d[at] <= 1,
    ensures
        packed_bytes(element_at(t, d, at)) == d.subrange(at, at + element_size(t)),
        packed_type(element_at(t, d, at)) == Some(t),
{
    if t == 0xC1 {
        assert(packed_bytes(element_at(t, d, at)) =~= d.subrange(at, at + 1));
    } else if t == 0xC2 {
        let x = signed_of(d[at] as int, 256);
        assert(-128 <= x < 128);
        assert(unsigned_of((x as i8) as int, 256) == d[at]);
        assert(packed_bytes(element_at(t, d, at)) =~= d.subrange(at, at + 1));
    } else if t == 0xC3 {
        let x = signed_of(le16(d, at), 65536);
        assert(-32768 <= x < 32768);
        assert(unsigned_of((x as i16) as int, 65536) == le16(d, at));
        lemma_u16_bytes_of_le16(d, at);
    } else if t == 0xC4 {
        let x = signed_of(le32(d, at), 4294967296);
        assert(-2147483648 <= x < 2147483648);
        assert(unsigned_of((x as i32) as int, 4294967296) == le32(d, at));
        lemma_u32_bytes_of_le32(d, at);
    } else {
        lemma_u32_bytes_of_le32(d, at);
    }
}

proof fn lemma_array_prefix_reencodes(t: u16, d: Seq<u8>, k: int)
    requires
        element_size(t) > 0,
        0 <= k <= d.len() as int / element_size(t),
        t == 0xC1 ==> forall|i: int| 0 <= i < d.len() ==> d[i] <= 1,
    ensures
        packed_data(spec_data_list(t, d), k) == d.subrange(0, k * element_size(t)),
    decreases k,
{
    let size = element_size(t);
    let vs = spec_data_list(t, d);
    if k > 0 {
        lemma_array_prefix_reencodes(t, d, k - 1);
        let at = (k - 1) * size;
        assert(at + size == k * size && k * size <= d.len() && 0 <= at) by (nonlinear_arith)
            requires
                at == (k - 1) * size,
                1 <= k <= d.len() as int / size,
                size > 0,
        ;
        assert(vs[k - 1] == element_at(t, d, at));
        lemma_element_reencodes(t, d, at);
        assert(packed_data(vs, k) =~= d.subrange(0, k * size));
    } else {
        assert(packed_data(vs, 0) =~= d.subrange(0, 0));
    }
}

/// What an array read gives back, packed again as an array write packs it,
/// is the data it was read from: decoding a BOOL, SINT, INT, DINT or REAL
/// array gives one element of that type per whole element of the data, and
/// packing them gives back those bytes (for BOOL, data of 0 and 1 bytes).
pub proof fn lemma_array_read_reencodes(t: u16, d: Seq<u8>)
    requires
        t == 0xC1 || t == 0xC2 || t == 0xC3 || t == 0xC4 || t == 0xCA,
        t == 0xC1 ==> forall|i: int| 0 <= i < d.len() ==> d[i] <= 1,
    ensures
        ({
            let vs = spec_data_list(t, d);
            let size = element_size(t);
            &&& vs.len() == d.len() as int / size
            &&& forall|i: int| 0 <= i < vs.len() ==> packed_type(#[trigger] vs[i]) == Some(t)
            &&& packed_data(vs, vs.len() as int) == d.subrange(0, vs.len() * size)
        }),
{
    let size = element_size(t);
    let vs = spec_data_list(t, d);
    assert forall|i: int| 0 <= i < vs.len() implies packed_type(#[trigger] vs[i]) == Some(t) by {
        let at = i * size;
        assert(0 <= at && at + size <= d.len()) by (nonlinear_arith)
            requires
                at == i * size,
                0 <= i < d.len() as int / size,
                size > 0,
        ;
        lemma_element_reencodes(t, d, at);
    }
    lemma_array_prefix_reencodes(t, d, vs.len() as int);
}

} // verus!
