//! Requests on CIP objects: Get Attribute Single/All, Forward Open/Close and
//! their Large variants, and the extended status of a refused request.
use vstd::prelude::*;
use crate::cip::connection::{
    connection_manager_path, message_router_path, params_valid, routed, spec_connection_manager_path,
    spec_message_router_path, spec_trigger_byte, ConnectionIds, ConnectionParams,
};
use crate::cip::path::{encode_path, segment_bytes, segments_bytes, spec_encode_path, PathSegment};
use crate::cip::service::CipService;
use crate::le::{get_u16, le16, le32, lemma_le16_at, lemma_le32_at, push_all, push_u16, push_u32, u16_bytes, u32_bytes};
use crate::text::{hex_digits, push_hex};

verus! {

/// Get Attribute Single (0x0E) on class/instance/attribute, routed to `slot`.
pub open spec fn spec_get_attribute_single_request(
    class: u16,
    instance: u16,
    attribute: u16,
    slot: Option<u8>,
) -> Seq<u8> {
    seq![0x0Eu8] + spec_encode_path(
        routed(
            slot,
            seq![
                PathSegment::Class(class),
                PathSegment::Instance(instance),
                PathSegment::Attribute(attribute),
            ],
        ),
    )
}

/// Get Attribute All (0x01) on class/instance, routed to `slot`.
pub open spec fn spec_get_attribute_all_request(class: u16, instance: u16, slot: Option<u8>) -> Seq<
    u8,
> {
    seq![0x01u8] + spec_encode_path(
        routed(slot, seq![PathSegment::Class(class), PathSegment::Instance(instance)]),
    )
}

fn push_routing(segs: &mut Vec<PathSegment>, slot: Option<u8>)
    ensures
        final(segs)@ == old(segs)@ + routed(slot, Seq::empty()),
{
    if let Some(slot) = slot {
        segs.push(PathSegment::Port { port: 1, link: slot });
    }
    assert(final(segs)@ =~= old(segs)@ + routed(slot, Seq::empty()));
}

pub fn build_get_attribute_single_request(
    class: u16,
    instance: u16,
    attribute: u16,
    slot: Option<u8>,
) -> (out: Vec<u8>)
    ensures
        out@ == spec_get_attribute_single_request(class, instance, attribute, slot),
{
    let mut segs = Vec::new();
    push_routing(&mut segs, slot);
    segs.push(PathSegment::Class(class));
    segs.push(PathSegment::Instance(instance));
    segs.push(PathSegment::Attribute(attribute));
    assert(segs@ =~= routed(
        slot,
        seq![
            PathSegment::Class(class),
            PathSegment::Instance(instance),
            PathSegment::Attribute(attribute),
        ],
    ));
    let path = encode_path(segs.as_slice());
    let mut out = Vec::new();
    out.push(CipService::GetAttributeSingle.as_u8());
    push_all(&mut out, path.as_slice());
    out
}

pub fn build_get_attribute_all_request(class: u16, instance: u16, slot: Option<u8>) -> (out: Vec<
    u8,
>)
    ensures
        out@ == spec_get_attribute_all_request(class, instance, slot),
{
    let mut segs = Vec::new();
    push_routing(&mut segs, slot);
    segs.push(PathSegment::Class(class));
    segs.push(PathSegment::Instance(instance));
    assert(segs@ =~= routed(slot, seq![PathSegment::Class(class), PathSegment::Instance(instance)]));
    let path = encode_path(segs.as_slice());
    let mut out = Vec::new();
    out.push(CipService::GetAttributeAll.as_u8());
    push_all(&mut out, path.as_slice());
    out
}

/// The connection path that closes a Forward Open or Forward Close: the
/// Message Router path's word count, then its segments.
pub open spec fn connection_path_tail(slot: Option<u8>) -> Seq<u8> {
    let mr = spec_message_router_path(slot);
    seq![(mr.len() / 2) as u8] + mr.subrange(1, mr.len() as int)
}

/// The identifiers of the connection: serial, vendor, originator serial.
pub open spec fn ids_bytes(ids: ConnectionIds) -> Seq<u8> {
    u16_bytes(ids.serial as int) + u16_bytes(ids.vendor as int) + u32_bytes(
        ids.originator_serial as int,
    )
}

/// Forward Open (0x54): Connection Manager path, priority/tick and timeout
/// ticks, zero connection IDs, the identifiers, timeout multiplier 3, then
/// for each direction the RPI and the network parameters (size with the
/// point-to-point bit 0x4000), the transport trigger and the connection path.
pub open spec fn spec_forward_open_request(
    slot: Option<u8>,
    params: ConnectionParams,
    ids: ConnectionIds,
) -> Seq<u8> {
    seq![0x54u8] + spec_connection_manager_path(slot) + seq![0x0Au8, 0x0Au8] + u32_bytes(0)
        + u32_bytes(0) + ids_bytes(ids) + seq![3u8, 0u8, 0u8, 0u8] + u32_bytes(params.rpi as int)
        + u16_bytes(0x4000 + params.o_to_t_size) + u32_bytes(params.rpi as int) + u16_bytes(
        0x4000 + params.t_to_o_size,
    ) + seq![spec_trigger_byte(params.trigger)] + connection_path_tail(slot)
}

/// Large Forward Open (0x5B): as a Forward Open, with a 32-bit O->T network
/// parameter word and a zero T->O RPI and parameter word.
pub open spec fn spec_large_forward_open_request(
    slot: Option<u8>,
    params: ConnectionParams,
    ids: ConnectionIds,
) -> Seq<u8> {
    seq![0x5Bu8] + spec_connection_manager_path(slot) + seq![0x0Au8, 0x0Au8] + u32_bytes(0)
        + u32_bytes(0) + ids_bytes(ids) + seq![3u8, 0u8, 0u8, 0u8] + u32_bytes(params.rpi as int)
        + u32_bytes(0x4000_0000 + params.o_to_t_size) + u32_bytes(0) + u32_bytes(0) + seq![
        spec_trigger_byte(params.trigger),
    ] + connection_path_tail(slot)
}

/// Forward Close (0x4E) or Large Forward Close (0x5E) of the connection
/// with these identifiers.
pub open spec fn spec_forward_close_request(service: u8, slot: Option<u8>, ids: ConnectionIds) -> Seq<
    u8,
> {
    seq![service] + spec_connection_manager_path(slot) + seq![0x0Au8, 0x0Au8] + ids_bytes(ids)
        + connection_path_tail(slot)
}

fn push_connection_path_tail(out: &mut Vec<u8>, slot: Option<u8>)
    ensures
        final(out)@ == old(out)@ + connection_path_tail(slot),
{
    let mr_path = message_router_path(slot);
    out.push((mr_path.len() / 2) as u8);
    push_all(out, &mr_path.as_slice()[1..mr_path.len()]);
    assert(final(out)@ =~= old(out)@ + connection_path_tail(slot));
}

fn push_ids(out: &mut Vec<u8>, ids: &ConnectionIds)
    ensures
        final(out)@ == old(out)@ + ids_bytes(*ids),
{
    push_u16(out, ids.serial);
    push_u16(out, ids.vendor);
    push_u32(out, ids.originator_serial);
    assert(final(out)@ =~= old(out)@ + ids_bytes(*ids));
}

/// The head shared by both Forward Opens: service, Connection Manager path,
/// ticks, zero connection IDs, identifiers, multiplier and O->T RPI.
fn push_open_head(out: &mut Vec<u8>, service: u8, slot: Option<u8>, params: &ConnectionParams, ids: &ConnectionIds)
    ensures
        final(out)@ == old(out)@ + seq![service] + spec_connection_manager_path(slot) + seq![0x0Au8, 0x0Au8] + u32_bytes(0)
            + u32_bytes(0) + ids_bytes(*ids) + seq![3u8, 0u8, 0u8, 0u8] + u32_bytes(params.rpi as int),
{
    let cm_path = connection_manager_path(slot);
    out.push(service);
    push_all(out, cm_path.as_slice());
    out.push(0x0A);
    out.push(0x0A);
    push_u32(out, 0);
    push_u32(out, 0);
    push_ids(out, ids);
    out.push(3);
    out.push(0);
    out.push(0);
    out.push(0);
    push_u32(out, params.rpi);
    assert(final(out)@ =~= old(out)@ + seq![service] + spec_connection_manager_path(slot) + seq![0x0Au8, 0x0Au8] + u32_bytes(0)
            + u32_bytes(0) + ids_bytes(*ids) + seq![3u8, 0u8, 0u8, 0u8] + u32_bytes(params.rpi as int));
}

pub fn build_forward_open_request(slot: Option<u8>, params: ConnectionParams, ids: ConnectionIds) -> (out:
    Vec<u8>)
    requires
        params_valid(params),
    ensures
        out@ == spec_forward_open_request(slot, params, ids),
{
    let mut out = Vec::new();
    push_open_head(&mut out, CipService::ForwardOpen.as_u8(), slot, &params, &ids);
    let ghost head = out@;
    let o_size = params.o_to_t_size;
    let t_size = params.t_to_o_size;
    assert((0x4000u16 | o_size) == 0x4000u16 + o_size) by (bit_vector)
        requires
            o_size <= 4000u16,
    ;
    assert((0x4000u16 | t_size) == 0x4000u16 + t_size) by (bit_vector)
        requires
            t_size <= 4000u16,
    ;
    let o_to_t: u16 = 0x4000 | o_size;
    push_u16(&mut out, o_to_t);
    push_u32(&mut out, params.rpi);
    let t_to_o: u16 = 0x4000 | t_size;
    push_u16(&mut out, t_to_o);
    out.push(params.trigger.to_byte());
    push_connection_path_tail(&mut out, slot);
    assert(out@ =~= spec_forward_open_request(slot, params, ids));
    out
}

pub fn build_large_forward_open_request(
    slot: Option<u8>,
    params: ConnectionParams,
    ids: ConnectionIds,
) -> (out: Vec<u8>)
    requires
        params_valid(params),
    ensures
        out@ == spec_large_forward_open_request(slot, params, ids),
{
    let mut out = Vec::new();
    push_open_head(&mut out, CipService::LargeForwardOpen.as_u8(), slot, &params, &ids);
    let o_size = params.o_to_t_size as u32;
    assert((0x4000_0000u32 | o_size) == 0x4000_0000u32 + o_size) by (bit_vector)
        requires
            o_size <= 4000u32,
    ;
    let o_to_t: u32 = 0x4000_0000 | o_size;
    push_u32(&mut out, o_to_t);
    push_u32(&mut out, 0);
    push_u32(&mut out, 0);
    out.push(params.trigger.to_byte());
    push_connection_path_tail(&mut out, slot);
    assert(out@ =~= spec_large_forward_open_request(slot, params, ids));
    out
}

fn build_close(service: u8, slot: Option<u8>, ids: &ConnectionIds) -> (out: Vec<u8>)
    ensures
        out@ == spec_forward_close_request(service, slot, *ids),
{
    let cm_path = connection_manager_path(slot);
    let mut out = Vec::new();
    out.push(service);
    push_all(&mut out, cm_path.as_slice());
    out.push(0x0A);
    out.push(0x0A);
    push_ids(&mut out, ids);
    push_connection_path_tail(&mut out, slot);
    assert(out@ =~= spec_forward_close_request(service, slot, *ids));
    out
}

pub fn build_forward_close_request(slot: Option<u8>, ids: ConnectionIds) -> (out: Vec<u8>)
    ensures
        out@ == spec_forward_close_request(0x4E, slot, ids),
{
    build_close(CipService::ForwardClose.as_u8(), slot, &ids)
}

pub fn build_large_forward_close_request(slot: Option<u8>, ids: ConnectionIds) -> (out: Vec<u8>)
    ensures
        out@ == spec_forward_close_request(0x5E, slot, ids),
{
    build_close(CipService::LargeForwardClose.as_u8(), slot, &ids)
}

/// The extended status words of a reply header (service, reserved, general
/// status, word count, words): as many of the announced words as the reply
/// holds whole.
pub open spec fn spec_extended_status(res: Seq<u8>) -> Seq<u16> {
    if res.len() < 4 {
        Seq::empty()
    } else {
        let n = if (res[3] as int) < (res.len() - 4) / 2 {
            res[3] as int
        } else {
            (res.len() - 4) / 2
        };
        Seq::new(n as nat, |k: int| le16(res, 4 + 2 * k) as u16)
    }
}

pub fn decode_extended_status(res: &[u8]) -> (out: Vec<u16>)
    ensures
        out@ == spec_extended_status(res@),
{
    if res.len() < 4 {
        return Vec::new();
    }
    let count = res[3] as usize;
    let mut out = Vec::new();
    let mut pos: usize = 4;
    let mut k: usize = 0;
    let rlen = res.len();
    while k < count
        invariant
            rlen == res@.len(),
            rlen >= 4,
            count == res@[3],
            k <= count,
            pos == 4 + 2 * k,
            k <= (rlen - 4) / 2,
            out@ == Seq::new(k as nat, |j: int| le16(res@, 4 + 2 * j) as u16),
        ensures
            out@ == spec_extended_status(res@),
        decreases count - k,
    {
        if pos + 1 >= res.len() {
            assert(out@ =~= spec_extended_status(res@));
            break;
        }
        out.push(get_u16(res, pos));
        pos = pos + 2;
        k = k + 1;
        assert(out@ =~= Seq::new(k as nat, |j: int| le16(res@, 4 + 2 * j) as u16));
    }
    out
}

/// The meaning of the extended status codes that the library knows.
pub open spec fn known_status_text(w: u16) -> Option<Seq<char>> {
    if w == 0x0100 {
        Some("Connection timeout"@)
    } else if w == 0x0204 {
        Some("Invalid connection size"@)
    } else if w == 0x0205 {
        Some("Invalid RPI"@)
    } else if w == 0x0315 {
        Some("Insufficient resources"@)
    } else if w == 0x0316 {
        Some("Unsupported transport trigger"@)
    } else {
        None
    }
}

/// The meanings of the first `k` words, separated by "; ".
pub open spec fn joined_texts(words: Seq<u16>, k: int) -> Seq<char>
    decreases k,
{
    if k <= 0 {
        Seq::empty()
    } else if k == 1 {
        known_status_text(words[0])->0
    } else {
        joined_texts(words, k - 1) + "; "@ + known_status_text(words[k - 1])->0
    }
}

/// Index of the first word whose meaning is unknown (`words.len()` if none).
pub open spec fn first_unknown(words: Seq<u16>) -> int
    decreases words.len(),
{
    if words.len() == 0 {
        0
    } else if known_status_text(words[0]) is None {
        0
    } else {
        1 + first_unknown(words.drop_first())
    }
}

/// Nothing for no words; the code of the first unknown word when there is
/// one; otherwise the meanings of all words.
pub open spec fn spec_describe_extended_status(words: Seq<u16>) -> Option<Seq<char>> {
    if words.len() == 0 {
        None
    } else if first_unknown(words) < words.len() {
        Some("Extended status: 0x"@ + hex_digits(words[first_unknown(words)] as int, 4))
    } else {
        Some(joined_texts(words, words.len() as int))
    }
}

proof fn lemma_first_unknown(words: Seq<u16>, k: int)
    requires
        0 <= k <= words.len(),
        forall|j: int| 0 <= j < k ==> known_status_text(#[trigger] words[j]) is Some,
        k < words.len() ==> known_status_text(words[k]) is None,
    ensures
        first_unknown(words) == k,
    decreases words.len(),
{
    if k > 0 {
        assert forall|j: int| 0 <= j < k - 1 implies known_status_text(
            #[trigger] words.drop_first()[j],
        ) is Some by {
            assert(words.drop_first()[j] == words[j + 1]);
        }
        lemma_first_unknown(words.drop_first(), k - 1);
    }
}

fn status_text(w: u16) -> (r: Option<&'static str>)
    ensures
        match r {
            Some(s) => known_status_text(w) == Some(s@),
            None => known_status_text(w) is None,
        },
{
    match w {
        0x0100 => Some("Connection timeout"),
        0x0204 => Some("Invalid connection size"),
        0x0205 => Some("Invalid RPI"),
        0x0315 => Some("Insufficient resources"),
        0x0316 => Some("Unsupported transport trigger"),
        _ => None,
    }
}

/// Human-readable meaning of extended status words.
pub fn describe_extended_status(words: &[u16]) -> (r: Option<String>)
    ensures
        match r {
            Some(s) => spec_describe_extended_status(words@) == Some(s@),
            None => spec_describe_extended_status(words@) is None,
        },
{
    if words.len() == 0 {
        return None;
    }
    let mut msgs = String::new();
    let mut i: usize = 0;
    while i < words.len()
        invariant
            i <= words@.len(),
            words@.len() > 0,
            forall|j: int| 0 <= j < i ==> known_status_text(#[trigger] words@[j]) is Some,
            msgs@ == joined_texts(words@, i as int),
        decreases words@.len() - i,
    {
        match status_text(words[i]) {
            Some(m) => {
                if i > 0 {
                    msgs.append("; ");
                }
                msgs.append(m);
            },
            None => {
                proof {
                    lemma_first_unknown(words@, i as int);
                }
                let mut s = String::from_str("Extended status: 0x");
                push_hex(&mut s, words[i] as u64, 4);
                return Some(s);
            },
        }
        i = i + 1;
        assert(msgs@ =~= joined_texts(words@, i as int));
    }
    proof {
        lemma_first_unknown(words@, words@.len() as int);
    }
    Some(msgs)
}

/// The Connection Manager path takes 5 bytes, or 9 when routed to a slot.
proof fn lemma_cm_path_len(slot: Option<u8>)
    ensures
        spec_connection_manager_path(slot).len() == if slot is None {
            5int
        } else {
            9int
        },
{
    let segs = routed(slot, seq![PathSegment::Class(0x06), PathSegment::Instance(0x01)]);
    reveal_with_fuel(segments_bytes, 4);
    if slot is None {
        assert(segs.drop_last() =~= seq![PathSegment::Class(0x06)]);
        assert(segs.drop_last().drop_last() =~= Seq::<PathSegment>::empty());
    } else {
        let p = PathSegment::Port { port: 1, link: slot->0 };
        assert(segs.drop_last() =~= seq![p, PathSegment::Class(0x06)]);
        assert(segs.drop_last().drop_last() =~= seq![p]);
        assert(segs.drop_last().drop_last().drop_last() =~= Seq::<PathSegment>::empty());
    }
}

/// Where a Forward Open puts its fields. After the service (0x54), the
/// Connection Manager path (5 bytes, or 9 with a slot) and the ticks come,
/// at `k - 12`, the connection serial, the vendor and the originator serial,
/// then the timeout multiplier 3, then for O->T and for T->O in turn the RPI
/// and the network parameter word, which is that direction's size with the
/// point-to-point bit 0x4000, and last the transport trigger byte.
#[verifier::spinoff_prover]
#[verifier::rlimit(60)]
pub proof fn lemma_forward_open_fields(slot: Option<u8>, params: ConnectionParams, ids: ConnectionIds)
    ensures
        ({
            let r = spec_forward_open_request(slot, params, ids);
            let k = if slot is None {
                28int
            } else {
                32int
            };
            &&& r[0] == 0x54
            &&& le16(r, k - 12) == ids.serial
            &&& le16(r, k - 10) == ids.vendor
            &&& le32(r, k - 8) == ids.originator_serial
            &&& r[k - 4] == 3
            &&& le32(r, k) == params.rpi
            &&& le16(r, k + 4) == (0x4000 + params.o_to_t_size) % 65536
            &&& le32(r, k + 6) == params.rpi
            &&& le16(r, k + 10) == (0x4000 + params.t_to_o_size) % 65536
            &&& r[k + 12] == spec_trigger_byte(params.trigger)
        }),
{
    lemma_cm_path_len(slot);
    let k = if slot is None {
        28int
    } else {
        32int
    };
    let pre = seq![0x54u8] + spec_connection_manager_path(slot) + seq![0x0Au8, 0x0Au8] + u32_bytes(0)
        + u32_bytes(0);
    let o = (0x4000 + params.o_to_t_size) % 65536;
    let t = (0x4000 + params.t_to_o_size) % 65536;
    let r = spec_forward_open_request(slot, params, ids);
    assert(u16_bytes(0x4000 + params.o_to_t_size) =~= u16_bytes(o));
    assert(u16_bytes(0x4000 + params.t_to_o_size) =~= u16_bytes(t));
    assert(r =~= pre + u16_bytes(ids.serial as int) + u16_bytes(ids.vendor as int) + u32_bytes(
        ids.originator_serial as int,
    ) + seq![3u8, 0u8, 0u8, 0u8] + u32_bytes(params.rpi as int) + u16_bytes(o) + u32_bytes(
        params.rpi as int,
    ) + u16_bytes(t) + seq![spec_trigger_byte(params.trigger)] + connection_path_tail(slot));
    assert(pre.len() == k - 12);
    assert(r.subrange(k - 12, k - 10) =~= u16_bytes(ids.serial as int));
    assert(r.subrange(k - 10, k - 8) =~= u16_bytes(ids.vendor as int));
    assert(r.subrange(k - 8, k - 4) =~= u32_bytes(ids.originator_serial as int));
    assert(r.subrange(k, k + 4) =~= u32_bytes(params.rpi as int));
    assert(r.subrange(k + 4, k + 6) =~= u16_bytes(o));
    assert(r.subrange(k + 6, k + 10) =~= u32_bytes(params.rpi as int));
    assert(r.subrange(k + 10, k + 12) =~= u16_bytes(t));
    lemma_le16_at(r, k - 12, ids.serial as int);
    lemma_le16_at(r, k - 10, ids.vendor as int);
    lemma_le32_at(r, k - 8, ids.originator_serial as int);
    lemma_le32_at(r, k, params.rpi as int);
    lemma_le16_at(r, k + 4, o);
    lemma_le32_at(r, k + 6, params.rpi as int);
    lemma_le16_at(r, k + 10, t);
    assert(r[k - 4] == 3);
    assert(r[k + 12] == spec_trigger_byte(params.trigger));
}

/// Where a Large Forward Open puts its fields: as in a Forward Open (see
/// `lemma_forward_open_fields`) up to the O->T RPI at `k`; then a 32-bit
/// O->T parameter word, the size with the point-to-point bit 0x4000_0000,
/// a zero T->O RPI and a zero T->O parameter word, and the trigger byte.
#[verifier::spinoff_prover]
#[verifier::rlimit(60)]
pub proof fn lemma_large_forward_open_fields(slot: Option<u8>, params: ConnectionParams, ids: ConnectionIds)
    ensures
        ({
            let r = spec_large_forward_open_request(slot, params, ids);
            let k = if slot is None {
                28int
            } else {
                32int
            };
            &&& r[0] == 0x5B
            &&& le16(r, k - 12) == ids.serial
            &&& le16(r, k - 10) == ids.vendor
            &&& le32(r, k - 8) == ids.originator_serial
            &&& r[k - 4] == 3
            &&& le32(r, k) == params.rpi
            &&& le32(r, k + 4) == 0x4000_0000 + params.o_to_t_size
            &&& le32(r, k + 8) == 0
            &&& le32(r, k + 12) == 0
            &&& r[k + 16] == spec_trigger_byte(params.trigger)
        }),
{
    lemma_cm_path_len(slot);
    let k = if slot is None {
        28int
    } else {
        32int
    };
    let pre = seq![0x5Bu8] + spec_connection_manager_path(slot) + seq![0x0Au8, 0x0Au8] + u32_bytes(0)
        + u32_bytes(0);
    let o = 0x4000_0000 + params.o_to_t_size;
    let r = spec_large_forward_open_request(slot, params, ids);
    assert(r =~= pre + u16_bytes(ids.serial as int) + u16_bytes(ids.vendor as int) + u32_bytes(
        ids.originator_serial as int,
    ) + seq![3u8, 0u8, 0u8, 0u8] + u32_bytes(params.rpi as int) + u32_bytes(o) + u32_bytes(0)
        + u32_bytes(0) + seq![spec_trigger_byte(params.trigger)] + connection_path_tail(slot));
    assert(pre.len() == k - 12);
    assert(r.subrange(k - 12, k - 10) =~= u16_bytes(ids.serial as int));
    assert(r.subrange(k - 10, k - 8) =~= u16_bytes(ids.vendor as int));
    assert(r.subrange(k - 8, k - 4) =~= u32_bytes(ids.originator_serial as int));
    assert(r.subrange(k, k + 4) =~= u32_bytes(params.rpi as int));
    assert(r.subrange(k + 4, k + 8) =~= u32_bytes(o));
    assert(r.subrange(k + 8, k + 12) =~= u32_bytes(0));
    assert(r.subrange(k + 12, k + 16) =~= u32_bytes(0));
    lemma_le16_at(r, k - 12, ids.serial as int);
    lemma_le16_at(r, k - 10, ids.vendor as int);
    lemma_le32_at(r, k - 8, ids.originator_serial as int);
    lemma_le32_at(r, k, params.rpi as int);
    lemma_le32_at(r, k + 4, o);
    lemma_le32_at(r, k + 8, 0);
    lemma_le32_at(r, k + 12, 0);
    assert(r[k - 4] == 3);
    assert(r[k + 16] == spec_trigger_byte(params.trigger));
}

/// Where a Forward Close (or Large Forward Close) puts its fields: the
/// service, the Connection Manager path (5 bytes, or 9 with a slot), the
/// ticks, then the connection serial, vendor and originator serial of the
/// connection it closes.
#[verifier::spinoff_prover]
pub proof fn lemma_forward_close_fields(service: u8, slot: Option<u8>, ids: ConnectionIds)
    ensures
        ({
            let r = spec_forward_close_request(service, slot, ids);
            let k = if slot is None {
                8int
            } else {
                12int
            };
            &&& r[0] == service
            &&& r[k - 2] == 0x0A && r[k - 1] == 0x0A
            &&& le16(r, k) == ids.serial
            &&& le16(r, k + 2) == ids.vendor
            &&& le32(r, k + 4) == ids.originator_serial
        }),
{
    lemma_cm_path_len(slot);
    let k = if slot is None {
        8int
    } else {
        12int
    };
    let pre = seq![service] + spec_connection_manager_path(slot) + seq![0x0Au8, 0x0Au8];
    let r = spec_forward_close_request(service, slot, ids);
    assert(r =~= pre + u16_bytes(ids.serial as int) + u16_bytes(ids.vendor as int) + u32_bytes(
        ids.originator_serial as int,
    ) + connection_path_tail(slot));
    assert(pre.len() == k);
    assert(r.subrange(k, k + 2) =~= u16_bytes(ids.serial as int));
    assert(r.subrange(k + 2, k + 4) =~= u16_bytes(ids.vendor as int));
    assert(r.subrange(k + 4, k + 8) =~= u32_bytes(ids.originator_serial as int));
    lemma_le16_at(r, k, ids.serial as int);
    lemma_le16_at(r, k + 2, ids.vendor as int);
    lemma_le32_at(r, k + 4, ids.originator_serial as int);
    assert(r[k - 2] == pre[k - 2]);
    assert(r[k - 1] == pre[k - 1]);
}

} // verus!
