//! Discovery by ListIdentity: the devices that a reply datagram describes.
use vstd::prelude::*;
use crate::encapsulation::{header_at, EncapsulationHeader, COMMAND_LIST_IDENTITY};
use crate::le::{get_u16, get_u32, le16, le32};
use crate::text::{decimal, hex_digits, utf8_text, push_decimal, push_hex, text_from_utf8_lossy};
use crate::types::DiscoveredIdentity;

verus! {

/// Discovery of the devices on the local network by a ListIdentity
/// broadcast.
pub struct DiscoveryImpl;

/// An Identity item (0x000C) long enough for its fields and its name.
pub open spec fn identity_item_ok(item: Seq<u8>) -> bool {
    item.len() >= 25 && item.len() >= 25 + item[24]
}

/// `d` describes the device of Identity item `item` answering from `ip`:
/// after protocol version, socket family and address (ignored) come vendor,
/// device type, product code, revision, status and serial number, then
/// the product name prefixed by its one-byte length.
pub open spec fn identity_item_matches(d: DiscoveredIdentity, item: Seq<u8>, ip: Seq<char>) -> bool {
    &&& d.ip@ == ip
    &&& d.vendor_id == le16(item, 10)
    &&& d.device_type == le16(item, 12)
    &&& d.product_code == le16(item, 14)
    &&& d.revision_major == item[16]
    &&& d.revision_minor == item[17]
    &&& d.status == le16(item, 18)
    &&& d.serial == le32(item, 20)
    &&& d.product_name@ == utf8_text(item.subrange(25, 25 + item[24]))
}

/// Parses the Identity item of a ListIdentity reply (not the Identity
/// object's attributes).
pub fn parse_discovery_identity(item: &[u8], ip: String) -> (r: Option<DiscoveredIdentity>)
    ensures
        match r {
            Some(d) => identity_item_ok(item@) && identity_item_matches(d, item@, ip@),
            None => !identity_item_ok(item@),
        },
{
    if item.len() < 25 {
        return None;
    }
    let vendor_id = get_u16(item, 10);
    let device_type = get_u16(item, 12);
    let product_code = get_u16(item, 14);
    let revision_major = item[16];
    let revision_minor = item[17];
    let status = get_u16(item, 18);
    let serial = get_u32(item, 20);
    let name_len = item[24] as usize;
    if item.len() < 25 + name_len {
        return None;
    }
    let product_name = text_from_utf8_lossy(&item[25..25 + name_len]);
    Some(
        DiscoveredIdentity {
            ip,
            vendor_id,
            device_type,
            product_code,
            revision_major,
            revision_minor,
            status,
            serial,
            product_name,
        },
    )
}

/// The bodies of the well-formed Identity items among the `n` CPF items
/// that start at `pos`, in order; the walk stops at a truncated item.
pub open spec fn identity_item_bodies(p: Seq<u8>, pos: int, n: int) -> Seq<Seq<u8>>
    decreases n,
{
    if n <= 0 || pos < 0 || p.len() < pos + 4 || p.len() < pos + 4 + le16(p, pos + 2) {
        Seq::empty()
    } else {
        let body = p.subrange(pos + 4, pos + 4 + le16(p, pos + 2));
        let rest = identity_item_bodies(p, pos + 4 + le16(p, pos + 2), n - 1);
        if le16(p, pos) == 0x0C && identity_item_ok(body) {
            seq![body] + rest
        } else {
            rest
        }
    }
}

/// The Identity items of a ListIdentity reply datagram: a successful
/// ListIdentity header, then a CPF item count and the items.
pub open spec fn reply_identity_items(buf: Seq<u8>) -> Seq<Seq<u8>> {
    if buf.len() < 24 || header_at(buf).command != COMMAND_LIST_IDENTITY || header_at(buf).status != 0
        || buf.len() < 26 {
        Seq::empty()
    } else {
        let p = buf.subrange(24, buf.len() as int);
        identity_item_bodies(p, 2, le16(p, 0))
    }
}

/// The devices that a ListIdentity reply datagram from `ip` describes.
pub fn list_identity_results(buf: &[u8], ip: &str) -> (out: Vec<DiscoveredIdentity>)
    ensures
        out@.len() == reply_identity_items(buf@).len(),
        forall|i: int|
            0 <= i < out@.len() ==> identity_item_matches(
                #[trigger] out@[i],
                reply_identity_items(buf@)[i],
                ip@,
            ),
{
    let mut results: Vec<DiscoveredIdentity> = Vec::new();
    if buf.len() < 24 {
        return results;
    }
    let hdr = match EncapsulationHeader::from_bytes(buf) {
        Some(h) => h,
        None => return results,
    };
    if hdr.command != COMMAND_LIST_IDENTITY || hdr.status != 0 {
        return results;
    }
    let payload = &buf[24..buf.len()];
    if payload.len() < 2 {
        return results;
    }
    let ghost p = payload@;
    let item_count = get_u16(payload, 0) as usize;
    let mut pos: usize = 2;
    let mut k: usize = 0;
    let ghost mut found: Seq<Seq<u8>> = Seq::empty();
    assert(reply_identity_items(buf@) == identity_item_bodies(p, 2, item_count as int));
    while k < item_count
        invariant
            p == payload@,
            2 <= pos <= p.len(),
            k <= item_count,
            reply_identity_items(buf@) == found + identity_item_bodies(p, pos as int, item_count - k),
            results@.len() == found.len(),
            forall|i: int|
                0 <= i < results@.len() ==> identity_item_matches(#[trigger] results@[i], found[i], ip@),
        ensures
            reply_identity_items(buf@) == found,
            results@.len() == found.len(),
            forall|i: int|
                0 <= i < results@.len() ==> identity_item_matches(#[trigger] results@[i], found[i], ip@),
        decreases item_count - k,
    {
        if payload.len() - pos < 4 {
            assert(identity_item_bodies(p, pos as int, item_count - k) =~= Seq::<Seq<u8>>::empty());
            assert(found + Seq::<Seq<u8>>::empty() =~= found);
            break;
        }
        let type_id = get_u16(payload, pos);
        let item_len = get_u16(payload, pos + 2) as usize;
        let body_start = pos + 4;
        if payload.len() - body_start < item_len {
            assert(identity_item_bodies(p, pos as int, item_count - k) =~= Seq::<Seq<u8>>::empty());
            assert(found + Seq::<Seq<u8>>::empty() =~= found);
            break;
        }
        let item = &payload[body_start..body_start + item_len];
        let ghost rest = identity_item_bodies(p, (body_start + item_len) as int, item_count - k - 1);
        let ghost before = found;
        if type_id == 0x000C {
            if let Some(info) = parse_discovery_identity(item, String::from_str(ip)) {
                proof {
                    found = found.push(item@);
                }
                results.push(info);
                assert(before.push(item@) + rest =~= before + (seq![item@] + rest));
            }
        }
        pos = body_start + item_len;
        k = k + 1;
    }
    if item_count == 0 {
        assert(identity_item_bodies(p, pos as int, 0) =~= Seq::<Seq<u8>>::empty());
    }
    results
}

/// The line that describes a discovered device: address, product name,
/// then vendor, device type, product code, revision, serial number and
/// status.
pub open spec fn identity_text(d: DiscoveredIdentity) -> Seq<char> {
    d.ip@ + " \u{2014} "@ + d.product_name@ + " (Vendor: "@ + decimal(d.vendor_id as nat) + ", Type: "@
        + decimal(d.device_type as nat) + ", Code: "@ + decimal(d.product_code as nat) + ", Rev: "@
        + decimal(d.revision_major as nat) + "."@ + decimal(d.revision_minor as nat) + ", Serial: "@
        + decimal(d.serial as nat) + ", Status: 0x"@ + hex_digits(d.status as int, 4) + ")"@
}

impl DiscoveredIdentity {
    pub fn to_string(&self) -> (s: String)
        ensures
            s@ == identity_text(*self),
    {
        let mut s = String::from_str(self.ip.as_str());
        s.append(" \u{2014} ");
        s.append(self.product_name.as_str());
        s.append(" (Vendor: ");
        push_decimal(&mut s, self.vendor_id as u64);
        s.append(", Type: ");
        push_decimal(&mut s, self.device_type as u64);
        s.append(", Code: ");
        push_decimal(&mut s, self.product_code as u64);
        s.append(", Rev: ");
        push_decimal(&mut s, self.revision_major as u64);
        s.append(".");
        push_decimal(&mut s, self.revision_minor as u64);
        s.append(", Serial: ");
        push_decimal(&mut s, self.serial as u64);
        s.append(", Status: 0x");
        push_hex(&mut s, self.status as u64, 4);
        s.append(")");
        s
    }
}

} // verus!
