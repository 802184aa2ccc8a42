//! The 24-byte EtherNet/IP encapsulation header that frames every TCP and
//! UDP message.
use vstd::prelude::*;
use crate::le::{get_u16, get_u32, le16, le32, u16_bytes, u32_bytes, lemma_le16_at, lemma_le32_at, lemma_u16_bytes_roundtrip, lemma_u32_bytes_roundtrip};

verus! {

pub const COMMAND_LIST_IDENTITY: u16 = 0x0063;
pub const COMMAND_REGISTER_SESSION: u16 = 0x0065;
pub const COMMAND_UNREGISTER_SESSION: u16 = 0x0066;
pub const COMMAND_SEND_RR_DATA: u16 = 0x006F;
pub const COMMAND_SEND_UNIT_DATA: u16 = 0x0070;

/// Size of the encapsulation header in bytes.
pub const HEADER_SIZE: usize = 24;

#[derive(Debug, Clone, Copy, PartialEq, Eq)]
pub struct EncapsulationHeader {
    pub command: u16,
    pub length: u16,
    pub session: u32,
    pub status: u32,
    pub sender_context: [u8; 8],
    pub options: u32,
}

/// The wire form of a header: each field little-endian, in declaration
/// order.
pub open spec fn header_bytes(h: EncapsulationHeader) -> Seq<u8> {
    u16_bytes(h.command as int) + u16_bytes(h.length as int) + u32_bytes(h.session as int)
        + u32_bytes(h.status as int) + h.sender_context@ + u32_bytes(h.options as int)
}

/// The header read from the first 24 bytes of `b`.
pub open spec fn header_at(b: Seq<u8>) -> EncapsulationHeader {
    EncapsulationHeader {
        command: le16(b, 0) as u16,
        length: le16(b, 2) as u16,
        session: le32(b, 4) as u32,
        status: le32(b, 8) as u32,
        sender_context: [b[12], b[13], b[14], b[15], b[16], b[17], b[18], b[19]],
        options: le32(b, 20) as u32,
    }
}

fn u16_le(v: u16) -> (r: [u8; 2])
    ensures
        r@ == u16_bytes(v as int),
{
    let r = [(v % 256) as u8, (v / 256) as u8];
    assert(r@ =~= u16_bytes(v as int));
    r
}

fn u32_le(v: u32) -> (r: [u8; 4])
    ensures
        r@ == u32_bytes(v as int),
{
    let lo = u16_le((v % 65536) as u16);
    let hi = u16_le((v / 65536) as u16);
    let r = [lo[0], lo[1], hi[0], hi[1]];
    assert(r@ =~= u32_bytes(v as int));
    r
}

/// The header for `command` with a zero status, sender context and
/// options.
pub open spec fn spec_new_header(command: u16, length: u16, session: u32) -> EncapsulationHeader {
    EncapsulationHeader {
        command,
        length,
        session,
        status: 0,
        sender_context: [0u8, 0u8, 0u8, 0u8, 0u8, 0u8, 0u8, 0u8],
        options: 0,
    }
}

impl EncapsulationHeader {
    /// A header for `command` with a zero status, sender context and
    /// options.
    pub fn new(command: u16, length: u16, session: u32) -> (h: Self)
        ensures
            h == spec_new_header(command, length, session),
    {
        let h = Self {
            command,
            length,
            session,
            status: 0,
            sender_context: [0, 0, 0, 0, 0, 0, 0, 0],
            options: 0,
        };
        assert(h.sender_context =~= spec_new_header(command, length, session).sender_context);
        h
    }

    pub fn to_bytes(&self) -> (buf: [u8; 24])
        ensures
            buf@ == header_bytes(*self),
    {
        let c = self.sender_context;
        let cmd = u16_le(self.command);
        let len = u16_le(self.length);
        let ses = u32_le(self.session);
        let st = u32_le(self.status);
        let opt = u32_le(self.options);
        let buf = [
            cmd[0], cmd[1], len[0], len[1], ses[0], ses[1], ses[2], ses[3], st[0], st[1], st[2],
            st[3], c[0], c[1], c[2], c[3], c[4], c[5], c[6], c[7], opt[0], opt[1], opt[2], opt[3],
        ];
        assert(buf@ =~= header_bytes(*self));
        buf
    }

    /// The header at the start of `buf`; `None` when `buf` is shorter than
    /// a header.
    pub fn from_bytes(buf: &[u8]) -> (r: Option<Self>)
        ensures
            r == (if buf@.len() < 24 {
                None
            } else {
                Some(header_at(buf@))
            }),
    {
        if buf.len() < 24 {
            return None;
        }
        let h = Self {
            command: get_u16(buf, 0),
            length: get_u16(buf, 2),
            session: get_u32(buf, 4),
            status: get_u32(buf, 8),
            sender_context: [buf[12], buf[13], buf[14], buf[15], buf[16], buf[17], buf[18], buf[19]],
            options: get_u32(buf, 20),
        };
        assert(h.sender_context@ =~= header_at(buf@).sender_context@);
        Some(h)
    }
}

/// Reading back the bytes of a header gives the same header.
pub proof fn lemma_header_roundtrip(h: EncapsulationHeader)
    ensures
        header_bytes(h).len() == 24,
        header_at(header_bytes(h)) == h,
        le16(header_bytes(h), 0) == h.command,
        le16(header_bytes(h), 2) == h.length,
        le32(header_bytes(h), 4) == h.session,
        le32(header_bytes(h), 8) == h.status,
        header_bytes(h).subrange(12, 20) == h.sender_context@,
        le32(header_bytes(h), 20) == h.options,
{
    let b = header_bytes(h);
    lemma_u16_bytes_roundtrip(h.command as int);
    lemma_u16_bytes_roundtrip(h.length as int);
    lemma_u32_bytes_roundtrip(h.session as int);
    lemma_u32_bytes_roundtrip(h.status as int);
    lemma_u32_bytes_roundtrip(h.options as int);
    assert(b.len() == 24);
    assert(b.subrange(0, 2) =~= u16_bytes(h.command as int));
    assert(b.subrange(2, 4) =~= u16_bytes(h.length as int));
    assert(b.subrange(4, 8) =~= u32_bytes(h.session as int));
    assert(b.subrange(8, 12) =~= u32_bytes(h.status as int));
    assert(b.subrange(20, 24) =~= u32_bytes(h.options as int));
    lemma_le16_at(b, 0, h.command as int);
    lemma_le16_at(b, 2, h.length as int);
    lemma_le32_at(b, 4, h.session as int);
    lemma_le32_at(b, 8, h.status as int);
    lemma_le32_at(b, 20, h.options as int);
    let g = header_at(b);
    assert(g.sender_context =~= h.sender_context);
}

} // verus!
