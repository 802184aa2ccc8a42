//! The encapsulation messages that the client sends (RegisterSession,
//! SendRRData, SendUnitData), the checks on the headers of the replies, the
//! extraction of the CIP reply from their Common Packet Format body, and
//! the retry rule of unconnected requests.
use vstd::prelude::*;
use crate::client::{ClientSession, EthernetIpClient};
use crate::encapsulation::{
    header_bytes, spec_new_header, EncapsulationHeader, COMMAND_REGISTER_SESSION, COMMAND_SEND_RR_DATA,
    COMMAND_SEND_UNIT_DATA,
};
use crate::le::{get_u16, le16, push_all, push_u16, push_u32, u16_bytes, u32_bytes};
use crate::text::{hex_digits, push_hex};

verus! {

/// Why no CIP reply could be taken from a CPF body.
#[derive(Debug, Clone, Copy, PartialEq, Eq)]
pub enum CpfError {
    TooShort,
    ItemHeaderTruncated,
    ItemOutOfBounds,
    NoDataItem,
}

pub open spec fn cpf_error_text(e: CpfError) -> Seq<char> {
    match e {
        CpfError::TooShort => "Data too short for CPF"@,
        CpfError::ItemHeaderTruncated => "CPF item header truncated"@,
        CpfError::ItemOutOfBounds => "CPF item length out of bounds"@,
        CpfError::NoDataItem => "No CIP data item found in CPF"@,
    }
}

impl CpfError {
    pub fn message(&self) -> (m: &'static str)
        ensures
            m@ == cpf_error_text(*self),
    {
        match self {
            CpfError::TooShort => "Data too short for CPF",
            CpfError::ItemHeaderTruncated => "CPF item header truncated",
            CpfError::ItemOutOfBounds => "CPF item length out of bounds",
            CpfError::NoDataItem => "No CIP data item found in CPF",
        }
    }
}

/// The first data item (type 0x00B2) among the `n` items that start at
/// `pos`: where its data starts and how long it is.
pub open spec fn cpf_data_item(d: Seq<u8>, pos: int, n: int) -> Result<(int, int), CpfError>
    decreases n,
{
    if n <= 0 {
        Err(CpfError::NoDataItem)
    } else if d.len() < pos + 4 {
        Err(CpfError::ItemHeaderTruncated)
    } else if d.len() < pos + 4 + le16(d, pos + 2) {
        Err(CpfError::ItemOutOfBounds)
    } else if le16(d, pos) == 0xB2 {
        Ok((pos + 4, le16(d, pos + 2)))
    } else {
        cpf_data_item(d, pos + 4 + le16(d, pos + 2), n - 1)
    }
}

/// The CIP reply in a CPF body: after the interface handle and timeout, the
/// item count, then items of type, length and data.
pub open spec fn spec_parse_cpf(d: Seq<u8>) -> Result<Seq<u8>, CpfError> {
    if d.len() < 10 {
        Err(CpfError::TooShort)
    } else {
        match cpf_data_item(d, 8, le16(d, 6)) {
            Ok(item) => Ok(d.subrange(item.0, item.0 + item.1)),
            Err(e) => Err(e),
        }
    }
}

impl EthernetIpClient {
    /// The data of the first CIP data item of a CPF body.
    pub fn parse_cpf(data: &[u8]) -> (r: Result<&[u8], CpfError>)
        ensures
            match r {
                Ok(item) => spec_parse_cpf(data@) == Ok::<Seq<u8>, CpfError>(item@),
                Err(e) => spec_parse_cpf(data@) == Err::<Seq<u8>, CpfError>(e),
            },
    {
        if data.len() < 10 {
            return Err(CpfError::TooShort);
        }
        let item_count = get_u16(data, 6);
        let mut pos: usize = 8;
        let mut k: u16 = 0;
        while k < item_count
            invariant
                data@.len() >= 10,
                k <= item_count,
                item_count == le16(data@, 6),
                8 <= pos <= data@.len(),
                cpf_data_item(data@, 8, item_count as int) == cpf_data_item(
                    data@,
                    pos as int,
                    item_count - k,
                ),
            decreases item_count - k,
        {
            if data.len() - pos < 4 {
                return Err(CpfError::ItemHeaderTruncated);
            }
            let type_id = get_u16(data, pos);
            let len = get_u16(data, pos + 2) as usize;
            pos = pos + 4;
            if data.len() - pos < len {
                return Err(CpfError::ItemOutOfBounds);
            }
            if type_id == 0x00B2 {
                return Ok(&data[pos..pos + len]);
            }
            pos = pos + len;
            k = k + 1;
        }
        Err(CpfError::NoDataItem)
    }
}

/// A failure of the encapsulation layer.
#[derive(Debug, Clone, Copy, PartialEq, Eq)]
pub enum TransportError {
    NoConnection,
    BadHeader,
    EmptyPayload,
    UnexpectedCommand,
    InvalidHandshake,
    RegisterRefused(u32),
    Cpf(CpfError),
}

/// The number of hexadecimal digits of `v` when at least four are shown.
pub open spec fn hex4_width(v: u32) -> nat {
    if v < 0x10000 {
        4
    } else if v < 0x100000 {
        5
    } else if v < 0x1000000 {
        6
    } else if v < 0x10000000 {
        7
    } else {
        8
    }
}

pub open spec fn transport_error_text(e: TransportError) -> Seq<char> {
    match e {
        TransportError::NoConnection => "No active ForwardOpen connection"@,
        TransportError::BadHeader => "Bad encapsulation header"@,
        TransportError::EmptyPayload => "Empty encapsulation payload"@,
        TransportError::UnexpectedCommand => "Unexpected encapsulation command in response"@,
        TransportError::InvalidHandshake => "Handshake failed: invalid header"@,
        TransportError::RegisterRefused(status) => "RegisterSession failed with status 0x"@
            + hex_digits(status as int, hex4_width(status)),
        TransportError::Cpf(c) => cpf_error_text(c),
    }
}

impl TransportError {
    /// The message of the failure.
    pub fn to_string(&self) -> (s: String)
        ensures
            s@ == transport_error_text(*self),
    {
        match self {
            TransportError::NoConnection => String::from_str("No active ForwardOpen connection"),
            TransportError::BadHeader => String::from_str("Bad encapsulation header"),
            TransportError::EmptyPayload => String::from_str("Empty encapsulation payload"),
            TransportError::UnexpectedCommand => String::from_str(
                "Unexpected encapsulation command in response",
            ),
            TransportError::InvalidHandshake => String::from_str("Handshake failed: invalid header"),
            TransportError::RegisterRefused(status) => {
                let mut s = String::from_str("RegisterSession failed with status 0x");
                let v = *status;
                let width: usize = if v < 0x10000 {
                    4
                } else if v < 0x100000 {
                    5
                } else if v < 0x1000000 {
                    6
                } else if v < 0x10000000 {
                    7
                } else {
                    8
                };
                push_hex(&mut s, v as u64, width);
                s
            },
            TransportError::Cpf(c) => String::from_str(c.message()),
        }
    }
}

/// RegisterSession: protocol version 1, no options.
pub open spec fn spec_register_session_request() -> Seq<u8> {
    header_bytes(spec_new_header(COMMAND_REGISTER_SESSION, 4, 0)) + u16_bytes(1) + u16_bytes(0)
}

pub fn register_session_request() -> (pkt: Vec<u8>)
    ensures
        pkt@ == spec_register_session_request(),
{
    let h = EncapsulationHeader::new(COMMAND_REGISTER_SESSION, 4, 0).to_bytes();
    let mut pkt: Vec<u8> = Vec::new();
    push_all(&mut pkt, &h);
    push_u16(&mut pkt, 1);
    push_u16(&mut pkt, 0);
    pkt
}

/// The session that a RegisterSession reply grants: refused when its
/// header cannot be read or carries a nonzero status.
pub fn registered_session(reply: Option<EncapsulationHeader>) -> (r: Result<u32, TransportError>)
    ensures
        match reply {
            None => r == Err::<u32, TransportError>(TransportError::InvalidHandshake),
            Some(h) => r == if h.status != 0 {
                Err(TransportError::RegisterRefused(h.status))
            } else {
                Ok::<u32, TransportError>(h.session)
            },
        },
{
    match reply {
        None => Err(TransportError::InvalidHandshake),
        Some(h) => if h.status != 0 {
            Err(TransportError::RegisterRefused(h.status))
        } else {
            Ok(h.session)
        },
    }
}

/// SendRRData carrying `cip`: interface handle and timeout zero, a null
/// address item and a data item, under a header for `session`. Lengths are
/// taken modulo 2^16.
pub open spec fn spec_rr_data_request(session: u32, cip: Seq<u8>) -> Seq<u8> {
    let rr = u32_bytes(0) + u16_bytes(0) + u16_bytes(2) + u16_bytes(0) + u16_bytes(0) + u16_bytes(0xB2)
        + u16_bytes(cip.len() as int % 65536) + cip;
    header_bytes(spec_new_header(COMMAND_SEND_RR_DATA, (rr.len() % 65536) as u16, session)) + rr
}

pub fn rr_data_request(session: u32, cip: &[u8]) -> (pkt: Vec<u8>)
    ensures
        pkt@ == spec_rr_data_request(session, cip@),
{
    let mut rr: Vec<u8> = Vec::new();
    push_u32(&mut rr, 0);
    push_u16(&mut rr, 0);
    push_u16(&mut rr, 2);
    push_u16(&mut rr, 0x0000);
    push_u16(&mut rr, 0);
    push_u16(&mut rr, 0x00B2);
    push_u16(&mut rr, (cip.len() % 65536) as u16);
    push_all(&mut rr, cip);
    let ghost body = rr@;
    assert(body =~= u32_bytes(0) + u16_bytes(0) + u16_bytes(2) + u16_bytes(0) + u16_bytes(0) + u16_bytes(
        0xB2,
    ) + u16_bytes(cip@.len() as int % 65536) + cip@);
    let h = EncapsulationHeader::new(COMMAND_SEND_RR_DATA, (rr.len() % 65536) as u16, session).to_bytes();
    let mut pkt: Vec<u8> = Vec::new();
    push_all(&mut pkt, &h);
    push_all(&mut pkt, rr.as_slice());
    pkt
}

/// How much data follows the header of a SendRRData reply.
pub fn rr_reply_length(reply: Option<EncapsulationHeader>) -> (r: Result<usize, TransportError>)
    ensures
        match reply {
            None => r == Err::<usize, TransportError>(TransportError::BadHeader),
            Some(h) => r == if h.length == 0 {
                Err(TransportError::EmptyPayload)
            } else {
                Ok::<usize, TransportError>(h.length as usize)
            },
        },
{
    match reply {
        None => Err(TransportError::BadHeader),
        Some(h) => if h.length == 0 {
            Err(TransportError::EmptyPayload)
        } else {
            Ok(h.length as usize)
        },
    }
}

/// How much data follows the header of a SendUnitData reply.
pub fn unit_reply_length(reply: Option<EncapsulationHeader>) -> (r: Result<usize, TransportError>)
    ensures
        match reply {
            None => r == Err::<usize, TransportError>(TransportError::BadHeader),
            Some(h) => r == if h.command != COMMAND_SEND_UNIT_DATA {
                Err(TransportError::UnexpectedCommand)
            } else {
                Ok::<usize, TransportError>(h.length as usize)
            },
        },
{
    match reply {
        None => Err(TransportError::BadHeader),
        Some(h) => if h.command != COMMAND_SEND_UNIT_DATA {
            Err(TransportError::UnexpectedCommand)
        } else {
            Ok(h.length as usize)
        },
    }
}

/// The sequence number after `s`: the next one, wrapping from 65535 to 1.
pub open spec fn next_sequence(s: u16) -> u16 {
    if s == u16::MAX {
        1
    } else {
        (s + 1) as u16
    }
}

/// SendUnitData carrying `cip` on connection `conn` with sequence number
/// `seq`, under a header for `session`.
pub open spec fn spec_unit_data_request(session: u32, conn: u32, seq: u16, cip: Seq<u8>) -> Seq<u8> {
    let rr = u32_bytes(conn as int) + u16_bytes(seq as int) + cip;
    header_bytes(spec_new_header(COMMAND_SEND_UNIT_DATA, (rr.len() % 65536) as u16, session)) + rr
}

impl ClientSession {
    /// The SendUnitData packet for `cip` over the open connection; the
    /// packet takes the current sequence number and the session moves to
    /// the next one. Without an open connection nothing changes.
    pub fn unit_data_request(&mut self, cip: &[u8]) -> (r: Result<Vec<u8>, TransportError>)
        ensures
            match old(self).connection_id {
                None => r == Err::<Vec<u8>, TransportError>(TransportError::NoConnection)
                    && final(self).sequence == old(self).sequence,
                Some(conn) => r matches Ok(pkt) && pkt@ == spec_unit_data_request(
                    old(self).session,
                    conn,
                    old(self).sequence,
                    cip@,
                ) && final(self).sequence == next_sequence(old(self).sequence),
            },
            final(self).session == old(self).session,
            final(self).slot == old(self).slot,
            final(self).connection_id == old(self).connection_id,
            final(self).retries == old(self).retries,
            final(self).ip == old(self).ip,
            final(self).connected == old(self).connected,
            final(self).connection_params == old(self).connection_params,
    {
        let conn_id = match self.connection_id {
            Some(c) => c,
            None => return Err(TransportError::NoConnection),
        };
        let seq = self.sequence;
        self.sequence = if self.sequence == u16::MAX {
            1
        } else {
            self.sequence + 1
        };
        let mut rr: Vec<u8> = Vec::new();
        push_u32(&mut rr, conn_id);
        push_u16(&mut rr, seq);
        push_all(&mut rr, cip);
        let h = EncapsulationHeader::new(COMMAND_SEND_UNIT_DATA, (rr.len() % 65536) as u16, self.session).to_bytes();
        let mut full: Vec<u8> = Vec::new();
        push_all(&mut full, &h);
        push_all(&mut full, rr.as_slice());
        assert(full@ =~= spec_unit_data_request(old(self).session, conn_id, seq, cip@));
        Ok(full)
    }
}

/// A sequence number never becomes 0: from any number the next one is
/// between 1 and 65535.
pub proof fn lemma_sequence_never_zero(s: u16)
    ensures
        next_sequence(s) != 0,
        s != 0 ==> next_sequence(s) != s,
{
}

/// When an unconnected request that failed is tried again: on a dropped
/// link (`transient`), while fewer than `retries` retries were made. The
/// retry is the next attempt, after 50 ms per attempt.
pub fn next_retry(attempt: usize, retries: usize, transient: bool) -> (r: Option<(usize, u64)>)
    requires
        attempt < retries && transient ==> 50 * (attempt + 1) <= u64::MAX,
    ensures
        match r {
            None => !(attempt < retries && transient),
            Some(next) => attempt < retries && transient && next.0 == attempt + 1 && next.1 == 50 * (
            attempt + 1),
        },
{
    if attempt < retries && transient {
        let next = attempt + 1;
        Some((next, 50 * next as u64))
    } else {
        None
    }
}

} // verus!
