//! The client's session state and the logic of each of its exchanges; the
//! exchanges themselves (socket I/O, timeouts, awaiting) are driven from
//! outside the library and hand their replies to these functions.
pub mod connected;
pub mod discovery;
pub mod fragmented;
pub mod replies;
pub mod transport;

pub use connected::{fall_back_to_forward_open, LargeForwardOpenError};
pub use discovery::{list_identity_results, parse_discovery_identity, DiscoveryImpl};
pub use fragmented::{FragmentedReadState, MAX_FRAGMENTS};
pub use replies::{array_write_needs_tag, parse_cip_response_payload, plan_array_write, ArrayWritePlan};
pub use transport::{CpfError, TransportError};

use vstd::prelude::*;
use crate::cip::connection::{ConnectionParams, TransportTrigger};
use crate::cip::read_write::spec_read_request;
use crate::cip::epath::tag_ok;
use crate::cip::build_read_request;
use crate::le::u16_bytes;
use vstd::string::StringSliceAdditionalSpecFns;

verus! {

#[verifier::external_type_specification]
#[verifier::external_body]
pub struct ExTcpStream(tokio::net::TcpStream);

/// The state of a session with one controller.
#[derive(Debug)]
pub struct ClientSession {
    /// Session handle that RegisterSession granted.
    pub session: u32,
    /// Backplane slot of the CPU, when requests are routed (ControlLogix).
    pub slot: Option<u8>,
    /// Connection ID of the open Forward Open connection.
    pub connection_id: Option<u32>,
    /// Sequence number of the next SendUnitData packet; never 0.
    pub sequence: u16,
    /// How many times an unconnected request is retried on a dropped link.
    pub retries: usize,
    pub ip: String,
    /// Requests go over the Forward Open connection.
    pub connected: bool,
    pub connection_params: ConnectionParams,
}

/// An EtherNet/IP client: the TCP connection to a controller and the state
/// of the session on it.
#[derive(Debug)]
pub struct EthernetIpClient {
    pub stream: tokio::net::TcpStream,
    pub state: ClientSession,
}

/// Slot numbers that routing accepts.
pub const MAX_SLOT: u8 = 17;

/// Management of the session's settings.
pub trait ConnectionManagement {
    fn set_slot(&mut self, slot: u8);

    fn is_connected(&self) -> bool;

    fn sequence(&self) -> u16;

    fn set_retries(&mut self, retries: usize);

    fn connection_ip(&self) -> &str;
}

/// Everything but the slot, the retry count and the connection parameters
/// of `b` is as in `a`.
pub open spec fn same_but_settings(a: ClientSession, b: ClientSession) -> bool {
    &&& a.session == b.session
    &&& a.connection_id == b.connection_id
    &&& a.sequence == b.sequence
    &&& a.ip == b.ip
    &&& a.connected == b.connected
}

impl ClientSession {
    /// A session that RegisterSession opened: no routing, no Forward Open
    /// connection, sequence 1, three retries, default connection
    /// parameters.
    pub fn new(session: u32, ip: String) -> (c: Self)
        ensures
            c.session == session,
            c.slot is None,
            c.connection_id is None,
            c.sequence == 1,
            c.retries == 3,
            c.ip@ == ip@,
            !c.connected,
            c.connection_params.rpi == 100_000,
            c.connection_params.o_to_t_size == 500,
            c.connection_params.t_to_o_size == 0,
            c.connection_params.trigger == TransportTrigger::Class3ClientInitiated,
    {
        ClientSession {
            session,
            slot: None,
            connection_id: None,
            sequence: 1,
            retries: 3,
            ip,
            connected: false,
            connection_params: ConnectionParams::default(),
        }
    }

    pub fn set_connection_params(&mut self, params: ConnectionParams)
        ensures
            final(self).connection_params == params,
            final(self).slot == old(self).slot,
            final(self).retries == old(self).retries,
            same_but_settings(*final(self), *old(self)),
    {
        self.connection_params = params;
    }
}

impl ConnectionManagement for ClientSession {
    /// Routes requests to `slot`; a slot above 17 is ignored.
    fn set_slot(&mut self, slot: u8)
        ensures
            final(self).slot == (if slot > MAX_SLOT {
                old(self).slot
            } else {
                Some(slot)
            }),
            final(self).retries == old(self).retries,
            final(self).connection_params == old(self).connection_params,
            same_but_settings(*final(self), *old(self)),
    {
        if slot > MAX_SLOT {
            return;
        }
        self.slot = Some(slot);
    }

    fn is_connected(&self) -> (r: bool)
        ensures
            r == self.connected,
    {
        self.connected
    }

    fn sequence(&self) -> (r: u16)
        ensures
            r == self.sequence,
    {
        self.sequence
    }

    fn set_retries(&mut self, retries: usize)
        ensures
            final(self).retries == retries,
            final(self).slot == old(self).slot,
            final(self).connection_params == old(self).connection_params,
            same_but_settings(*final(self), *old(self)),
    {
        self.retries = retries;
    }

    fn connection_ip(&self) -> (r: &str)
        ensures
            r@ == self.ip@,
    {
        self.ip.as_str()
    }
}

impl EthernetIpClient {
    /// A client on `stream`, where RegisterSession granted `session`.
    pub fn from_session(stream: tokio::net::TcpStream, session: u32, ip: String) -> (c: Self)
        ensures
            c.state.session == session,
            c.state.slot is None,
            c.state.connection_id is None,
            c.state.sequence == 1,
            c.state.retries == 3,
            c.state.ip@ == ip@,
            !c.state.connected,
            c.state.connection_params.rpi == 100_000,
            c.state.connection_params.o_to_t_size == 500,
            c.state.connection_params.t_to_o_size == 0,
            c.state.connection_params.trigger == TransportTrigger::Class3ClientInitiated,
    {
        EthernetIpClient { stream, state: ClientSession::new(session, ip) }
    }

    pub fn set_connection_params(&mut self, params: ConnectionParams)
        ensures
            final(self).state.connection_params == params,
            final(self).state.slot == old(self).state.slot,
            final(self).state.retries == old(self).state.retries,
            same_but_settings(final(self).state, old(self).state),
    {
        self.state.set_connection_params(params);
    }
}

impl ConnectionManagement for EthernetIpClient {
    /// Routes requests to `slot`; a slot above 17 is ignored.
    fn set_slot(&mut self, slot: u8)
        ensures
            final(self).state.slot == (if slot > MAX_SLOT {
                old(self).state.slot
            } else {
                Some(slot)
            }),
            final(self).state.retries == old(self).state.retries,
            final(self).state.connection_params == old(self).state.connection_params,
            same_but_settings(final(self).state, old(self).state),
    {
        self.state.set_slot(slot);
    }

    fn is_connected(&self) -> (r: bool)
        ensures
            r == self.state.connected,
    {
        self.state.is_connected()
    }

    fn sequence(&self) -> (r: u16)
        ensures
            r == self.state.sequence,
    {
        self.state.sequence()
    }

    fn set_retries(&mut self, retries: usize)
        ensures
            final(self).state.retries == retries,
            final(self).state.slot == old(self).state.slot,
            final(self).state.connection_params == old(self).state.connection_params,
            same_but_settings(final(self).state, old(self).state),
    {
        self.state.set_retries(retries);
    }

    fn connection_ip(&self) -> (r: &str)
        ensures
            r@ == self.state.ip@,
    {
        self.state.connection_ip()
    }
}

/// A Read Tag request for `count` elements: the element count of the
/// request is replaced by `count`, taken modulo 2^16.
pub open spec fn spec_read_request_count(t: Seq<u8>, count: int, slot: Option<u8>) -> Seq<u8> {
    let r = spec_read_request(t, slot);
    r.subrange(0, r.len() - 2) + u16_bytes(count % 65536)
}

pub fn build_read_request_count(tag: &str, count: usize, slot: Option<u8>) -> (cip: Vec<u8>)
    requires
        tag_ok(tag.spec_bytes()),
    ensures
        cip@ == spec_read_request_count(tag.spec_bytes(), count as int, slot),
{
    let mut cip = build_read_request(tag, slot);
    let c = (count % 65536) as u16;
    let pos = cip.len() - 2;
    cip.set(pos, (c % 256) as u8);
    cip.set(pos + 1, (c / 256) as u8);
    assert(cip@ =~= spec_read_request_count(tag.spec_bytes(), count as int, slot));
    cip
}

} // verus!
