//! Parameters of Class 3 connections and the fixed object paths used to open
//! them.
use vstd::prelude::*;
use crate::cip::path::{encode_path, spec_encode_path, PathSegment};

verus! {

/// Transport class and trigger of a connection.
#[derive(Clone, Copy, Debug, PartialEq, Eq)]
pub enum TransportTrigger {
    /// Class 3 Client-Initiated (0xA3)
    Class3ClientInitiated,
    /// Cyclic (0x01)
    Cyclic,
    /// Change of State (0x02)
    ChangeOfState,
}

pub open spec fn spec_trigger_byte(t: TransportTrigger) -> u8 {
    match t {
        TransportTrigger::Class3ClientInitiated => 0xA3,
        TransportTrigger::Cyclic => 0x01,
        TransportTrigger::ChangeOfState => 0x02,
    }
}

impl TransportTrigger {
    /// The transport class/trigger byte of a Forward Open.
    pub fn to_byte(self) -> (b: u8)
        ensures
            b == spec_trigger_byte(self),
    {
        match self {
            TransportTrigger::Class3ClientInitiated => 0xA3,
            TransportTrigger::Cyclic => 0x01,
            TransportTrigger::ChangeOfState => 0x02,
        }
    }
}

/// Requested packet interval (microseconds), connection sizes and trigger.
#[derive(Clone, Copy, Debug)]
pub struct ConnectionParams {
    pub rpi: u32,
    pub o_to_t_size: u16,
    pub t_to_o_size: u16,
    pub trigger: TransportTrigger,
}

/// Why a set of parameters is refused, checked in this order; `None` when
/// they are accepted.
pub open spec fn spec_params_problem(p: ConnectionParams) -> Option<Seq<char>> {
    if p.rpi == 0 {
        Some("RPI must be > 0"@)
    } else if p.o_to_t_size == 0 {
        Some("O->T size must be > 0"@)
    } else if p.o_to_t_size > 4000 {
        Some("O->T size too large (> 4000 bytes)"@)
    } else if p.t_to_o_size > 4000 {
        Some("T->O size too large (> 4000 bytes)"@)
    } else {
        None
    }
}

pub open spec fn params_valid(p: ConnectionParams) -> bool {
    spec_params_problem(p) is None
}

impl Default for ConnectionParams {
    fn default() -> (p: Self)
        ensures
            p.rpi == 100_000,
            p.o_to_t_size == 500,
            p.t_to_o_size == 0,
            p.trigger == TransportTrigger::Class3ClientInitiated,
    {
        Self { rpi: 100_000, o_to_t_size: 500, t_to_o_size: 0, trigger: TransportTrigger::Class3ClientInitiated }
    }
}

impl ConnectionParams {
    pub fn new(rpi: u32, o_to_t_size: u16, t_to_o_size: u16) -> (p: Self)
        ensures
            p.rpi == rpi,
            p.o_to_t_size == o_to_t_size,
            p.t_to_o_size == t_to_o_size,
            p.trigger == TransportTrigger::Class3ClientInitiated,
    {
        Self { rpi, o_to_t_size, t_to_o_size, trigger: TransportTrigger::Class3ClientInitiated }
    }

    pub fn with_trigger(self, trigger: TransportTrigger) -> (p: Self)
        ensures
            p == (Self { trigger, ..self }),
    {
        let mut p = self;
        p.trigger = trigger;
        p
    }

    /// Accepts the parameters or names the first rule they break.
    pub fn validate(&self) -> (r: Result<(), &'static str>)
        ensures
            match r {
                Ok(()) => spec_params_problem(*self) is None,
                Err(msg) => spec_params_problem(*self) == Some(msg@),
            },
    {
        if self.rpi == 0 {
            return Err("RPI must be > 0");
        }
        if self.o_to_t_size == 0 {
            return Err("O->T size must be > 0");
        }
        if self.o_to_t_size > 4000 {
            return Err("O->T size too large (> 4000 bytes)");
        }
        if self.t_to_o_size > 4000 {
            return Err("T->O size too large (> 4000 bytes)");
        }
        Ok(())
    }
}

/// The default parameters are accepted.
pub proof fn lemma_default_params_valid(p: ConnectionParams)
    requires
        p.rpi == 100_000,
        p.o_to_t_size == 500,
        p.t_to_o_size == 0,
    ensures
        params_valid(p),
{
}

/// Identifiers that an originator puts in Forward Open and Forward Close.
#[derive(Clone, Copy, Debug, PartialEq, Eq)]
pub struct ConnectionIds {
    pub serial: u16,
    pub vendor: u16,
    pub originator_serial: u32,
}

impl Default for ConnectionIds {
    /// Connection identifiers with serial 1, the Rockwell vendor ID and a
    /// fixed originator serial number. A caller that opens several
    /// connections gives each its own serial.
    fn default() -> (ids: Self)
        ensures
            ids.serial == 1,
            ids.vendor == 0x0013,
            ids.originator_serial == 0x1234_5678,
    {
        Self { serial: 1, vendor: 0x0013, originator_serial: 0x1234_5678 }
    }
}

/// The port segment (backplane port 1) that routes to `slot`, if any,
/// followed by `tail`.
pub open spec fn routed(slot: Option<u8>, tail: Seq<PathSegment>) -> Seq<PathSegment> {
    match slot {
        Some(s) => seq![PathSegment::Port { port: 1, link: s }] + tail,
        None => tail,
    }
}

/// Adds the backplane routing segment for `slot`, if any.
fn push_slot_routing(segs: &mut Vec<PathSegment>, slot: Option<u8>)
    ensures
        final(segs)@ == old(segs)@ + routed(slot, Seq::empty()),
{
    if let Some(slot) = slot {
        segs.push(PathSegment::Port { port: 1, link: slot });
    }
    assert(final(segs)@ =~= old(segs)@ + routed(slot, Seq::empty()));
}

/// Path to the Connection Manager object (class 0x06, instance 1).
pub open spec fn spec_connection_manager_path(slot: Option<u8>) -> Seq<u8> {
    spec_encode_path(routed(slot, seq![PathSegment::Class(0x06), PathSegment::Instance(0x01)]))
}

/// Path to the Message Router object (class 0x02, instance 1).
pub open spec fn spec_message_router_path(slot: Option<u8>) -> Seq<u8> {
    spec_encode_path(routed(slot, seq![PathSegment::Class(0x02), PathSegment::Instance(0x01)]))
}

pub fn connection_manager_path(slot: Option<u8>) -> (out: Vec<u8>)
    ensures
        out@ == spec_connection_manager_path(slot),
{
    let mut segs = Vec::new();
    push_slot_routing(&mut segs, slot);
    segs.push(PathSegment::Class(0x06));
    segs.push(PathSegment::Instance(0x01));
    assert(segs@ =~= routed(slot, seq![PathSegment::Class(0x06), PathSegment::Instance(0x01)]));
    encode_path(segs.as_slice())
}

pub fn message_router_path(slot: Option<u8>) -> (out: Vec<u8>)
    ensures
        out@ == spec_message_router_path(slot),
{
    let mut segs = Vec::new();
    push_slot_routing(&mut segs, slot);
    segs.push(PathSegment::Class(0x02));
    segs.push(PathSegment::Instance(0x01));
    assert(segs@ =~= routed(slot, seq![PathSegment::Class(0x02), PathSegment::Instance(0x01)]));
    encode_path(segs.as_slice())
}

} // verus!
