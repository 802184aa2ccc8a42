//! CIP errors and the failures of a Forward Open.
use vstd::prelude::*;
use crate::text::{decimal, hex_digits, push_decimal, push_hex};

verus! {

#[verifier::external_type_specification]
#[verifier::external_body]
pub struct ExIoError(std::io::Error);

/// `ToString::to_string` on an I/O error: its display text. Nothing is
/// stated of that text; it may come from the operating system.
#[verifier::external_body]
fn io_error_text(err: &std::io::Error) -> String {
    err.to_string()
}

/// An error of a CIP exchange.
#[derive(Debug, Clone, PartialEq)]
pub enum CipError {
    ConnectionFailure,
    ResourceUnavailable,
    InvalidAttribute,
    PathSegmentError,
    PathDestinationUnknown,
    VendorSpecific(u8),
    TypeMismatch { expected: &'static str, actual: &'static str },
    General { status: u8, extended: Vec<u16> },
    Io(String),
}

/// The error that a CIP general status code stands for.
pub open spec fn spec_status_error(code: u8) -> CipError {
    if code == 0x01 {
        CipError::ConnectionFailure
    } else if code == 0x02 {
        CipError::ResourceUnavailable
    } else if code == 0x04 {
        CipError::InvalidAttribute
    } else if code == 0x05 {
        CipError::PathSegmentError
    } else if code == 0x06 {
        CipError::PathDestinationUnknown
    } else {
        CipError::VendorSpecific(code)
    }
}

impl From<u8> for CipError {
    fn from(code: u8) -> (e: Self) {
        match code {
            0x01 => CipError::ConnectionFailure,
            0x02 => CipError::ResourceUnavailable,
            0x04 => CipError::InvalidAttribute,
            0x05 => CipError::PathSegmentError,
            0x06 => CipError::PathDestinationUnknown,
            other => CipError::VendorSpecific(other),
        }
    }
}

impl vstd::std_specs::convert::FromSpecImpl<u8> for CipError {
    open spec fn obeys_from_spec() -> bool {
        true
    }

    open spec fn from_spec(code: u8) -> Self {
        spec_status_error(code)
    }
}

impl From<std::io::Error> for CipError {
    /// An I/O failure, with the error's text.
    fn from(err: std::io::Error) -> (e: Self)
        ensures
            e is Io,
    {
        CipError::Io(io_error_text(&err))
    }
}

impl vstd::std_specs::convert::FromSpecImpl<std::io::Error> for CipError {
    open spec fn obeys_from_spec() -> bool {
        false
    }

    open spec fn from_spec(err: std::io::Error) -> Self {
        arbitrary()
    }
}

/// `[a, b, c]` with each word in decimal, as `{:?}` shows a list.
pub open spec fn decimal_list(ws: Seq<u16>) -> Seq<char> {
    "["@ + decimal_items(ws) + "]"@
}

pub open spec fn decimal_items(ws: Seq<u16>) -> Seq<char>
    decreases ws.len(),
{
    if ws.len() == 0 {
        Seq::empty()
    } else if ws.len() == 1 {
        decimal(ws[0] as nat)
    } else {
        decimal_items(ws.drop_last()) + ", "@ + decimal(ws.last() as nat)
    }
}

/// The message of each error.
pub open spec fn cip_error_text(e: CipError) -> Seq<char> {
    match e {
        CipError::ConnectionFailure => "Connection failure (0x01)"@,
        CipError::ResourceUnavailable => "Resource unavailable (0x02)"@,
        CipError::InvalidAttribute => "Invalid attribute (0x04)"@,
        CipError::PathSegmentError => "Path segment error (0x05)"@,
        CipError::PathDestinationUnknown => "Path destination unknown (0x06)"@,
        CipError::VendorSpecific(code) => "Vendor-specific CIP error 0x"@ + hex_digits(code as int, 2),
        CipError::TypeMismatch { expected, actual } => "Type mismatch: expected "@ + expected@
            + ", got "@ + actual@,
        CipError::General { status, extended } => "CIP general status 0x"@ + hex_digits(
            status as int,
            2,
        ) + if extended@.len() == 0 {
            Seq::empty()
        } else {
            " (extended status "@ + decimal_list(extended@) + ")"@
        },
        CipError::Io(msg) => "I/O error: "@ + msg@,
    }
}

/// Appends `[a, b, c]` for `words`.
pub fn push_decimal_list(s: &mut String, words: &[u16])
    ensures
        final(s)@ == old(s)@ + decimal_list(words@),
{
    s.append("[");
    let ghost start = s@;
    let mut i: usize = 0;
    while i < words.len()
        invariant
            i <= words@.len(),
            s@ == start + decimal_items(words@.subrange(0, i as int)),
        decreases words@.len() - i,
    {
        if i > 0 {
            s.append(", ");
        }
        push_decimal(s, words[i] as u64);
        proof {
            let pre = words@.subrange(0, i + 1);
            assert(pre.drop_last() =~= words@.subrange(0, i as int));
        }
        i = i + 1;
        assert(s@ =~= start + decimal_items(words@.subrange(0, i as int)));
    }
    assert(words@.subrange(0, i as int) =~= words@);
    s.append("]");
    assert(final(s)@ =~= old(s)@ + decimal_list(words@));
}

impl CipError {
    /// The message of the error.
    pub fn to_string(&self) -> (s: String)
        ensures
            s@ == cip_error_text(*self),
    {
        match self {
            CipError::ConnectionFailure => String::from_str("Connection failure (0x01)"),
            CipError::ResourceUnavailable => String::from_str("Resource unavailable (0x02)"),
            CipError::InvalidAttribute => String::from_str("Invalid attribute (0x04)"),
            CipError::PathSegmentError => String::from_str("Path segment error (0x05)"),
            CipError::PathDestinationUnknown => String::from_str("Path destination unknown (0x06)"),
            CipError::VendorSpecific(code) => {
                let mut s = String::from_str("Vendor-specific CIP error 0x");
                push_hex(&mut s, *code as u64, 2);
                s
            },
            CipError::TypeMismatch { expected, actual } => {
                let mut s = String::from_str("Type mismatch: expected ");
                s.append(expected);
                s.append(", got ");
                s.append(actual);
                s
            },
            CipError::General { status, extended } => {
                let mut s = String::from_str("CIP general status 0x");
                push_hex(&mut s, *status as u64, 2);
                if extended.len() > 0 {
                    s.append(" (extended status ");
                    push_decimal_list(&mut s, extended.as_slice());
                    s.append(")");
                }
                s
            },
            CipError::Io(msg) => {
                let mut s = String::from_str("I/O error: ");
                s.append(msg.as_str());
                s
            },
        }
    }
}

/// Why a Forward Open failed.
#[derive(Debug)]
pub enum ForwardOpenError {
    GeneralStatus(u8),
    ExtendedStatus(Vec<u16>),
    InvalidRpi,
    InvalidSize,
    ResourceUnavailable,
    UnsupportedTrigger,
    Timeout,
    Other(String),
}

/// The message of each Forward Open failure.
pub open spec fn forward_open_error_text(e: ForwardOpenError) -> Seq<char> {
    match e {
        ForwardOpenError::GeneralStatus(code) => "General status 0x"@ + hex_digits(code as int, 2),
        ForwardOpenError::ExtendedStatus(words) => "Extended status "@ + decimal_list(words@),
        ForwardOpenError::InvalidRpi => "Invalid RPI"@,
        ForwardOpenError::InvalidSize => "Invalid connection size"@,
        ForwardOpenError::ResourceUnavailable => "Resource unavailable"@,
        ForwardOpenError::UnsupportedTrigger => "Unsupported transport trigger"@,
        ForwardOpenError::Timeout => "Connection timeout"@,
        ForwardOpenError::Other(msg) => msg@,
    }
}

impl ForwardOpenError {
    /// The message of the failure.
    pub fn to_string(&self) -> (s: String)
        ensures
            s@ == forward_open_error_text(*self),
    {
        match self {
            ForwardOpenError::GeneralStatus(code) => {
                let mut s = String::from_str("General status 0x");
                push_hex(&mut s, *code as u64, 2);
                s
            },
            ForwardOpenError::ExtendedStatus(words) => {
                let mut s = String::from_str("Extended status ");
                push_decimal_list(&mut s, words.as_slice());
                s
            },
            ForwardOpenError::InvalidRpi => String::from_str("Invalid RPI"),
            ForwardOpenError::InvalidSize => String::from_str("Invalid connection size"),
            ForwardOpenError::ResourceUnavailable => String::from_str("Resource unavailable"),
            ForwardOpenError::UnsupportedTrigger => String::from_str("Unsupported transport trigger"),
            ForwardOpenError::Timeout => String::from_str("Connection timeout"),
            ForwardOpenError::Other(msg) => String::from_str(msg.as_str()),
        }
    }
}

impl From<std::io::Error> for ForwardOpenError {
    /// A transport failure, with the error's text.
    fn from(err: std::io::Error) -> (e: Self)
        ensures
            e is Other,
    {
        ForwardOpenError::Other(io_error_text(&err))
    }
}

impl vstd::std_specs::convert::FromSpecImpl<std::io::Error> for ForwardOpenError {
    open spec fn obeys_from_spec() -> bool {
        false
    }

    open spec fn from_spec(err: std::io::Error) -> Self {
        arbitrary()
    }
}

/// The failure that the first extended status word of a refused Forward
/// Open stands for; later words are not read.
pub fn map_extended_status(words: &[u16]) -> (e: ForwardOpenError)
    ensures
        words@.len() == 0 ==> (e matches ForwardOpenError::ExtendedStatus(v) && v@.len() == 0),
        words@.len() > 0 ==> match e {
            ForwardOpenError::Timeout => words@[0] == 0x0100,
            ForwardOpenError::InvalidSize => words@[0] == 0x0204,
            ForwardOpenError::InvalidRpi => words@[0] == 0x0205,
            ForwardOpenError::ResourceUnavailable => words@[0] == 0x0315,
            ForwardOpenError::UnsupportedTrigger => words@[0] == 0x0316,
            ForwardOpenError::ExtendedStatus(v) => v@ == seq![words@[0]] && words@[0] != 0x0100
                && words@[0] != 0x0204 && words@[0] != 0x0205 && words@[0] != 0x0315 && words@[0]
                != 0x0316,
            _ => false,
        },
{
    if words.len() == 0 {
        return ForwardOpenError::ExtendedStatus(Vec::new());
    }
    match words[0] {
        0x0100 => ForwardOpenError::Timeout,
        0x0204 => ForwardOpenError::InvalidSize,
        0x0205 => ForwardOpenError::InvalidRpi,
        0x0315 => ForwardOpenError::ResourceUnavailable,
        0x0316 => ForwardOpenError::UnsupportedTrigger,
        w => {
            let mut v = Vec::new();
            v.push(w);
            assert(v@ =~= seq![w]);
            ForwardOpenError::ExtendedStatus(v)
        },
    }
}

} // verus!
