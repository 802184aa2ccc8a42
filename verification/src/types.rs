use vstd::prelude::*;
use crate::le::{get_u16, get_u32, le16, le32};
use crate::text::{utf8_text, text_from_utf8_lossy};

verus! {

/// The CIP elementary data types that Logix controllers report.
#[derive(Debug, Clone, Copy, PartialEq, Eq)]
pub enum CipType {
    Bool,
    SInt,
    Int,
    DInt,
    LInt,
    Real,
    String,
    BoolPacked,
}

/// The CIP type code of each data type.
pub open spec fn spec_type_code(t: CipType) -> u16 {
    match t {
        CipType::Bool => 0xC1,
        CipType::SInt => 0xC2,
        CipType::Int => 0xC3,
        CipType::DInt => 0xC4,
        CipType::LInt => 0xC5,
        CipType::Real => 0xCA,
        CipType::String => 0xD0,
        CipType::BoolPacked => 0xD3,
    }
}

/// The data type whose code is `w`, if there is one.
pub open spec fn spec_type_of_code(w: int) -> Option<CipType> {
    if w == 0xC1 {
        Some(CipType::Bool)
    } else if w == 0xC2 {
        Some(CipType::SInt)
    } else if w == 0xC3 {
        Some(CipType::Int)
    } else if w == 0xC4 {
        Some(CipType::DInt)
    } else if w == 0xC5 {
        Some(CipType::LInt)
    } else if w == 0xCA {
        Some(CipType::Real)
    } else if w == 0xD0 {
        Some(CipType::String)
    } else if w == 0xD3 {
        Some(CipType::BoolPacked)
    } else {
        None
    }
}

impl CipType {
    /// The CIP type code (0xC1 for BOOL, 0xC4 for DINT, ...).
    pub fn code(self) -> (c: u16)
        ensures
            c == spec_type_code(self),
    {
        match self {
            CipType::Bool => 0xC1,
            CipType::SInt => 0xC2,
            CipType::Int => 0xC3,
            CipType::DInt => 0xC4,
            CipType::LInt => 0xC5,
            CipType::Real => 0xCA,
            CipType::String => 0xD0,
            CipType::BoolPacked => 0xD3,
        }
    }

    pub fn from_u16(w: u16) -> (r: Option<Self>)
        ensures
            r == spec_type_of_code(w as int),
    {
        match w {
            0x00C1 => Some(Self::Bool),
            0x00C2 => Some(Self::SInt),
            0x00C3 => Some(Self::Int),
            0x00C4 => Some(Self::DInt),
            0x00C5 => Some(Self::LInt),
            0x00CA => Some(Self::Real),
            0x00D0 => Some(Self::String),
            0x00D3 => Some(Self::BoolPacked),
            _ => None,
        }
    }

    pub fn from_u8(b: u8) -> (r: Option<Self>)
        ensures
            r == spec_type_of_code(b as int),
    {
        match b {
            0xC1 => Some(Self::Bool),
            0xC2 => Some(Self::SInt),
            0xC3 => Some(Self::Int),
            0xC4 => Some(Self::DInt),
            0xC5 => Some(Self::LInt),
            0xCA => Some(Self::Real),
            0xD0 => Some(Self::String),
            0xD3 => Some(Self::BoolPacked),
            _ => None,
        }
    }
}

/// A value read from or written to a tag. A REAL is held as the bit
/// pattern of its IEEE-754 single-precision form.
#[derive(Debug, Clone, PartialEq)]
pub enum CipValue {
    Bool(bool),
    SInt(i8),
    Int(i16),
    DInt(i32),
    LInt(i64),
    Real(u32),
    String(String),
    BoolPacked(Vec<u8>),
    Unit,
}

/// `a` and `b` hold the same value; texts are compared by their characters.
pub open spec fn same_value(a: CipValue, b: CipValue) -> bool {
    match a {
        CipValue::String(x) => b matches CipValue::String(y) && x@ == y@,
        _ => a == b,
    }
}

/// Both are `None`, or both hold the same value.
pub open spec fn same_option(a: Option<CipValue>, b: Option<CipValue>) -> bool {
    match a {
        Some(x) => b matches Some(y) && same_value(x, y),
        None => b is None,
    }
}

/// A text with the characters `t`.
pub open spec fn text_value(t: Seq<char>) -> String {
    choose|s: String| s@ == t
}

/// The Logix name of a value's type.
pub open spec fn spec_type_name(v: CipValue) -> Seq<char> {
    match v {
        CipValue::Bool(_) => "BOOL"@,
        CipValue::SInt(_) => "SINT"@,
        CipValue::Int(_) => "INT"@,
        CipValue::DInt(_) => "DINT"@,
        CipValue::LInt(_) => "LINT"@,
        CipValue::Real(_) => "REAL"@,
        CipValue::String(_) => "STRING"@,
        CipValue::BoolPacked(_) => "BOOL_PACKED"@,
        CipValue::Unit => "UNIT"@,
    }
}

impl CipValue {
    pub fn type_label(&self) -> (n: &'static str)
        ensures
            n@ == spec_type_name(*self),
    {
        match self {
            CipValue::Bool(_) => "BOOL",
            CipValue::SInt(_) => "SINT",
            CipValue::Int(_) => "INT",
            CipValue::DInt(_) => "DINT",
            CipValue::LInt(_) => "LINT",
            CipValue::Real(_) => "REAL",
            CipValue::String(_) => "STRING",
            CipValue::BoolPacked(_) => "BOOL_PACKED",
            CipValue::Unit => "UNIT",
        }
    }
}

/// One entry of a Multiple Service Packet reply: a decoded value, or the
/// CIP general status of a failed service.
#[derive(Debug, Clone, PartialEq)]
pub enum MultiResult<T> {
    Success(T),
    Failure(u8),
}

/// A controller tag reported by symbol browsing.
#[derive(Debug, Clone, PartialEq)]
pub struct SymbolInfo {
    pub name: String,
    pub typ: CipType,
    /// Up to three dimensions; unused dimensions are 0.
    pub array_dims: Option<(u16, u16, u16)>,
}

/// A device that answered a ListIdentity broadcast.
#[derive(Debug, Clone, PartialEq)]
pub struct DiscoveredIdentity {
    pub ip: String,
    pub vendor_id: u16,
    pub device_type: u16,
    pub product_code: u16,
    pub revision_major: u8,
    pub revision_minor: u8,
    pub status: u16,
    pub serial: u32,
    pub product_name: String,
}

/// The attributes of the Identity object (class 0x01).
#[derive(Debug, Clone, PartialEq)]
pub struct IdentityInfo {
    pub vendor_id: u16,
    pub device_type: u16,
    pub product_code: u16,
    pub revision_major: u8,
    pub revision_minor: u8,
    pub status: u16,
    pub serial_number: u32,
    pub product_name: String,
    pub state: u8,
}

/// The attributes of the Connection Manager object (class 0x06).
#[derive(Debug, Clone, PartialEq)]
pub struct ConnectionManagerInfo {
    pub revision: u16,
    pub status: u16,
    pub configuration_capability: u16,
}

/// Where the state byte of the Identity attributes sits: after the 82-byte
/// string block when the data holds one, else right after the name.
pub open spec fn identity_state_pos(d: Seq<u8>) -> int {
    if d.len() >= 16 + 82 {
        98int
    } else {
        16 + le16(d, 14)
    }
}

/// Why the Identity attributes in `d` cannot be decoded, if they cannot.
pub open spec fn identity_decode_error(d: Seq<u8>) -> Option<Seq<char>> {
    if d.len() < 17 {
        Some("not enough identity attribute data"@)
    } else if d.len() < 16 + le16(d, 14) {
        Some("identity product name length exceeds available data"@)
    } else if d.len() <= identity_state_pos(d) {
        Some("identity state missing"@)
    } else {
        None
    }
}

/// `info` holds the Identity attributes laid out in `d`: vendor, device
/// type, product code, revision, status and serial number, then the
/// length-prefixed product name and the state byte.
pub open spec fn identity_matches(info: IdentityInfo, d: Seq<u8>) -> bool {
    &&& info.vendor_id == le16(d, 0)
    &&& info.device_type == le16(d, 2)
    &&& info.product_code == le16(d, 4)
    &&& info.revision_major == d[6]
    &&& info.revision_minor == d[7]
    &&& info.status == le16(d, 8)
    &&& info.serial_number == le32(d, 10)
    &&& info.product_name@ == utf8_text(d.subrange(16, 16 + le16(d, 14)))
    &&& info.state == d[identity_state_pos(d)]
}

impl IdentityInfo {
    /// Decodes the reply of Get_Attribute_All on the Identity object.
    pub fn decode(data: &[u8]) -> (r: Result<Self, &'static str>)
        ensures
            match r {
                Ok(info) => identity_decode_error(data@) is None && identity_matches(info, data@),
                Err(m) => identity_decode_error(data@) == Some(m@),
            },
    {
        if data.len() < 2 + 2 + 2 + 2 + 2 + 4 + 2 + 1 {
            return Err("not enough identity attribute data");
        }
        let mut pos: usize = 0;
        let vendor_id = get_u16(data, pos);
        pos += 2;
        let device_type = get_u16(data, pos);
        pos += 2;
        let product_code = get_u16(data, pos);
        pos += 2;
        let revision_major = data[pos];
        let revision_minor = data[pos + 1];
        pos += 2;
        let status = get_u16(data, pos);
        pos += 2;
        let serial_number = get_u32(data, pos);
        pos += 4;
        if data.len() < pos + 2 {
            return Err("identity product name too short");
        }
        let name_len = get_u16(data, pos) as usize;
        pos += 2;
        if data.len() < pos + name_len {
            return Err("identity product name length exceeds available data");
        }
        let product_name = text_from_utf8_lossy(&data[pos..pos + name_len]);
        let string_block_len: usize = 82;
        if data.len() >= pos + string_block_len {
            pos += string_block_len;
        } else {
            pos += name_len;
        }
        if data.len() <= pos {
            return Err("identity state missing");
        }
        let state = data[pos];
        Ok(Self {
            vendor_id,
            device_type,
            product_code,
            revision_major,
            revision_minor,
            status,
            serial_number,
            product_name,
            state,
        })
    }
}

impl ConnectionManagerInfo {
    /// Decodes the reply of Get_Attribute_All on the Connection Manager
    /// object: revision, status and configuration capability.
    pub fn decode(data: &[u8]) -> (r: Result<Self, &'static str>)
        ensures
            match r {
                Ok(info) => data@.len() >= 6 && info.revision == le16(data@, 0) && info.status
                    == le16(data@, 2) && info.configuration_capability == le16(data@, 4),
                Err(m) => data@.len() < 6 && m@ == "not enough connection manager attribute data"@,
            },
    {
        if data.len() < 6 {
            return Err("not enough connection manager attribute data");
        }
        Ok(Self {
            revision: get_u16(data, 0),
            status: get_u16(data, 2),
            configuration_capability: get_u16(data, 4),
        })
    }
}

/// A type code names back the type it was taken from.
pub proof fn lemma_type_code_roundtrip(t: CipType)
    ensures
        spec_type_of_code(spec_type_code(t) as int) == Some(t),
{
}

} // verus!
