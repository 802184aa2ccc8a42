use vstd::prelude::*;

verus! {

/// The CIP services this library issues.
#[derive(Debug, Copy, Clone, PartialEq, Eq)]
pub enum CipService {
    GetAttributeAll,
    GetAttributeSingle,
    MultipleService,
    ReadData,
    WriteData,
    ReadFragmented,
    WriteFragmented,
    ForwardClose,
    ForwardOpen,
    LargeForwardOpen,
    LargeForwardClose,
}

/// The service code that goes on the wire for each service.
pub open spec fn spec_service_code(s: CipService) -> u8 {
    match s {
        CipService::GetAttributeAll => 0x01,
        CipService::GetAttributeSingle => 0x0E,
        CipService::MultipleService => 0x0A,
        CipService::ReadData => 0x4C,
        CipService::WriteData => 0x4D,
        CipService::ReadFragmented => 0x52,
        CipService::WriteFragmented => 0x53,
        CipService::ForwardClose => 0x4E,
        CipService::ForwardOpen => 0x54,
        CipService::LargeForwardOpen => 0x5B,
        CipService::LargeForwardClose => 0x5E,
    }
}

impl CipService {
    /// The service code.
    pub fn as_u8(self) -> (c: u8)
        ensures
            c == spec_service_code(self),
    {
        match self {
            CipService::GetAttributeAll => 0x01,
            CipService::GetAttributeSingle => 0x0E,
            CipService::MultipleService => 0x0A,
            CipService::ReadData => 0x4C,
            CipService::WriteData => 0x4D,
            CipService::ReadFragmented => 0x52,
            CipService::WriteFragmented => 0x53,
            CipService::ForwardClose => 0x4E,
            CipService::ForwardOpen => 0x54,
            CipService::LargeForwardOpen => 0x5B,
            CipService::LargeForwardClose => 0x5E,
        }
    }
}

} // verus!
