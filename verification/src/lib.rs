//! EtherNet/IP and CIP explicit messaging for Logix controllers: request
//! builders, reply decoders, EPATH encoding and the session logic of the
//! client, each with a machine-checked contract.

mod le;
pub mod text;
pub mod cip;
pub mod types;
pub mod encapsulation;
pub mod fake_plc;
pub mod client;

pub use cip::{
    build_cip_multiple_service_request, build_get_attribute_all_request,
    build_get_attribute_single_request, build_read_request, build_write_request,
    decode_cip_response, encode_epath, encode_epath_with_slot, parse_cip_multiple_service_response,
    parse_symbol_browse_response, CipError, CipService,
};
pub use client::{ConnectionManagement, EthernetIpClient};
pub use types::{CipType, CipValue, IdentityInfo, MultiResult};
