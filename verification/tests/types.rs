use ethernetip::types::{CipType, ConnectionManagerInfo, IdentityInfo};

fn identity_raw(product_name: &[u8], block: usize, state: Option<u8>) -> Vec<u8> {
    let mut raw = Vec::new();
    raw.extend_from_slice(&0x1234u16.to_le_bytes());
    raw.extend_from_slice(&0x5678u16.to_le_bytes());
    raw.extend_from_slice(&0x9ABCu16.to_le_bytes());
    raw.extend_from_slice(&[0x01, 0x02]);
    raw.extend_from_slice(&0x3344u16.to_le_bytes());
    raw.extend_from_slice(&0x11223344u32.to_le_bytes());
    raw.extend_from_slice(&(product_name.len() as u16).to_le_bytes());
    raw.extend_from_slice(product_name);
    raw.extend(std::iter::repeat(0).take(block - product_name.len()));
    if let Some(s) = state {
        raw.push(s);
    }
    raw
}

#[test]
fn test_identity_info_decode() {
    let mut raw = Vec::new();
    raw.extend_from_slice(&0x1234u16.to_le_bytes());
    raw.extend_from_slice(&0x5678u16.to_le_bytes());
    raw.extend_from_slice(&0x9ABCu16.to_le_bytes());
    raw.extend_from_slice(&[0x01, 0x02]);
    raw.extend_from_slice(&0x3344u16.to_le_bytes());
    raw.extend_from_slice(&0x11223344u32.to_le_bytes());

    let product_name = b"TestProduct";
    raw.extend_from_slice(&(product_name.len() as u16).to_le_bytes());
    raw.extend_from_slice(product_name);
    raw.extend(std::iter::repeat(0).take(82 - product_name.len()));

    raw.push(0x05);

    let identity = IdentityInfo::decode(&raw).expect("decode should succeed");
    assert_eq!(identity.vendor_id, 0x1234);
    assert_eq!(identity.device_type, 0x5678);
    assert_eq!(identity.product_code, 0x9ABC);
    assert_eq!(identity.revision_major, 0x01);
    assert_eq!(identity.revision_minor, 0x02);
    assert_eq!(identity.status, 0x3344);
    assert_eq!(identity.serial_number, 0x11223344);
    assert_eq!(identity.product_name, "TestProduct");
    assert_eq!(identity.state, 0x05);
}

#[test]
fn test_connection_manager_info_decode() {
    let mut raw = Vec::new();
    raw.extend_from_slice(&0x0102u16.to_le_bytes());
    raw.extend_from_slice(&0x0304u16.to_le_bytes());
    raw.extend_from_slice(&0x0506u16.to_le_bytes());

    let info = ConnectionManagerInfo::decode(&raw).expect("decode should succeed");
    assert_eq!(info.revision, 0x0102);
    assert_eq!(info.status, 0x0304);
    assert_eq!(info.configuration_capability, 0x0506);
}

#[test]
fn identity_state_right_after_short_name() {
    let raw = identity_raw(b"PLC", 3, Some(0x07));
    let identity = IdentityInfo::decode(&raw).unwrap();
    assert_eq!(identity.product_name, "PLC");
    assert_eq!(identity.state, 0x07);
}

#[test]
fn identity_decode_errors() {
    assert_eq!(
        IdentityInfo::decode(&[0u8; 16]),
        Err("not enough identity attribute data")
    );
    let mut long_name = identity_raw(b"", 0, None);
    long_name[14] = 40;
    long_name.push(0);
    assert_eq!(
        IdentityInfo::decode(&long_name),
        Err("identity product name length exceeds available data")
    );
    assert_eq!(
        IdentityInfo::decode(&identity_raw(b"PLC", 3, None)),
        Err("identity state missing")
    );
}

#[test]
fn connection_manager_too_short() {
    assert_eq!(
        ConnectionManagerInfo::decode(&[1, 2, 3, 4, 5]),
        Err("not enough connection manager attribute data")
    );
}

#[test]
fn type_codes_round_trip() {
    for t in [
        CipType::Bool,
        CipType::SInt,
        CipType::Int,
        CipType::DInt,
        CipType::LInt,
        CipType::Real,
        CipType::String,
        CipType::BoolPacked,
    ] {
        assert_eq!(CipType::from_u16(t.code()), Some(t));
        assert_eq!(CipType::from_u8(t.code() as u8), Some(t));
    }
    assert_eq!(CipType::from_u16(0x1C4), None);
    assert_eq!(CipType::from_u8(0x00), None);
}
