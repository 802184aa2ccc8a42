use ethernetip::cip::{
    build_read_request, build_write_request, decode_cip_response, encode_epath,
    encode_epath_with_slot, CipError,
};
use ethernetip::types::{CipType, CipValue};
use ethernetip::EthernetIpClient;

#[test]
fn cpf_parsing_extracts_cip_payload() {
    let cpf = vec![
        0, 0, 0, 0, 0, 0, // interface + timeout
        0x02, 0x00, // item count = 2
        // Item 1: Null address
        0x00, 0x00, 0x00, 0x00, // Item 2: Data item
        0xB2, 0x00, 0x03, 0x00, 0xC1, 0x00, 0x01, // BOOL TRUE
    ];

    let extracted = EthernetIpClient::parse_cpf(&cpf).unwrap();
    assert_eq!(extracted, &[0xC1, 0x00, 0x01]);
}

#[test]
fn fake_plc_integration_decode_bool_true() {
    let buf = vec![0xC1, 0x00, 0x01];
    let v = decode_cip_response(&buf).unwrap();
    assert_eq!(v, CipValue::Bool(true));
}

#[test]
fn fake_plc_integration_decode_dint() {
    let buf = vec![0xC4, 0x00, 0x2A, 0x00, 0x00, 0x00];
    let v = decode_cip_response(&buf).unwrap();
    assert_eq!(v, CipValue::DInt(42));
}

#[test]
fn fake_plc_integration_decode_real() {
    let buf = vec![0xCA, 0x00, 0x00, 0x00, 0x20, 0x41];
    let v = decode_cip_response(&buf).unwrap();
    assert_eq!(v, CipValue::Real(10.0f32.to_bits()));
}

#[test]
fn read_request_encoding() {
    let cip = build_read_request("Test", None);

    assert_eq!(cip[0], 0x4C);
    assert_eq!(cip[1], 3);
    assert_eq!(cip[2], 0x91);
    assert_eq!(cip[3], 4);
    assert_eq!(&cip[4..8], b"Test");
    assert_eq!(&cip[8..10], &[1, 0]);
}

#[test]
fn write_request_encoding() {
    let cip = build_write_request("Tag", &CipValue::DInt(123), None);

    assert_eq!(cip[0], 0x4D);
    assert_eq!(cip[1], 3);
    assert_eq!(cip[2], 0x91);
    assert_eq!(cip[3], 3);
    assert_eq!(&cip[4..7], b"Tag");
    assert_eq!(cip[7], 0x00);
    assert_eq!(&cip[8..10], &CipType::DInt.code().to_le_bytes());
    assert_eq!(&cip[10..12], &[1, 0]);
    assert_eq!(&cip[12..16], &123i32.to_le_bytes());
}

#[test]
fn fake_plc_integration_encode_simple_tag() {
    let e = encode_epath("Test");
    assert_eq!(e, vec![0x03, 0x91, 0x04, b'T', b'e', b's', b't']);
}

#[test]
fn fake_plc_integration_encode_odd_length_tag() {
    let e = encode_epath("Abc");
    assert_eq!(e, vec![0x03, 0x91, 0x03, b'A', b'b', b'c', 0x00]);
}

#[test]
fn fake_plc_integration_encode_array_index() {
    let e = encode_epath("Array[5]");
    assert_eq!(
        e,
        vec![0x05, 0x91, 0x05, b'A', b'r', b'r', b'a', b'y', 0x00, 0x28, 0x05]
    );
}

#[test]
fn fake_plc_integration_encode_multi_index() {
    let e = encode_epath("A[1,2]");
    assert_eq!(
        e,
        vec![0x04, 0x91, 0x01, b'A', 0x00, 0x28, 0x01, 0x28, 0x02]
    );
}

#[test]
fn encode_struct_member() {
    let e = encode_epath("Motor.Speed");
    assert_eq!(
        e,
        vec![
            0x08, 0x91, 0x05, b'M', b'o', b't', b'o', b'r', 0x00, 0x91, 0x05, b'S', b'p', b'e',
            b'e', b'd', 0x00
        ]
    );
}

#[test]
fn encode_epath_with_slot_test() {
    let e = encode_epath_with_slot("Tag", Some(3));

    assert_eq!(
        e,
        vec![
            0x05, // 5 words
            0x01, 0x03, 0x00, 0x00, // correct 4-byte port segment
            0x91, 0x03, b'T', b'a', b'g', 0x00
        ]
    );
}

#[test]
fn fake_plc_integration_map_status_codes() {
    assert!(matches!(CipError::from(0x01), CipError::ConnectionFailure));
    assert!(matches!(CipError::from(0x05), CipError::PathSegmentError));
    assert!(matches!(
        CipError::from(0x06),
        CipError::PathDestinationUnknown
    ));
    assert!(matches!(
        CipError::from(0xAB),
        CipError::VendorSpecific(0xAB)
    ));
}
