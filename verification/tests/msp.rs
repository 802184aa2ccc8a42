use ethernetip::cip::msp::multiple_service_request_fits;
use ethernetip::cip::{
    build_cip_multiple_service_request, decode_write_response, parse_cip_multiple_service_response,
    CipService,
};
use ethernetip::types::{CipValue, MultiResult};

fn block_ok(typ: u8, value: &[u8]) -> Vec<u8> {
    let mut v = vec![
        0xCC, 0x00, // service|0x80, reserved
        0x00, // general status OK
        0x00, // ext words = 0
        typ, 0x00, // CIP type + pad
    ];
    v.extend_from_slice(value);
    v
}

fn block_ok_ext(typ: u8, ext: &[u8], value: &[u8]) -> Vec<u8> {
    let mut v = vec![
        0xCC,
        0x00,
        0x00,                  // general status OK
        (ext.len() / 2) as u8, // ext words
    ];
    v.extend_from_slice(ext);
    v.push(typ);
    v.push(0x00);
    v.extend_from_slice(value);
    v
}

fn block_err(status: u8) -> Vec<u8> {
    vec![
        0xCC, 0x00, status, // general status
        0x00,   // ext words
    ]
}

fn make_msp_response(blocks: &[Vec<u8>]) -> Vec<u8> {
    let count = blocks.len() as u16;
    let mut out = Vec::new();

    // MSP header
    out.push(0x8A); // MultipleService | 0x80
    out.push(0x00); // path size = 0
    out.extend_from_slice(&count.to_le_bytes());

    // Offsets
    let mut offsets = Vec::new();
    let mut current = 2 + 2 + (count * 2); // header + offset table
    for b in blocks {
        offsets.push(current);
        current += b.len() as u16;
    }
    for off in offsets {
        out.extend_from_slice(&off.to_le_bytes());
    }

    // Blocks
    for b in blocks {
        out.extend_from_slice(b);
    }

    out
}

#[test]
fn msp_basic() {
    let b1 = block_ok(0xC1, &[0x01]); // BOOL TRUE
    let b2 = block_ok(0xC1, &[0x00]); // BOOL FALSE

    let response = make_msp_response(&[b1, b2]);
    let results = parse_cip_multiple_service_response(&response);
    assert_eq!(results.len(), 2);
}

#[test]
fn msp_ok_ok() {
    let b1 = block_ok(0xC4, &42i32.to_le_bytes());
    let b2 = block_ok(0xC4, &42i32.to_le_bytes());

    let response = make_msp_response(&[b1, b2]);
    let results = parse_cip_multiple_service_response(&response);

    assert_eq!(results.len(), 2);
    assert!(matches!(results[0], MultiResult::Success(CipValue::DInt(42))));
    assert!(matches!(results[1], MultiResult::Success(CipValue::DInt(42))));
}

#[test]
fn msp_ok_err() {
    let b1 = block_ok(0xC1, &[0x01]); // BOOL TRUE
    let b2 = block_err(0x05); // PathSegmentError

    let response = make_msp_response(&[b1, b2]);
    let results = parse_cip_multiple_service_response(&response);

    assert_eq!(results.len(), 2);
    assert!(matches!(results[0], MultiResult::Success(CipValue::Bool(true))));
    assert!(matches!(results[1], MultiResult::Failure(0x05)));
}

#[test]
fn msp_general_status_error() {
    let b1 = block_err(0x06); // PathDestinationUnknown

    let response = make_msp_response(&[b1]);
    let results = parse_cip_multiple_service_response(&response);

    assert_eq!(results.len(), 1);
    assert!(matches!(results[0], MultiResult::Failure(0x06)));
}

#[test]
fn msp_with_extended_status() {
    let ext = [0x34, 0x12];
    let b1 = block_ok_ext(0xC4, &ext, &42i32.to_le_bytes());

    let response = make_msp_response(&[b1]);
    let results = parse_cip_multiple_service_response(&response);

    assert_eq!(results.len(), 1);
    assert!(matches!(results[0], MultiResult::Success(CipValue::DInt(42))));
}

#[test]
fn msp_multiple_types() {
    let b1 = block_ok(0xC1, &[0x01]); // BOOL TRUE
    let b2 = block_ok(0xC3, &123i16.to_le_bytes()); // INT 123
    let b3 = block_ok(0xCA, &10.0f32.to_le_bytes()); // REAL 10.0
    let b4 = block_ok(0xC4, &999i32.to_le_bytes()); // DINT 999

    let response = make_msp_response(&[b1, b2, b3, b4]);
    let results = parse_cip_multiple_service_response(&response);

    assert_eq!(results.len(), 4);
    assert!(matches!(results[0], MultiResult::Success(CipValue::Bool(true))));
    assert!(matches!(results[1], MultiResult::Success(CipValue::Int(123))));
    assert_eq!(results[2], MultiResult::Success(CipValue::Real(10.0f32.to_bits())));
    assert!(matches!(results[3], MultiResult::Success(CipValue::DInt(999))));
}

#[test]
fn msp_builder_roundtrip_header_and_count() {
    let req1 = vec![CipService::ReadData.as_u8(), 0x00];
    let req2 = vec![CipService::ReadData.as_u8(), 0x00];

    let msp = build_cip_multiple_service_request(&[req1, req2]);

    assert_eq!(msp[0], CipService::MultipleService.as_u8());
    assert_eq!(msp[1], 0x00); // path size
    assert_eq!(u16::from_le_bytes([msp[2], msp[3]]), 2);
}

#[test]
fn msp_write_response_returns_unit() {
    let write_block = vec![0xCC, 0x00, 0x00, 0x00];
    let response = make_msp_response(&[write_block]);
    let results = parse_cip_multiple_service_response(&response);
    assert!(matches!(results[0], MultiResult::Success(CipValue::Unit)));
}

#[test]
fn msp_requests_stand_at_their_offsets() {
    let reqs = vec![vec![0x4C, 1, 2], vec![0x4C, 3, 4, 5, 6], vec![0x4D]];
    let msp = build_cip_multiple_service_request(&reqs);
    for (i, r) in reqs.iter().enumerate() {
        let off = u16::from_le_bytes([msp[4 + 2 * i], msp[5 + 2 * i]]) as usize;
        assert_eq!(&msp[off..off + r.len()], r.as_slice());
    }
    assert_eq!(msp.len(), 4 + 6 + 3 + 5 + 1);
}

#[test]
fn msp_offsets_must_fit() {
    let small = vec![vec![0u8; 100]; 3];
    assert!(multiple_service_request_fits(&small));
    let big = vec![vec![0u8; 40000]; 2];
    assert!(!multiple_service_request_fits(&big));
}

#[test]
fn write_reply_status() {
    assert_eq!(decode_write_response(&[0xCD, 0x00, 0x00, 0x00]), Ok(()));
    assert_eq!(decode_write_response(&[0xCD, 0x00, 0x05, 0x00]), Err(0x05));
    assert_eq!(decode_write_response(&[0xCC, 0x00, 0x00, 0x00]), Err(0xFF));
    assert_eq!(decode_write_response(&[0xCD, 0x00, 0x00, 0x01]), Err(0xFF));
}

#[test]
fn msp_offset_into_table_fails_in_its_place() {
    assert_eq!(
        parse_cip_multiple_service_response(&[0x8A, 0x00, 0x01, 0x00, 0x00, 0x00]),
        vec![MultiResult::Failure(0xFF)]
    );
    let good = block_ok(0xC4, &7i32.to_le_bytes());
    let mut response = vec![0x8A, 0x00, 0x02, 0x00, 0x02, 0x00, 0x08, 0x00];
    response.extend_from_slice(&good);
    assert_eq!(
        parse_cip_multiple_service_response(&response),
        vec![MultiResult::Failure(0xFF), MultiResult::Success(CipValue::DInt(7))]
    );
}

#[test]
fn msp_malformed_replies() {
    assert!(parse_cip_multiple_service_response(&[0x8A, 0x00, 0x00]).is_empty());
    assert!(parse_cip_multiple_service_response(&[0x8A, 0x00, 0x00, 0x00]).is_empty());
    assert!(parse_cip_multiple_service_response(&[0x8A, 0x00, 65, 0x00]).is_empty());
    assert!(parse_cip_multiple_service_response(&[0x8A, 0x00, 0x02, 0x00, 0x08, 0x00]).is_empty());
    assert_eq!(
        parse_cip_multiple_service_response(&[0x8A, 0x00, 0x02, 0x00, 0x0A, 0x00, 0x08, 0x00]),
        vec![MultiResult::Failure(0xFF), MultiResult::Failure(0xFF)]
    );
}
