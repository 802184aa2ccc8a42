use ethernetip::cip::{decode_cip_data_list, decode_cip_response, encode_value};
use ethernetip::CipValue;

#[test]
fn cip_decode_decode_bool_true() {
    let buf = [0xC1, 0x00, 0x01];
    let v = decode_cip_response(&buf).unwrap();
    assert_eq!(v, CipValue::Bool(true));
}

#[test]
fn decode_bool_false() {
    let buf = [0xC1, 0x00, 0x00];
    let v = decode_cip_response(&buf).unwrap();
    assert_eq!(v, CipValue::Bool(false));
}

#[test]
fn decode_sint() {
    let buf = [0xC2, 0x00, 0xFE]; // -2
    let v = decode_cip_response(&buf).unwrap();
    assert_eq!(v, CipValue::SInt(-2));
}

#[test]
fn decode_int() {
    let buf = [0xC3, 0x00, 0x34, 0x12]; // 0x1234 LE
    let v = decode_cip_response(&buf).unwrap();
    assert_eq!(v, CipValue::Int(0x1234));
}

#[test]
fn cip_decode_decode_dint() {
    let buf = [0xC4, 0x00, 42, 0, 0, 0];
    let v = decode_cip_response(&buf).unwrap();
    assert_eq!(v, CipValue::DInt(42));
}

#[test]
fn cip_decode_decode_real() {
    let buf = [0xCA, 0x00, 0x00, 0x00, 0x20, 0x41];
    let v = decode_cip_response(&buf).unwrap();
    assert_eq!(v, CipValue::Real(10.0f32.to_bits()));
}

#[test]
fn decode_multi_dint() {
    let data = [0x2A, 0x00, 0x00, 0x00, 0x2B, 0x00, 0x00, 0x00];
    let vals = decode_cip_data_list(0x00C4, &data);
    assert_eq!(vals, vec![CipValue::DInt(42), CipValue::DInt(43)]);
}

#[test]
fn decode_multi_bool() {
    let data = [1, 0, 1, 1, 0];
    let vals = decode_cip_data_list(0x00C1, &data);

    assert_eq!(
        vals,
        vec![
            CipValue::Bool(true),
            CipValue::Bool(false),
            CipValue::Bool(true),
            CipValue::Bool(true),
            CipValue::Bool(false),
        ]
    );
}

#[test]
fn decode_fragmented_simulated() {
    // Fragment 1: type ID + first element
    let frag1 = [
        0xC4, 0x00, // type ID
        0x2A, 0x00, 0x00, 0x00, // 42
    ];

    // Fragment 2: second element
    let frag2 = [
        0x2B, 0x00, 0x00, 0x00, // 43
    ];

    let type_id = u16::from_le_bytes([frag1[0], frag1[1]]);

    let mut combined = Vec::new();
    combined.extend_from_slice(&frag1[2..]);
    combined.extend_from_slice(&frag2);

    let vals = decode_cip_data_list(type_id, &combined);

    assert_eq!(vals, vec![CipValue::DInt(42), CipValue::DInt(43)]);
}

#[test]
fn decode_bool_array() {
    let data = [1, 0, 1];
    let vals = decode_cip_data_list(0x00C1, &data);

    assert_eq!(
        vals,
        vec![
            CipValue::Bool(true),
            CipValue::Bool(false),
            CipValue::Bool(true),
        ]
    );
}

#[test]
fn decode_needs_a_type_and_an_element() {
    assert_eq!(decode_cip_response(&[0xC4]), None);
    assert_eq!(decode_cip_response(&[0xC4, 0x00, 1, 2]), None);
}

#[test]
fn decode_lint_and_string_replies() {
    assert_eq!(
        decode_cip_response(&[0xC5, 0x00, 1, 0, 0, 0, 0, 0, 0, 0]),
        Some(CipValue::LInt(1))
    );
    assert_eq!(
        decode_cip_response(&[0xC5, 0x00, 0xFE, 0xFF, 0xFF, 0xFF, 0xFF, 0xFF, 0xFF, 0xFF]),
        Some(CipValue::LInt(-2))
    );
    assert_eq!(decode_cip_response(&[0xC5, 0x00, 1, 0, 0]), None);
    assert_eq!(
        decode_cip_response(&[0xD0, 0x00, 2, 0, b'O', b'K', 0, 0]),
        Some(CipValue::String("OK".to_string()))
    );
    assert_eq!(decode_cip_response(&[0xD0, 0x00, 5, 0, b'O', b'K']), None);
    assert_eq!(
        decode_cip_response(&[0xD0, 0x00, 2, 0, b'A', 0xFF]),
        Some(CipValue::String("A\u{FFFD}".to_string()))
    );
    assert_eq!(decode_cip_response(&[0xD3, 0x00, 0x05]), Some(CipValue::Bool(true)));
    assert_eq!(decode_cip_response(&[0xC4, 0x01, 1, 0, 0, 0]), None);
}

#[test]
fn decode_int_array_signed() {
    let vals = decode_cip_data_list(0x00C3, &[0xFF, 0xFF, 0x00, 0x80, 0x01]);
    assert_eq!(vals, vec![CipValue::Int(-1), CipValue::Int(i16::MIN)]);
}

#[test]
fn written_values_read_back() {
    for v in [
        CipValue::Bool(true),
        CipValue::Bool(false),
        CipValue::SInt(-5),
        CipValue::Int(-300),
        CipValue::DInt(123456),
        CipValue::LInt(-7_000_000_000),
        CipValue::Real(2.5f32.to_bits()),
        CipValue::String("Motor \u{e9}".to_string()),
    ] {
        let mut w = Vec::new();
        encode_value(&v, &mut w);
        let mut r = w[..2].to_vec();
        r.extend_from_slice(&w[4..]);
        assert_eq!(decode_cip_response(&r), Some(v));
    }
}
