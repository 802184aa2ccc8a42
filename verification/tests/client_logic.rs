use ethernetip::cip::{CipError, ForwardOpenError};
use ethernetip::client::connected::LargeForwardOpenError;
use ethernetip::client::replies::{
    connection_manager_from_attributes, expect_bool, expect_dint, expect_int, expect_real,
    expect_sint, expect_string, identity_from_attributes, indexed_tag_name, read_multi_reply_values,
    read_reply_value, write_reply_result,
};
use ethernetip::client::transport::{
    next_retry, register_session_request, registered_session, rr_data_request, rr_reply_length,
    unit_reply_length,
};
use ethernetip::client::{
    build_read_request_count, fall_back_to_forward_open, parse_cip_response_payload,
    array_write_needs_tag, plan_array_write, ArrayWritePlan, CpfError, FragmentedReadState, TransportError,
    MAX_FRAGMENTS,
};
use ethernetip::encapsulation::EncapsulationHeader;
use ethernetip::fake_plc::{handle_forward_open, FakePlcAction, FakePlcSession};
use ethernetip::cip::{build_forward_close_request, build_forward_open_request, build_read_request, build_write_request, ConnectionIds, ConnectionParams};
use ethernetip::types::CipValue;
use ethernetip::client::ClientSession;
use ethernetip::{ConnectionManagement, EthernetIpClient};

fn session() -> ClientSession {
    ClientSession::new(0x1234_5678, "127.0.0.1".to_string())
}

#[test]
fn new_session_defaults() {
    {
        let c = &mut session();
        assert_eq!(c.session, 0x1234_5678);
        assert_eq!(c.slot, None);
        assert_eq!(c.sequence(), 1);
        assert!(!c.is_connected());
        assert_eq!(c.connection_ip(), "127.0.0.1");
        assert_eq!(c.retries, 3);
        assert!(c.connection_params.validate().is_ok());
    }
}

#[test]
fn slots_above_seventeen_are_ignored() {
    {
        let c = &mut session();
        c.set_slot(2);
        assert_eq!(c.slot, Some(2));
        c.set_slot(18);
        assert_eq!(c.slot, Some(2));
        c.set_slot(17);
        assert_eq!(c.slot, Some(17));
        c.set_retries(7);
        assert_eq!(c.retries, 7);
    }
}

#[test]
fn test_unit_data_without_connection_fails() {
    {
        let c = &mut session();
        let err = c.unit_data_request(&[0x4C]).unwrap_err();
        assert_eq!(err, TransportError::NoConnection);
        assert!(err.to_string().contains("No active ForwardOpen connection"));
        assert_eq!(c.sequence(), 1);
    }
}

#[test]
fn forward_open_then_unit_data_numbers_packets() {
    {
        let c = &mut session();
        c.accept_forward_open_reply(&handle_forward_open()).unwrap();
        assert!(c.is_connected());
        assert_eq!(c.connection_id, Some(0x1122_3344));
        let initial = c.sequence();
        let pkt = c.unit_data_request(&[0x4C, 0x00]).unwrap();
        assert_eq!(c.sequence(), initial + 1);
        let _ = c.unit_data_request(&[0x4C, 0x00]).unwrap();
        assert_eq!(c.sequence(), initial + 2);
        let h = EncapsulationHeader::from_bytes(&pkt).unwrap();
        assert_eq!(h.command, 0x0070);
        assert_eq!(h.session, 0x1234_5678);
        assert_eq!(h.length, 8);
        assert_eq!(&pkt[24..], &[0x44, 0x33, 0x22, 0x11, 1, 0, 0x4C, 0x00]);
        c.drop_connection();
        assert!(!c.is_connected());
        assert_eq!(c.connection_id, None);
    }
}

#[test]
fn sequence_wraps_to_one() {
    {
        let c = &mut session();
        c.accept_forward_open_reply(&handle_forward_open()).unwrap();
        c.sequence = u16::MAX;
        let pkt = c.unit_data_request(&[]).unwrap();
        assert_eq!(&pkt[28..30], &[0xFF, 0xFF]);
        assert_eq!(c.sequence(), 1);
    }
}

#[test]
fn forward_open_refusals() {
    {
        let c = &mut session();
        match c.accept_forward_open_reply(&[0xD4, 0, 0]) {
            Err(ForwardOpenError::Other(m)) => assert_eq!(m, "ForwardOpen response too short"),
            other => panic!("unexpected {other:?}"),
        }
        match c.accept_forward_open_reply(&[0xD4, 0, 0, 0, 1, 2]) {
            Err(ForwardOpenError::Other(m)) => {
                assert_eq!(m, "ForwardOpen response missing connection ID")
            }
            other => panic!("unexpected {other:?}"),
        }
        match c.accept_forward_open_reply(&[0xD4, 0, 0x01, 0, 1, 2, 3, 4]) {
            Err(ForwardOpenError::GeneralStatus(0x01)) => {}
            other => panic!("unexpected {other:?}"),
        }
        match c.accept_forward_open_reply(&[0xD4, 0, 0x01, 1, 0x05, 0x02, 1, 2, 3, 4]) {
            Err(ForwardOpenError::Other(m)) => assert_eq!(m, "Invalid RPI"),
            other => panic!("unexpected {other:?}"),
        }
        assert!(!c.is_connected());
        assert_eq!(c.connection_id, None);
    }
}

#[test]
fn large_forward_open_and_fallback() {
    {
        let c = &mut session();
        assert_eq!(c.accept_large_forward_open_reply(&[0xDB, 0]), Err(LargeForwardOpenError::TooShort));
        assert_eq!(
            c.accept_large_forward_open_reply(&[0xDB, 0, 0, 0]),
            Err(LargeForwardOpenError::MissingConnectionId)
        );
        assert_eq!(
            c.accept_large_forward_open_reply(&[0xDB, 0, 0x08, 0, 1, 2, 3, 4]),
            Err(LargeForwardOpenError::Failed(0x08))
        );
        assert!(!c.is_connected());
        c.accept_large_forward_open_reply(&[0xDB, 0, 0, 0, 1, 2, 3, 4]).unwrap();
        assert_eq!(c.connection_id, Some(0x0403_0201));
        assert_eq!(c.sequence(), 1);
    }
    for (g, falls_back) in [(0x01u8, true), (0x05, true), (0x20, true), (0x26, true), (0x08, false), (0x10, false)] {
        let msg = LargeForwardOpenError::Failed(g).to_string();
        assert_eq!(fall_back_to_forward_open(&msg), falls_back, "{msg}");
    }
    assert_eq!(LargeForwardOpenError::Failed(0x26).to_string(), "LargeForwardOpen failed: 0x26");
    assert!(!fall_back_to_forward_open(&LargeForwardOpenError::TooShort.to_string()));
    assert!(!fall_back_to_forward_open("PLC Timeout"));
}

#[test]
fn cpf_errors() {
    assert_eq!(EthernetIpClient::parse_cpf(&[0; 9]), Err(CpfError::TooShort));
    assert_eq!(
        EthernetIpClient::parse_cpf(&[0, 0, 0, 0, 0, 0, 1, 0, 0xB2, 0]),
        Err(CpfError::ItemHeaderTruncated)
    );
    assert_eq!(
        EthernetIpClient::parse_cpf(&[0, 0, 0, 0, 0, 0, 1, 0, 0xB2, 0, 5, 0, 1]),
        Err(CpfError::ItemOutOfBounds)
    );
    assert_eq!(
        EthernetIpClient::parse_cpf(&[0, 0, 0, 0, 0, 0, 1, 0, 0, 0, 0, 0]),
        Err(CpfError::NoDataItem)
    );
    assert_eq!(CpfError::NoDataItem.message(), "No CIP data item found in CPF");
}

#[test]
fn rr_data_packets() {
    let pkt = rr_data_request(7, &[0x4C, 0x02]);
    let h = EncapsulationHeader::from_bytes(&pkt).unwrap();
    assert_eq!(h.command, 0x006F);
    assert_eq!(h.length, 18);
    assert_eq!(h.session, 7);
    assert_eq!(
        &pkt[24..],
        &[0, 0, 0, 0, 0, 0, 2, 0, 0, 0, 0, 0, 0xB2, 0, 2, 0, 0x4C, 0x02]
    );
    assert_eq!(rr_reply_length(None), Err(TransportError::BadHeader));
    assert_eq!(rr_reply_length(Some(EncapsulationHeader::new(0x6F, 0, 7))), Err(TransportError::EmptyPayload));
    assert_eq!(rr_reply_length(Some(EncapsulationHeader::new(0x6F, 20, 7))), Ok(20));
    assert_eq!(
        unit_reply_length(Some(EncapsulationHeader::new(0x6F, 20, 7))),
        Err(TransportError::UnexpectedCommand)
    );
    assert_eq!(unit_reply_length(Some(EncapsulationHeader::new(0x70, 20, 7))), Ok(20));
}

#[test]
fn register_session() {
    let pkt = register_session_request();
    assert_eq!(pkt.len(), 28);
    assert_eq!(&pkt[..4], &[0x65, 0, 4, 0]);
    assert_eq!(&pkt[24..], &[1, 0, 0, 0]);
    assert_eq!(registered_session(None), Err(TransportError::InvalidHandshake));
    let mut h = EncapsulationHeader::new(0x65, 4, 99);
    assert_eq!(registered_session(Some(h)), Ok(99));
    h.status = 1;
    assert_eq!(registered_session(Some(h)), Err(TransportError::RegisterRefused(1)));
    assert_eq!(
        TransportError::RegisterRefused(1).to_string(),
        "RegisterSession failed with status 0x0001"
    );
    assert_eq!(
        TransportError::RegisterRefused(0x12345).to_string(),
        "RegisterSession failed with status 0x12345"
    );
}

#[test]
fn retries_back_off() {
    assert_eq!(next_retry(0, 3, true), Some((1, 50)));
    assert_eq!(next_retry(2, 3, true), Some((3, 150)));
    assert_eq!(next_retry(3, 3, true), None);
    assert_eq!(next_retry(0, 3, false), None);
    assert_eq!(next_retry(usize::MAX - 1, usize::MAX, false), None);
    assert_eq!(next_retry(7, usize::MAX, true), Some((8, 400)));
}

#[test]
fn fragments_accumulate() {
    let mut st = FragmentedReadState::new();
    assert_eq!(st.next_offset(), Ok(0));
    assert_eq!(st.accept_fragment(&[0xD2, 0, 0x06, 0, 0xC4, 0, 42, 0, 0, 0]), Ok(false));
    assert_eq!(st.offset, 4);
    assert_eq!(st.next_offset(), Ok(4));
    assert_eq!(st.accept_fragment(&[0xD2, 0, 0x00, 0, 43, 0, 0, 0]), Ok(true));
    assert_eq!(st.type_id, 0xC4);
    assert_eq!(st.data, vec![42, 0, 0, 0, 43, 0, 0, 0]);
    assert_eq!(st.fragments, 2);
}

#[test]
fn fragment_failures() {
    let plain = |status: u8| CipError::General { status, extended: vec![] };
    let mut st = FragmentedReadState::new();
    assert_eq!(st.accept_fragment(&[0xD2, 0, 0]), Err(plain(0xFE)));
    assert_eq!(st.accept_fragment(&[0xD2, 0, 0, 2, 0]), Err(plain(0xFD)));
    assert_eq!(st.accept_fragment(&[0xD2, 0, 0, 0, 0xC4]), Err(plain(0xFC)));
    let mut st = FragmentedReadState::new();
    assert_eq!(st.accept_fragment(&[0xD2, 0, 0x06, 0, 0xC4, 0]), Err(plain(0x06)));
    let mut st = FragmentedReadState::new();
    assert_eq!(
        st.accept_fragment(&[0xD2, 0, 0x1E, 1, 0x05, 0x02, 0xC4, 0]),
        Err(CipError::General { status: 0x1E, extended: vec![0x0205] })
    );
    let mut st = FragmentedReadState::new();
    st.fragments = MAX_FRAGMENTS;
    assert_eq!(st.next_offset(), Err(plain(0xFF)));
}

#[test]
fn reply_payloads() {
    assert_eq!(parse_cip_response_payload(&[0xCC, 0, 0]), Err(CipError::VendorSpecific(0xFE)));
    assert_eq!(parse_cip_response_payload(&[0xCC, 0, 0x05, 0]), Err(CipError::PathSegmentError));
    assert_eq!(parse_cip_response_payload(&[0xCC, 0, 0, 2, 1, 2]), Err(CipError::VendorSpecific(0xFD)));
    assert_eq!(parse_cip_response_payload(&[0xCC, 0, 0, 1, 1, 2, 7, 8]), Ok(&[7u8, 8][..]));
    assert_eq!(read_reply_value(&[0xCC, 0, 0, 0, 0x99, 0, 1]), Err(CipError::VendorSpecific(0xFC)));
    assert_eq!(read_reply_value(&[0xCC, 0, 0, 0, 0xC2, 0, 0xFF]), Ok(CipValue::SInt(-1)));
    assert_eq!(write_reply_result(&[0xCD, 0, 0x04, 0]), Err(CipError::InvalidAttribute));
    assert_eq!(write_reply_result(&[0xCC, 0, 0, 0]), Err(CipError::VendorSpecific(0xFF)));
    assert_eq!(read_multi_reply_values(&[0xCC, 0, 0, 0, 0xC4]), Err(CipError::VendorSpecific(0xFD)));
}

#[test]
fn read_request_with_count() {
    let cip = build_read_request_count("Tag", 70000, None);
    let n = cip.len();
    assert_eq!(&cip[n - 2..], &(70000u32 as u16).to_le_bytes());
    assert_eq!(&cip[..n - 2], &ethernetip::cip::build_read_request("Tag", None)[..n - 2]);
}

#[test]
fn typed_accessors() {
    assert_eq!(expect_bool(CipValue::Bool(true)), Ok(true));
    assert_eq!(expect_sint(CipValue::SInt(-3)), Ok(-3));
    assert_eq!(expect_int(CipValue::Int(300)), Ok(300));
    assert_eq!(expect_dint(CipValue::DInt(42)), Ok(42));
    assert_eq!(expect_real(CipValue::Real(1.5f32.to_bits())), Ok(1.5f32.to_bits()));
    assert_eq!(expect_string(CipValue::String("s".to_string())), Ok("s".to_string()));
    assert_eq!(
        expect_dint(CipValue::Real(0)),
        Err(CipError::TypeMismatch { expected: "DINT", actual: "REAL" })
    );
    assert_eq!(
        expect_bool(CipValue::Unit),
        Err(CipError::TypeMismatch { expected: "BOOL", actual: "UNIT" })
    );
    assert_eq!(
        expect_string(CipValue::LInt(1)),
        Err(CipError::TypeMismatch { expected: "STRING", actual: "LINT" })
    );
}

#[test]
fn element_names() {
    assert_eq!(indexed_tag_name("Arr", 0), "Arr[0]");
    assert_eq!(indexed_tag_name("Arr", 1234), "Arr[1234]");
}

#[test]
fn array_write_plans() {
    assert!(matches!(plan_array_write("A", &[], None), Ok(ArrayWritePlan::Done)));
    assert!(matches!(
        plan_array_write("A", &[CipValue::String("x".to_string())], None),
        Ok(ArrayWritePlan::PerElement)
    ));
    assert!(matches!(
        plan_array_write("A", &[CipValue::LInt(1)], None),
        Ok(ArrayWritePlan::PerElement)
    ));
    assert_eq!(
        plan_array_write("A", &[CipValue::Int(1), CipValue::Int(2), CipValue::DInt(3)], None).unwrap_err(),
        CipError::TypeMismatch { expected: "INT", actual: "DINT" }
    );
    match plan_array_write("A", &[CipValue::Bool(true), CipValue::Bool(false)], Some(1)).unwrap() {
        ArrayWritePlan::Send(cip) => {
            assert_eq!(
                cip,
                vec![0x4D, 4, 0x01, 0x01, 0x00, 0x00, 0x91, 0x01, b'A', 0x00, 0xC1, 0, 2, 0, 1, 0]
            );
        }
        other => panic!("unexpected {other:?}"),
    }
    match plan_array_write("A", &[CipValue::Real(1.0f32.to_bits()), CipValue::Real(2.0f32.to_bits())], None).unwrap() {
        ArrayWritePlan::Send(cip) => {
            assert_eq!(&cip[..6], &[0x4D, 2, 0x91, 0x01, b'A', 0x00]);
            assert_eq!(&cip[6..10], &[0xCA, 0, 2, 0]);
            assert_eq!(&cip[10..14], &1.0f32.to_le_bytes());
            assert_eq!(&cip[14..18], &2.0f32.to_le_bytes());
        }
        other => panic!("unexpected {other:?}"),
    }
}

#[test]
fn object_attributes() {
    assert_eq!(identity_from_attributes(&[0; 10]), Err(CipError::VendorSpecific(0xFC)));
    assert_eq!(connection_manager_from_attributes(&[1, 2, 3]), Err(CipError::VendorSpecific(0xFC)));
    let cm = connection_manager_from_attributes(&[1, 0, 2, 0, 3, 0]).unwrap();
    assert_eq!((cm.revision, cm.status, cm.configuration_capability), (1, 2, 3));
}

/// Sends `cip` over the open connection to the simulated controller and
/// returns the CIP reply.
fn unit_exchange(c: &mut ClientSession, plc: &mut FakePlcSession, cip: &[u8]) -> Vec<u8> {
    let pkt = c.unit_data_request(cip).unwrap();
    let hdr = EncapsulationHeader::from_bytes(&pkt).unwrap();
    match plc.handle_message(&hdr, &pkt[24..], 8).unwrap() {
        FakePlcAction::Reply(r) => {
            let len = unit_reply_length(EncapsulationHeader::from_bytes(&r[..24])).unwrap();
            assert_eq!(len, r.len() - 24);
            EthernetIpClient::parse_cpf(&r[24..]).unwrap().to_vec()
        }
        other => panic!("no reply: {other:?}"),
    }
}

/// Opens a connection to the simulated controller the way the client does
/// before it is connected: Forward Open over SendRRData.
fn open_connection(c: &mut ClientSession, plc: &mut FakePlcSession) {
    let cip = build_forward_open_request(c.slot, ConnectionParams::default(), ConnectionIds::default());
    let pkt = rr_data_request(c.session, &cip);
    let hdr = EncapsulationHeader::from_bytes(&pkt).unwrap();
    let res = match plc.handle_message(&hdr, &pkt[24..], 8).unwrap() {
        FakePlcAction::Reply(r) => EthernetIpClient::parse_cpf(&r[24..]).unwrap().to_vec(),
        other => panic!("no reply: {other:?}"),
    };
    c.accept_forward_open_reply(&res).unwrap();
}

#[test]
fn test_forward_open_and_close() {
    let c = &mut session();
    let plc = &mut FakePlcSession::new(false);
    c.set_slot(0);
    open_connection(c, plc);
    assert!(c.is_connected());
    let res = unit_exchange(c, plc, &build_forward_close_request(c.slot, ConnectionIds::default()));
    assert_eq!(res, vec![0xCE, 0, 0, 0]);
    c.drop_connection();
    assert!(!c.is_connected());
}

#[test]
fn test_connected_read_write() {
    let c = &mut session();
    let plc = &mut FakePlcSession::new(false);
    c.set_slot(0);
    open_connection(c, plc);
    let res = unit_exchange(c, plc, &build_write_request("DINTTag", &CipValue::DInt(123), c.slot));
    assert_eq!(write_reply_result(&res), Ok(()));
    let res = unit_exchange(c, plc, &build_read_request("DINTTag", c.slot));
    assert_eq!(read_reply_value(&res), Ok(CipValue::DInt(42)));
}

#[test]
fn test_sequence_counter_increments() {
    let c = &mut session();
    let plc = &mut FakePlcSession::new(false);
    c.set_slot(0);
    open_connection(c, plc);
    let initial = c.sequence();
    let _ = read_reply_value(&unit_exchange(c, plc, &build_read_request("DINTTag", c.slot))).unwrap();
    let after_one = c.sequence();
    let _ = read_reply_value(&unit_exchange(c, plc, &build_read_request("DINTTag", c.slot))).unwrap();
    let after_two = c.sequence();
    assert_eq!(after_one, initial + 1);
    assert_eq!(after_two, initial + 2);
}

#[test]
fn test_read_identity_default_impl() {
    let mut raw = Vec::new();
    raw.extend_from_slice(&0x1234u16.to_le_bytes());
    raw.extend_from_slice(&0x5678u16.to_le_bytes());
    raw.extend_from_slice(&0x9ABCu16.to_le_bytes());
    raw.extend_from_slice(&[0x01, 0x02]);
    raw.extend_from_slice(&0x3344u16.to_le_bytes());
    raw.extend_from_slice(&0x11223344u32.to_le_bytes());

    let product_name = b"TestProduct";
    raw.extend_from_slice(&(product_name.len() as u16).to_le_bytes());
    raw.extend_from_slice(product_name);
    raw.extend(std::iter::repeat(0).take(82 - product_name.len()));

    raw.push(0x05);

    let identity = identity_from_attributes(&raw).expect("read_identity should succeed");

    assert_eq!(identity.vendor_id, 0x1234);
    assert_eq!(identity.device_type, 0x5678);
    assert_eq!(identity.product_code, 0x9ABC);
    assert_eq!(identity.revision_major, 0x01);
    assert_eq!(identity.revision_minor, 0x02);
    assert_eq!(identity.status, 0x3344);
    assert_eq!(identity.serial_number, 0x11223344);
    assert_eq!(identity.product_name, "TestProduct");
    assert_eq!(identity.state, 0x05);
}

#[test]
fn test_read_connection_manager_default_impl() {
    let mut raw = Vec::new();
    raw.extend_from_slice(&0x0102u16.to_le_bytes());
    raw.extend_from_slice(&0x0304u16.to_le_bytes());
    raw.extend_from_slice(&0x0506u16.to_le_bytes());

    let info = connection_manager_from_attributes(&raw).expect("read_connection_manager should succeed");

    assert_eq!(info.revision, 0x0102);
    assert_eq!(info.status, 0x0304);
    assert_eq!(info.configuration_capability, 0x0506);
}

#[test]
fn array_write_plans_before_looking_at_the_tag() {
    let bad = "Arr[";
    assert!(!array_write_needs_tag(&[]));
    assert!(matches!(plan_array_write(bad, &[], None), Ok(ArrayWritePlan::Done)));
    assert!(!array_write_needs_tag(&[CipValue::LInt(1)]));
    assert!(matches!(plan_array_write(bad, &[CipValue::LInt(1)], None), Ok(ArrayWritePlan::PerElement)));
    let mixed = [CipValue::DInt(1), CipValue::DInt(2), CipValue::Bool(true)];
    assert!(!array_write_needs_tag(&mixed));
    assert_eq!(
        plan_array_write(bad, &mixed, None).unwrap_err(),
        CipError::TypeMismatch { expected: "DINT", actual: "BOOL" }
    );
    assert!(array_write_needs_tag(&[CipValue::Int(1), CipValue::Int(2)]));
}
