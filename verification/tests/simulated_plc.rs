use ethernetip::cip::{
    build_cip_multiple_service_request, build_read_fragmented_request, build_read_request,
    build_symbol_browse_request, build_write_request, parse_cip_multiple_service_response,
    CipError,
};
use ethernetip::client::replies::{
    browse_reply_symbols, read_multi_reply_values, read_reply_value, read_requests,
    write_reply_result,
};
use ethernetip::client::transport::{rr_data_request, rr_reply_length};
use ethernetip::client::{plan_array_write, ArrayWritePlan, FragmentedReadState};
use ethernetip::encapsulation::{EncapsulationHeader, COMMAND_REGISTER_SESSION, COMMAND_SEND_RR_DATA};
use ethernetip::fake_plc::{
    extract_tag_name, handle_cip_request, handle_read, handle_read_fragmented, handle_write,
    FakePlcAction, FakePlcSession,
};
use ethernetip::types::{CipType, CipValue, MultiResult};
use ethernetip::EthernetIpClient;

/// Sends `cip` to the simulated controller over SendRRData and returns the
/// CIP reply, as the client's transport does.
fn exchange(plc: &mut FakePlcSession, cip: &[u8]) -> Vec<u8> {
    let pkt = rr_data_request(0x1234_5678, cip);
    let hdr = EncapsulationHeader::from_bytes(&pkt[..24]).unwrap();
    assert_eq!(hdr.length as usize, pkt.len() - 24);
    match plc.handle_message(&hdr, &pkt[24..], 8).unwrap() {
        FakePlcAction::Reply(reply) => {
            let rh = EncapsulationHeader::from_bytes(&reply[..24]);
            let len = rr_reply_length(rh).unwrap();
            assert_eq!(len, reply.len() - 24);
            EthernetIpClient::parse_cpf(&reply[24..]).unwrap().to_vec()
        }
        other => panic!("no reply: {other:?}"),
    }
}

fn registered_plc(error_mode: bool) -> FakePlcSession {
    let mut plc = FakePlcSession::new(error_mode);
    let hdr = EncapsulationHeader::new(COMMAND_REGISTER_SESSION, 4, 0);
    match plc.handle_message(&hdr, &[1, 0, 0, 0], 8).unwrap() {
        FakePlcAction::Reply(r) => {
            let h = EncapsulationHeader::from_bytes(&r).unwrap();
            assert_eq!(h.session, 0x1234_5678);
            assert_eq!(&r[24..], &[1, 0, 0, 0]);
        }
        other => panic!("no reply: {other:?}"),
    }
    plc
}

#[test]
fn read_from_fake_plc() {
    let mut plc = registered_plc(false);
    let res = exchange(&mut plc, &build_read_request("Test", None));
    assert_eq!(read_reply_value(&res), Ok(CipValue::DInt(42)));
}

#[test]
fn write_to_fake_plc() {
    let mut plc = registered_plc(false);
    let res = exchange(&mut plc, &build_write_request("Test", &CipValue::DInt(123), None));
    assert_eq!(write_reply_result(&res), Ok(()));
}

#[test]
fn read_multi_elements_from_fake_plc() {
    let mut plc = registered_plc(false);
    let cip = ethernetip::client::build_read_request_count("Test", 3, None);
    let res = exchange(&mut plc, &cip);
    let vals = read_multi_reply_values(&res).unwrap();
    assert_eq!(vals, vec![CipValue::DInt(42), CipValue::DInt(43), CipValue::DInt(44)]);
}

#[test]
fn write_multi_elements_to_fake_plc() {
    let mut plc = registered_plc(false);
    let values = vec![CipValue::DInt(10), CipValue::DInt(20), CipValue::DInt(30)];
    match plan_array_write("Test", &values, None).unwrap() {
        ArrayWritePlan::Send(cip) => {
            let res = exchange(&mut plc, &cip);
            assert_eq!(write_reply_result(&res), Ok(()));
        }
        other => panic!("expected one request, got {other:?}"),
    }
}

#[test]
fn msp_multi_read_from_fake_plc() {
    let mut plc = registered_plc(false);
    let reqs = read_requests(&["Test", "Test", "Test"], None);
    let msp = build_cip_multiple_service_request(&reqs);
    let res = exchange(&mut plc, &msp);
    let results = parse_cip_multiple_service_response(&res);
    assert_eq!(results.len(), 3);
    for r in results {
        assert_eq!(r, MultiResult::Success(CipValue::DInt(42)));
    }
}

#[test]
fn msp_error_simulation_every_5th_request() {
    let mut plc = registered_plc(true);
    let reqs = read_requests(&["Test", "Test", "Test", "Test", "Test"], None);
    let msp = build_cip_multiple_service_request(&reqs);
    let res = exchange(&mut plc, &msp);
    let results = parse_cip_multiple_service_response(&res);
    assert_eq!(results.len(), 5);
    assert!(results.iter().any(|r| matches!(r, MultiResult::Failure(_))));
    assert_eq!(results[3], MultiResult::Failure(0x01));
}

#[test]
fn browse_symbols_from_fake_plc() {
    let mut plc = registered_plc(false);
    let res = exchange(&mut plc, &build_symbol_browse_request());
    let syms = browse_reply_symbols(&res).unwrap();
    assert_eq!(syms.len(), 1);
    assert_eq!(syms[0].name, "TestTag");
    assert_eq!(syms[0].typ, CipType::DInt);
    assert!(syms[0].array_dims.is_none());
}

#[test]
fn fragmented_read_from_simulated_plc() {
    let mut plc = registered_plc(false);
    let mut st = FragmentedReadState::new();
    loop {
        let offset = st.next_offset().unwrap();
        let cip = build_read_fragmented_request("Big", 3, offset, None);
        let res = exchange(&mut plc, &cip);
        if st.accept_fragment(&res).unwrap() {
            break;
        }
    }
    assert_eq!(st.type_id, 0x00C4);
    assert_eq!(
        ethernetip::cip::decode_cip_data_list(st.type_id, &st.data),
        vec![CipValue::DInt(42), CipValue::DInt(43), CipValue::DInt(44)]
    );
}

#[test]
fn simulated_read_values_by_tag() {
    let read = |tag: &str, count: u16| {
        let mut cip = build_read_request(tag, None);
        let n = cip.len();
        cip[n - 2..].copy_from_slice(&count.to_le_bytes());
        handle_read(&cip)
    };
    let r = read("LINTTag", 2);
    assert_eq!(&r[..6], &[0xCC, 0, 0, 0, 0xC5, 0]);
    assert_eq!(&r[6..14], &42000000000i64.to_le_bytes());
    assert_eq!(&r[14..22], &42000000001i64.to_le_bytes());
    let r = read("REALTag", 4);
    for i in 0..4 {
        let v = f32::from_le_bytes([r[6 + 4 * i], r[7 + 4 * i], r[8 + 4 * i], r[9 + 4 * i]]);
        assert_eq!(v, 1.5 + i as f32);
    }
    assert_eq!(read("BOOLTag", 3), vec![0xCC, 0, 0, 0, 0xC1, 0, 1, 0, 1]);
    assert_eq!(read("SINTTag", 2), vec![0xCC, 0, 0, 0, 0xC2, 0, 10, 11]);
    assert_eq!(read("INTTag", 2), vec![0xCC, 0, 0, 0, 0xC3, 0, 0xE8, 0x03, 0xE9, 0x03]);
    assert_eq!(read("PackedBoolTag", 9), vec![0xCC, 0, 0, 0, 0xD3, 0, 0x55]);
    let s = read("StringTag", 1);
    assert_eq!(s.len(), 6 + 2 + 82);
    assert_eq!(&s[6..13], &[5, 0, b'H', b'e', b'l', b'l', b'o']);
    assert_eq!(read_reply_value(&s), Ok(CipValue::String("Hello".to_string())));
    assert!(matches!(read_reply_value(&read("LINTTag", 1)), Ok(CipValue::LInt(_))));
    assert_eq!(read("Other", 0), vec![0xCC, 0, 0, 0, 0xC4, 0, 42, 0, 0, 0]);
    assert_eq!(handle_read(&[0x4C, 0x00]), vec![0xCC, 0, 1, 0]);
}

#[test]
fn simulated_real_bits_match_single_precision() {
    let mut cip = build_read_request("REALTag", None);
    let n = cip.len();
    cip[n - 2..].copy_from_slice(&1000u16.to_le_bytes());
    let r = handle_read(&cip);
    for i in [0usize, 1, 2, 7, 100, 999] {
        let bits = u32::from_le_bytes([r[6 + 4 * i], r[7 + 4 * i], r[8 + 4 * i], r[9 + 4 * i]]);
        assert_eq!(bits, (1.5f32 + i as f32).to_bits());
    }
}

#[test]
fn simulated_fragmented_reads() {
    let r = handle_read_fragmented(&build_read_fragmented_request("StringTag", 1, 0, None));
    assert_eq!(&r[..6], &[0xD2, 0, 0, 0, 0xD0, 0]);
    assert_eq!(r.len(), 6 + 84);
    let r = handle_read_fragmented(&build_read_fragmented_request("SINTTag", 3, 1, None));
    assert_eq!(r, vec![0xD2, 0, 0, 0, 11, 12]);
    let r = handle_read_fragmented(&build_read_fragmented_request("DINTTag", 1, 4, None));
    assert_eq!(r, vec![0xD2, 0, 1, 0]);
    assert_eq!(handle_read_fragmented(&[0x52, 0x00]), vec![0xD2, 0, 1, 0]);
}

#[test]
fn simulated_writes() {
    assert_eq!(
        handle_write(&build_write_request("T", &CipValue::String("abc".to_string()), None)),
        vec![0xCD, 0, 0, 0]
    );
    assert_eq!(
        handle_write(&build_write_request("T", &CipValue::BoolPacked(vec![]), None)),
        vec![0xCD, 0, 1, 0]
    );
    assert_eq!(handle_write(&[0x4D, 0, 0, 0, 0x99, 0x00, 1, 0]), vec![0xCD, 0, 1, 0]);
    assert_eq!(handle_write(&[0x4D, 0]), vec![0xCD, 0, 1, 0]);
}

#[test]
fn tag_names_of_requests() {
    assert_eq!(extract_tag_name(&build_read_request("Motor.Speed", None)), b"Motor".to_vec());
    assert_eq!(extract_tag_name(&[0x4C]), b"DINTTag".to_vec());
    assert_eq!(extract_tag_name(&build_read_request("Tag", Some(2))), b"DINTTag".to_vec());
}

#[test]
fn unknown_and_malformed_services() {
    let mut counter = 0u32;
    assert_eq!(handle_cip_request(&[0x33, 0x00], false, &mut counter, 8).unwrap(), vec![0xB3, 0, 1, 0]);
    assert_eq!(handle_cip_request(&[0x0A, 0x00], false, &mut counter, 8).unwrap(), vec![0x8A, 0, 0, 0]);
    assert_eq!(
        handle_cip_request(&[0x0A, 0x00, 0x02, 0x00, 0x08, 0x00, 0x06, 0x00], false, &mut counter, 8).unwrap(),
        vec![0x8A, 0, 0, 0]
    );
    assert_eq!(counter, 0);
}

#[test]
fn error_mode_counts_requests() {
    let mut counter = 0u32;
    let cip = build_read_request("Test", None);
    for _ in 0..4 {
        assert_eq!(handle_cip_request(&cip, true, &mut counter, 8).unwrap()[2], 0x00);
    }
    assert_eq!(handle_cip_request(&cip, true, &mut counter, 8).unwrap(), vec![0xCC, 0, 1, 0]);
    assert_eq!(counter, 5);
}

#[test]
fn session_ignores_and_closes() {
    let mut plc = FakePlcSession::new(false);
    let rr = EncapsulationHeader::new(COMMAND_SEND_RR_DATA, 3, 0);
    assert_eq!(plc.handle_message(&rr, &[0, 0, 0], 8).unwrap(), FakePlcAction::Ignore);
    let other = EncapsulationHeader::new(0x0004, 0, 0);
    assert_eq!(plc.handle_message(&other, &[], 8).unwrap(), FakePlcAction::Ignore);
    let bye = EncapsulationHeader::new(0x0066, 0, 0);
    assert_eq!(plc.handle_message(&bye, &[], 8).unwrap(), FakePlcAction::Close);
}

#[test]
fn unit_data_goes_to_the_simulated_plc() {
    let mut plc = registered_plc(false);
    let mut payload = vec![0x44, 0x33, 0x22, 0x11, 1, 0];
    payload.extend_from_slice(&build_read_request("Test", None));
    let hdr = EncapsulationHeader::new(0x0070, payload.len() as u16, 0x1234_5678);
    match plc.handle_message(&hdr, &payload, 8).unwrap() {
        FakePlcAction::Reply(r) => {
            let h = EncapsulationHeader::from_bytes(&r).unwrap();
            assert_eq!(h.command, 0x0070);
            let cip = EthernetIpClient::parse_cpf(&r[24..]).unwrap();
            assert_eq!(read_reply_value(cip), Ok(CipValue::DInt(42)));
        }
        other => panic!("no reply: {other:?}"),
    }
}

#[test]
fn failed_read_reports_the_status() {
    let mut plc = registered_plc(true);
    let cip = build_read_request("Test", None);
    for _ in 0..4 {
        let _ = exchange(&mut plc, &cip);
    }
    let res = exchange(&mut plc, &cip);
    assert_eq!(read_reply_value(&res), Err(CipError::ConnectionFailure));
}

#[test]
fn nested_packets_and_the_depth_limit() {
    let read = build_read_request("DINTTag", None);
    let inner = build_cip_multiple_service_request(&[read.clone()]);
    let outer = build_cip_multiple_service_request(&[inner.clone()]);
    let mut counter = 0u32;
    assert_eq!(handle_cip_request(&outer, false, &mut counter, 1), None);
    assert_eq!(handle_cip_request(&outer, false, &mut counter, 2), None);
    let at3 = handle_cip_request(&outer, false, &mut counter, 3).unwrap();
    let at9 = handle_cip_request(&outer, false, &mut counter, 9).unwrap();
    assert_eq!(at3, at9);
    assert_eq!(at3[0], 0x8A);
    // A packet whose only entry points back at the packet itself.
    let selfref = [0x0A, 0x00, 0x01, 0x00, 0x00, 0x00];
    let mut counter = 3u32;
    assert_eq!(handle_cip_request(&selfref, false, &mut counter, 40), None);
    assert_eq!(counter, 3);
    // In error mode the fifth request fails at once, which ends the loop.
    let r = handle_cip_request(&selfref, true, &mut counter, 40).unwrap();
    assert_eq!(r, vec![0x8A, 0, 1, 0, 6, 0, 0x8A, 0, 1, 0]);
    assert_eq!(counter, 5);
    assert_eq!(handle_cip_request(&[], false, &mut counter, 40), None);
    let mut full = u32::MAX;
    assert_eq!(handle_cip_request(&read, true, &mut full, 40), None);
    assert_eq!(full, u32::MAX);
}

#[test]
fn session_without_an_answer_is_unchanged() {
    let mut plc = registered_plc(false);
    let before = plc;
    let pkt = rr_data_request(0x1234_5678, &[0x0A, 0x00, 0x01, 0x00, 0x00, 0x00]);
    let hdr = EncapsulationHeader::from_bytes(&pkt[..24]).unwrap();
    assert_eq!(plc.handle_message(&hdr, &pkt[24..], 16), None);
    assert_eq!(plc, before);
}
