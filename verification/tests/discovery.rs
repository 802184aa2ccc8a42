use ethernetip::client::{list_identity_results, parse_discovery_identity};
use ethernetip::encapsulation::EncapsulationHeader;

fn identity_item(name: &[u8]) -> Vec<u8> {
    let mut item = vec![1, 0, 2, 0, 0xAF, 0x12, 192, 168, 1, 10, 0, 0, 0, 0, 0, 0];
    item.truncate(10);
    item.extend_from_slice(&1u16.to_le_bytes());
    item.extend_from_slice(&0x0Eu16.to_le_bytes());
    item.extend_from_slice(&0x0095u16.to_le_bytes());
    item.extend_from_slice(&[32, 11]);
    item.extend_from_slice(&0x3060u16.to_le_bytes());
    item.extend_from_slice(&0xC0FFEEu32.to_le_bytes());
    item.push(name.len() as u8);
    item.extend_from_slice(name);
    item.push(3);
    item
}

#[test]
fn identity_item_fields() {
    let d = parse_discovery_identity(&identity_item(b"1756-L83E"), "10.0.0.5".to_string()).unwrap();
    assert_eq!(d.ip, "10.0.0.5");
    assert_eq!(d.vendor_id, 1);
    assert_eq!(d.device_type, 0x0E);
    assert_eq!(d.product_code, 0x95);
    assert_eq!((d.revision_major, d.revision_minor), (32, 11));
    assert_eq!(d.status, 0x3060);
    assert_eq!(d.serial, 0xC0FFEE);
    assert_eq!(d.product_name, "1756-L83E");
    assert_eq!(
        d.to_string(),
        "10.0.0.5 \u{2014} 1756-L83E (Vendor: 1, Type: 14, Code: 149, Rev: 32.11, Serial: 12648430, Status: 0x3060)"
    );
    assert!(parse_discovery_identity(&[0; 24], String::new()).is_none());
    let mut short = identity_item(b"AB");
    short.truncate(26);
    assert!(parse_discovery_identity(&short, String::new()).is_none());
}

#[test]
fn list_identity_datagram() {
    let a = identity_item(b"PLC-A");
    let mut payload = Vec::new();
    payload.extend_from_slice(&3u16.to_le_bytes());
    payload.extend_from_slice(&0x0086u16.to_le_bytes());
    payload.extend_from_slice(&2u16.to_le_bytes());
    payload.extend_from_slice(&[9, 9]);
    payload.extend_from_slice(&0x000Cu16.to_le_bytes());
    payload.extend_from_slice(&(a.len() as u16).to_le_bytes());
    payload.extend_from_slice(&a);
    payload.extend_from_slice(&0x000Cu16.to_le_bytes());
    payload.extend_from_slice(&100u16.to_le_bytes());
    let mut datagram = EncapsulationHeader::new(0x0063, payload.len() as u16, 0).to_bytes().to_vec();
    datagram.extend_from_slice(&payload);
    let found = list_identity_results(&datagram, "192.168.1.7");
    assert_eq!(found.len(), 1);
    assert_eq!(found[0].ip, "192.168.1.7");
    assert_eq!(found[0].product_name, "PLC-A");

    let mut refused = datagram.clone();
    refused[8] = 1;
    assert!(list_identity_results(&refused, "x").is_empty());
    let mut other = datagram.clone();
    other[0] = 0x65;
    assert!(list_identity_results(&other, "x").is_empty());
    assert!(list_identity_results(&datagram[..25], "x").is_empty());
}

#[test]
fn header_round_trip() {
    let mut h = EncapsulationHeader::new(0x6F, 300, 0xDEADBEEF);
    h.status = 0x01020304;
    h.sender_context = [1, 2, 3, 4, 5, 6, 7, 8];
    h.options = 9;
    let b = h.to_bytes();
    assert_eq!(EncapsulationHeader::from_bytes(&b), Some(h));
    assert_eq!(&b[..8], &[0x6F, 0, 0x2C, 0x01, 0xEF, 0xBE, 0xAD, 0xDE]);
    assert_eq!(EncapsulationHeader::from_bytes(&b[..23]), None);
}
