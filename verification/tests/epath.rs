use ethernetip::cip::epath::tag_path_is_encodable;
use ethernetip::cip::{encode_epath, encode_epath_with_slot, encode_port_segment};

#[test]
fn epath_encode_simple_tag() {
    let e = encode_epath("Test");
    assert_eq!(
        e,
        vec![
            0x03, // size in words
            0x91, 0x04, // ANSI extended symbol
            b'T', b'e', b's', b't'
        ]
    );
}

#[test]
fn epath_encode_odd_length_tag() {
    let e = encode_epath("Abc");
    assert_eq!(
        e,
        vec![
            0x03, // size in words (correct)
            0x91, 0x03, b'A', b'b', b'c', 0x00
        ]
    );
}

#[test]
fn epath_encode_array_index() {
    let e = encode_epath("Array[5]");
    assert_eq!(
        e,
        vec![
            0x05, // size in words (correct)
            0x91, 0x05, b'A', b'r', b'r', b'a', b'y', 0x00, // padding
            0x28, 0x05 // 1-byte array index segment
        ]
    );
}

#[test]
fn encode_large_array_index() {
    let e = encode_epath("Array[256]");
    assert_eq!(
        e,
        vec![
            0x06, 0x91, 0x05, b'A', b'r', b'r', b'a', b'y', 0x00, 0x29, 0x00, 0x00,
            0x01 // 2-byte index, 256 = 0x0100
        ]
    );
}

#[test]
fn encode_dotted_struct() {
    let e = encode_epath("Motor.Speed");
    assert_eq!(
        e,
        vec![
            0x08, 0x91, 0x05, b'M', b'o', b't', b'o', b'r', 0x00, 0x91, 0x05, b'S', b'p', b'e',
            b'e', b'd', 0x00
        ]
    );
}

#[test]
fn epath_encode_multi_index() {
    let e = encode_epath("A[1,2]");
    assert_eq!(
        e,
        vec![0x04, 0x91, 0x01, b'A', 0x00, 0x28, 0x01, 0x28, 0x02]
    );
}

#[test]
fn encode_no_slot() {
    let e = encode_epath_with_slot("Tag", None);
    assert_eq!(e, encode_epath("Tag"));
}

#[test]
fn encode_with_slot() {
    let e = encode_epath_with_slot("Tag", Some(3));
    assert_eq!(
        e,
        vec![
            0x05, // 5 words total
            0x01, 0x03, // port 1, slot 3
            0x00, 0x00, // required padding
            0x91, 0x03, b'T', b'a', b'g', 0x00
        ]
    );
}

#[test]
fn encode_four_byte_index_and_spaces() {
    let e = encode_epath("T[ 70000 , x]");
    assert_eq!(
        e,
        vec![
            0x06, 0x91, 0x01, b'T', 0x00, 0x2A, 0x00, 0x70, 0x11, 0x01, 0x00, 0x28, 0x00
        ]
    );
}

#[test]
fn encoded_paths_hold_whole_words() {
    for tag in ["A", "Ab", "Abc.D[1]", "X[300].Y[1,2,3]", "Long_Tag_Name.Member[70000]"] {
        let e = encode_epath(tag);
        assert_eq!((e.len() - 1) % 2, 0);
        assert_eq!(e[0] as usize * 2, e.len() - 1);
    }
}

#[test]
fn encodable_tag_paths() {
    assert!(tag_path_is_encodable("Tag"));
    assert!(tag_path_is_encodable("A[1,2].B"));
    assert!(tag_path_is_encodable("A[]"));
    assert!(!tag_path_is_encodable("A["));
    assert!(!tag_path_is_encodable("Motor.Speed["));
}

#[test]
fn port_segment_layout() {
    assert_eq!(encode_port_segment(7), vec![0x01, 0x07, 0x00]);
}

#[test]
fn epath_dot_joins_segments() {
    for (a, b) in [("Motor", "Speed"), ("Abc", "De[3]"), ("A.B", "C[1,300]"), ("Tank[2]", "Level")] {
        let ea = encode_epath(a);
        let eb = encode_epath(b);
        let joined = encode_epath(&format!("{a}.{b}"));
        let mut expected = vec![ea[0] + eb[0]];
        expected.extend_from_slice(&ea[1..]);
        expected.extend_from_slice(&eb[1..]);
        assert_eq!(joined, expected);
    }
}
