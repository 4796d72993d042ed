use libwing::command::{
    float_write, format_id, int_write, node_data_request, node_definition_request, string_write,
};
use libwing::Error;

#[test]
fn format_id_writes_prefix_id_and_suffix() {
    let mut buf = vec![0x99];
    format_id(5, &mut buf, 0xD7, Some(0xDD));
    assert_eq!(buf, vec![0x99, 0xD7, 0x00, 0x00, 0x00, 0x05, 0xDD]);
    let mut buf = Vec::new();
    format_id(0x0102_0304, &mut buf, 0xD7, None);
    assert_eq!(buf, vec![0xD7, 0x01, 0x02, 0x03, 0x04]);
    let mut buf = Vec::new();
    format_id(-1, &mut buf, 0x11, Some(0x22));
    assert_eq!(buf, vec![0x11, 0xFF, 0xFF, 0xFF, 0xFF, 0x22]);
}

#[test]
fn id_bytes_equal_to_the_escape_are_followed_by_de() {
    let id = |bytes: [u8; 4]| i32::from_be_bytes(bytes);
    let wire = |v: i32| {
        let mut buf = Vec::new();
        format_id(v, &mut buf, 0xD7, None);
        buf
    };
    assert_eq!(wire(id([0xDF, 0, 0, 1])), vec![0xD7, 0xDF, 0xDE, 0, 0, 1]);
    assert_eq!(wire(id([0, 0xDF, 0, 1])), vec![0xD7, 0, 0xDF, 0xDE, 0, 1]);
    assert_eq!(wire(id([0, 0, 0xDF, 1])), vec![0xD7, 0, 0, 0xDF, 0xDE, 1]);
    assert_eq!(wire(id([0, 0, 1, 0xDF])), vec![0xD7, 0, 0, 1, 0xDF, 0xDE]);
    assert_eq!(
        wire(id([0xDF, 0xDF, 0xDF, 0xDF])),
        vec![0xD7, 0xDF, 0xDE, 0xDF, 0xDE, 0xDF, 0xDE, 0xDF, 0xDE]
    );
    assert_eq!(wire(id([0xDE, 0xD0, 0xDD, 0xE0])), vec![0xD7, 0xDE, 0xD0, 0xDD, 0xE0]);
    assert_eq!(wire(id([0xDF, 0xDE, 0xDF, 0xDE])), vec![0xD7, 0xDF, 0xDE, 0xDE, 0xDF, 0xDE, 0xDE]);
}

#[test]
fn suffix_equal_to_the_escape_is_not_escaped() {
    let mut buf = Vec::new();
    format_id(1, &mut buf, 0xDF, Some(0xDF));
    assert_eq!(buf, vec![0xDF, 0, 0, 0, 1, 0xDF]);
}

#[test]
fn requests_for_the_root() {
    assert_eq!(node_definition_request(0), vec![0xDA, 0xDD]);
    assert_eq!(node_data_request(0), vec![0xDA, 0xDC]);
}

#[test]
fn requests_for_a_node() {
    assert_eq!(node_definition_request(5), vec![0xD7, 0, 0, 0, 5, 0xDD]);
    assert_eq!(node_data_request(5), vec![0xD7, 0, 0, 0, 5, 0xDC]);
    assert_eq!(node_definition_request(0xDF), vec![0xD7, 0, 0, 0, 0xDF, 0xDE, 0xDD]);
    assert_eq!(node_data_request(-1), vec![0xD7, 0xFF, 0xFF, 0xFF, 0xFF, 0xDC]);
}

#[test]
fn float_write_of_one() {
    assert_eq!(
        float_write(5, 1.0f32.to_bits()),
        vec![0xD7, 0x00, 0x00, 0x00, 0x05, 0xD5, 0x3F, 0x80, 0x00, 0x00]
    );
}

#[test]
fn float_payload_is_not_escaped() {
    assert_eq!(
        float_write(1, 0xDFDF_DFDF),
        vec![0xD7, 0, 0, 0, 1, 0xD5, 0xDF, 0xDF, 0xDF, 0xDF]
    );
    assert_eq!(float_write(2, 0), vec![0xD7, 0, 0, 0, 2, 0xD5, 0, 0, 0, 0]);
}

#[test]
fn string_write_hello() {
    assert_eq!(
        string_write(5, "hello").unwrap(),
        vec![0xD7, 0x00, 0x00, 0x00, 0x05, 0x84, b'h', b'e', b'l', b'l', b'o']
    );
}

#[test]
fn string_length_buckets() {
    let tail = |len: usize| string_write(1, &"a".repeat(len)).unwrap()[5..].to_vec();
    let with = |head: &[u8], len: usize| {
        let mut v = head.to_vec();
        v.extend(std::iter::repeat(b'a').take(len));
        v
    };
    assert_eq!(tail(0), vec![0xD0]);
    assert_eq!(tail(1), with(&[0x80], 1));
    assert_eq!(tail(2), with(&[0x81], 2));
    assert_eq!(tail(64), with(&[0xBF], 64));
    assert_eq!(tail(65), with(&[0xD1, 64], 65));
    assert_eq!(tail(255), with(&[0xD1, 254], 255));
    assert_eq!(tail(256), with(&[0xD1, 255], 256));
}

#[test]
fn string_of_more_than_256_bytes_is_refused() {
    assert!(matches!(string_write(1, &"a".repeat(257)), Err(Error::InvalidData)));
    assert!(matches!(string_write(1, &"a".repeat(5000)), Err(Error::InvalidData)));
}

#[test]
fn string_length_counts_bytes_not_characters() {
    let s = "é".repeat(128);
    assert_eq!(s.len(), 256);
    let wire = string_write(1, &s).unwrap();
    assert_eq!(&wire[5..7], &[0xD1, 255]);
    assert_eq!(&wire[7..], s.as_bytes());
    assert!(matches!(string_write(1, &"é".repeat(129)), Err(Error::InvalidData)));
    let t = "é".repeat(32);
    assert_eq!(string_write(1, &t).unwrap()[5], 0xBF);
}

#[test]
fn string_bytes_go_out_unescaped() {
    let s = "\u{07DF}";
    assert_eq!(s.as_bytes(), &[0xDF, 0x9F]);
    assert_eq!(string_write(1, s).unwrap(), vec![0xD7, 0, 0, 0, 1, 0x81, 0xDF, 0x9F]);
}

#[test]
fn integer_buckets() {
    let tail = |v: i32| int_write(1, v)[5..].to_vec();
    assert_eq!(tail(0), vec![0x00]);
    assert_eq!(tail(63), vec![0x3F]);
    assert_eq!(tail(64), vec![0xD3, 0x00, 0x40]);
    assert_eq!(tail(-1), vec![0xD3, 0xFF, 0xFF]);
    assert_eq!(tail(32767), vec![0xD3, 0x7F, 0xFF]);
    assert_eq!(tail(-32768), vec![0xD3, 0x80, 0x00]);
    assert_eq!(tail(32768), vec![0xD4, 0x00, 0x00, 0x80, 0x00]);
    assert_eq!(tail(-32769), vec![0xD4, 0xFF, 0xFF, 0x7F, 0xFF]);
    assert_eq!(tail(i32::MAX), vec![0xD4, 0x7F, 0xFF, 0xFF, 0xFF]);
    assert_eq!(tail(i32::MIN), vec![0xD4, 0x80, 0x00, 0x00, 0x00]);
}

#[test]
fn integer_write_addresses_the_node() {
    assert_eq!(int_write(5, 42), vec![0xD7, 0, 0, 0, 5, 0x2A]);
    assert_eq!(int_write(0xDF00, 1000), vec![0xD7, 0, 0, 0xDF, 0xDE, 0, 0xD3, 0x03, 0xE8]);
}

#[test]
fn integer_payload_is_not_escaped() {
    assert_eq!(int_write(1, 0xDF)[5..].to_vec(), vec![0xD3, 0x00, 0xDF]);
    assert_eq!(
        int_write(1, i32::from_be_bytes([0xDF, 0xDF, 0xDF, 0xDF]))[5..].to_vec(),
        vec![0xD4, 0xDF, 0xDF, 0xDF, 0xDF]
    );
}
