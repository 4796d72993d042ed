use libwing::frame::{expected_len, interpret, Frame};
use libwing::{NodeType, ResponseType, WingResponse};

fn int_of(f: Frame) -> (i32, i32) {
    match f {
        Frame::Emit(WingResponse::NodeData(id, d)) => {
            assert!(d.has_int());
            (id, d.get_int())
        }
        other => panic!("{:?}", other),
    }
}

fn string_of(f: Frame) -> (i32, String) {
    match f {
        Frame::Emit(WingResponse::NodeData(id, d)) => {
            assert!(d.has_string());
            (id, d.get_string().unwrap())
        }
        other => panic!("{:?}", other),
    }
}

fn float_of(f: Frame) -> (i32, f32) {
    match f {
        Frame::Emit(WingResponse::NodeData(id, d)) => {
            assert!(d.has_float());
            (id, f32::from_bits(d.get_float()))
        }
        other => panic!("{:?}", other),
    }
}

#[test]
fn frame_length_of_every_opcode() {
    assert_eq!(expected_len(&[]), None);
    for c in 0x00u8..=0x7F {
        assert_eq!(expected_len(&[c]), Some(1));
    }
    for c in 0x80u8..=0xBF {
        assert_eq!(expected_len(&[c]), Some(1 + (c as usize - 0x7F)));
    }
    for c in 0xC0u8..=0xCF {
        assert_eq!(expected_len(&[c]), Some(1 + (c as usize - 0xBF)));
    }
    assert_eq!(expected_len(&[0xD0]), Some(1));
    assert_eq!(expected_len(&[0xD1]), None);
    assert_eq!(expected_len(&[0xD1, 0]), Some(3));
    assert_eq!(expected_len(&[0xD1, 64]), Some(67));
    assert_eq!(expected_len(&[0xD1, 255]), Some(258));
    assert_eq!(expected_len(&[0xD2]), Some(3));
    assert_eq!(expected_len(&[0xD3]), Some(3));
    assert_eq!(expected_len(&[0xD4]), Some(5));
    assert_eq!(expected_len(&[0xD5]), Some(5));
    assert_eq!(expected_len(&[0xD6]), Some(5));
    assert_eq!(expected_len(&[0xD7]), Some(5));
    assert_eq!(expected_len(&[0xD8]), Some(1));
    assert_eq!(expected_len(&[0xD9]), Some(2));
    for c in 0xDAu8..=0xDE {
        assert_eq!(expected_len(&[c]), Some(1));
    }
    assert_eq!(expected_len(&[0xDF]), None);
    assert_eq!(expected_len(&[0xDF, 0x00]), None);
    assert_eq!(expected_len(&[0xDF, 0x00, 0x00]), Some(7));
    assert_eq!(expected_len(&[0xDF, 0x00, 0x12]), Some(21));
    assert_eq!(expected_len(&[0xDF, 0xFF, 0xFF]), Some(3 + 65535));
    for c in 0xE0u8..=0xFF {
        assert_eq!(expected_len(&[c]), Some(1));
        assert_eq!(expected_len(&[c, 0x00, 0x05]), Some(1));
    }
}

#[test]
fn bytes_above_the_opcodes_are_passed_over() {
    for c in 0xE0u8..=0xFF {
        assert!(matches!(interpret(&[c], 1), Frame::Silent));
    }
}

#[test]
fn frame_length_does_not_change_as_the_frame_grows() {
    assert_eq!(expected_len(&[0x85, b'a', b'b']), Some(7));
    assert_eq!(expected_len(&[0xD1, 2, b'a', b'b', b'c', b'd']), Some(5));
    assert_eq!(expected_len(&[0xDF, 0x00, 0x02, 9, 9, 9]), Some(5));
}

#[test]
fn small_integers_are_data_of_the_current_node() {
    for c in 0x00u8..=0x3F {
        assert_eq!(int_of(interpret(&[c], 77)), (77, c as i32));
    }
    assert_eq!(int_of(interpret(&[0x2A], 5)), (5, 42));
}

#[test]
fn index_hints_are_silent() {
    for c in 0x40u8..=0x7F {
        assert!(matches!(interpret(&[c], 1), Frame::Silent));
    }
    assert!(matches!(interpret(&[0xD2, 0x01, 0x02], 1), Frame::Silent));
    assert!(matches!(interpret(&[0xD2, 0xFF, 0xFF], 1), Frame::Silent));
}

#[test]
fn short_strings_carry_their_length_in_the_opcode() {
    assert_eq!(string_of(interpret(&[0x80, b'x'], 3)), (3, "x".to_string()));
    assert_eq!(
        string_of(interpret(&[0x84, b'h', b'e', b'l', b'l', b'o'], 3)),
        (3, "hello".to_string())
    );
    let mut long = vec![0xBF];
    long.extend(std::iter::repeat(b'z').take(64));
    assert_eq!(string_of(interpret(&long, 3)), (3, "z".repeat(64)));
}

#[test]
fn medium_strings_carry_their_length_in_the_opcode() {
    assert_eq!(string_of(interpret(&[0xC0, b'q'], 8)), (8, "q".to_string()));
    let mut f = vec![0xCF];
    f.extend(std::iter::repeat(b'm').take(16));
    assert_eq!(string_of(interpret(&f, 8)), (8, "m".repeat(16)));
}

#[test]
fn empty_string_frame() {
    assert_eq!(string_of(interpret(&[0xD0], -4)), (-4, String::new()));
}

#[test]
fn long_strings_carry_their_length_less_one() {
    assert_eq!(string_of(interpret(&[0xD1, 0, b'a'], 2)), (2, "a".to_string()));
    let mut f = vec![0xD1, 255];
    f.extend(std::iter::repeat(b'L').take(256));
    assert_eq!(string_of(interpret(&f, 2)), (2, "L".repeat(256)));
}

#[test]
fn integers_of_16_and_32_bits() {
    assert_eq!(int_of(interpret(&[0xD3, 0xFF, 0xFF], 1)), (1, -1));
    assert_eq!(int_of(interpret(&[0xD3, 0x80, 0x00], 1)), (1, -32768));
    assert_eq!(int_of(interpret(&[0xD3, 0x7F, 0xFF], 1)), (1, 32767));
    assert_eq!(int_of(interpret(&[0xD4, 0x80, 0x00, 0x00, 0x00], 1)), (1, i32::MIN));
    assert_eq!(int_of(interpret(&[0xD4, 0x00, 0x01, 0x00, 0x00], 1)), (1, 65536));
}

#[test]
fn both_float_opcodes_give_a_float() {
    assert_eq!(float_of(interpret(&[0xD5, 0x3F, 0x80, 0x00, 0x00], 9)), (9, 1.0));
    assert_eq!(float_of(interpret(&[0xD6, 0xC0, 0x00, 0x00, 0x00], 9)), (9, -2.0));
}

#[test]
fn node_id_frame_selects() {
    assert!(matches!(interpret(&[0xD7, 0x00, 0x00, 0x00, 0x05], 1), Frame::Select(5)));
    assert!(matches!(interpret(&[0xD7, 0xFF, 0xFF, 0xFF, 0xFE], 1), Frame::Select(-2)));
}

#[test]
fn requests_of_the_other_side_are_silent() {
    assert!(matches!(interpret(&[0xD8], 1), Frame::Silent));
    assert!(matches!(interpret(&[0xD9, 0xFF], 1), Frame::Silent));
    for c in 0xDAu8..=0xDD {
        assert!(matches!(interpret(&[c], 1), Frame::Silent));
    }
}

#[test]
fn request_end_frame() {
    assert!(matches!(interpret(&[0xDE], 1), Frame::Emit(WingResponse::RequestEnd)));
}

#[test]
fn definition_frame_gives_the_definition() {
    let mut f = vec![0xDF, 0x00, 0x12];
    f.extend_from_slice(&[0, 0, 0, 0, 0, 0, 0, 1, 0, 0, 4, b'r', b'o', b'o', b't', 0, 0, 0]);
    match interpret(&f, 1) {
        Frame::Emit(WingResponse::NodeDef(d)) => {
            assert_eq!(d.id, 1);
            assert_eq!(d.parent_id, 0);
            assert_eq!(d.name, "root");
            assert_eq!(d.node_type, NodeType::Node);
        }
        other => panic!("{:?}", other),
    }
}

#[test]
fn definition_frame_of_length_zero_is_invalid() {
    assert!(matches!(interpret(&[0xDF, 0, 0, 1, 2, 3, 4], 1), Frame::Invalid));
}

#[test]
fn unreadable_frames_are_invalid() {
    assert!(matches!(interpret(&[0x81, 0xC3, 0x28], 1), Frame::Invalid));
    assert!(matches!(interpret(&[0xD1, 0x00, 0xFF], 1), Frame::Invalid));
    assert!(matches!(interpret(&[0xDF, 0x00, 0x02, 0x00, 0x00], 1), Frame::Invalid));
}

#[test]
fn frames_that_are_not_whole_are_invalid() {
    assert!(matches!(interpret(&[], 1), Frame::Invalid));
    assert!(matches!(interpret(&[0x81, b'a'], 1), Frame::Invalid));
    assert!(matches!(interpret(&[0x2A, 0x00], 1), Frame::Invalid));
    assert!(matches!(interpret(&[0xD4, 0, 0, 0], 1), Frame::Invalid));
    assert!(matches!(interpret(&[0xD1], 1), Frame::Invalid));
    assert!(matches!(interpret(&[0xDF, 0], 1), Frame::Invalid));
}

#[test]
fn kinds_of_events() {
    let end = WingResponse::RequestEnd;
    assert_eq!(end.response_type(), ResponseType::End);
    assert_eq!(end.response_type().code(), 0);
    let data = WingResponse::NodeData(1, libwing::WingNodeData::with_i32(2));
    assert_eq!(data.response_type(), ResponseType::NodeData);
    assert_eq!(data.response_type().code(), 2);
    match interpret(&[0xDF, 0, 10, 0, 0, 0, 0, 0, 0, 0, 1, 0, 0, 0, 0, 0, 0], 1) {
        Frame::Invalid => {}
        other => panic!("{:?}", other),
    }
    match interpret(&[0xDF, 0, 14, 0, 0, 0, 0, 0, 0, 0, 1, 0, 0, 0, 0, 0, 0], 1) {
        Frame::Emit(r) => {
            assert_eq!(r.response_type(), ResponseType::NodeDefinition);
            assert_eq!(r.response_type().code(), 1);
        }
        other => panic!("{:?}", other),
    }
}
