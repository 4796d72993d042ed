use libwing::names::{default_name, map_line, parse_hex_u32, parse_i32};

#[test]
fn decimal_numbers_are_read_as_std_reads_them() {
    let samples = [
        "0", "7", "42", "-1", "+5", "-0", "+0", "007", "2147483647", "2147483648", "-2147483648",
        "-2147483649", "99999999999999999999999", "", "+", "-", "--1", "+-1", "1-", " 1", "1 ",
        "12a", "a12", "1_000", "0x10", "１２", "1.0", "-+3", "4294967296", "-00000000000000000001",
    ];
    for s in samples {
        assert_eq!(parse_i32(s), s.parse::<i32>().ok(), "{:?}", s);
    }
}

#[test]
fn decimal_numbers_exact() {
    assert_eq!(parse_i32("42"), Some(42));
    assert_eq!(parse_i32("-2147483648"), Some(i32::MIN));
    assert_eq!(parse_i32("+2147483647"), Some(i32::MAX));
    assert_eq!(parse_i32("2147483648"), None);
    assert_eq!(parse_i32("/main/1/mute"), None);
}

#[test]
fn hexadecimal_numbers_are_read_as_std_reads_them() {
    let samples = [
        "0", "a", "A", "ff", "FF", "fF", "DEADBEEF", "deadbeef", "ffffffff", "100000000",
        "0000000000001", "+1f", "-1", "", "+", "g", "1g", "0x1f", " 1", "1 ", "12345678",
        "123456789", "fffffffff",
    ];
    for s in samples {
        assert_eq!(parse_hex_u32(s.as_bytes()), u32::from_str_radix(s, 16).ok(), "{:?}", s);
    }
}

#[test]
fn hexadecimal_numbers_exact() {
    assert_eq!(parse_hex_u32(b"1F"), Some(31));
    assert_eq!(parse_hex_u32(b"ffffffff"), Some(u32::MAX));
    assert_eq!(parse_hex_u32(b"100000000"), None);
}

#[test]
fn map_lines() {
    assert_eq!(map_line("1F,/main/1/mute"), Some((31, "/main/1/mute".to_string())));
    assert_eq!(map_line("0,root,ignored,too"), Some((0, "root".to_string())));
    assert_eq!(map_line("ff,"), Some((255, String::new())));
    assert_eq!(map_line("a,näme"), Some((10, "näme".to_string())));
    assert_eq!(map_line("ff"), None);
    assert_eq!(map_line(""), None);
    assert_eq!(map_line(",name"), None);
    assert_eq!(map_line("xyz,name"), None);
    assert_eq!(map_line("100000000,name"), None);
    assert_eq!(map_line(" 1,name"), None);
}

#[test]
fn default_names() {
    assert_eq!(default_name(0), "node_000000");
    assert_eq!(default_name(0x1F), "node_00001F");
    assert_eq!(default_name(0xABCDEF), "node_ABCDEF");
    assert_eq!(default_name(0x1000000), "node_1000000");
    assert_eq!(default_name(u32::MAX), "node_FFFFFFFF");
    for id in [0u32, 1, 15, 16, 255, 4095, 65536, 0xFFFFFF, 0x1000000, 0x7FFF_FFFF] {
        assert_eq!(default_name(id), format!("node_{:06X}", id));
    }
}
