use chim::{append_hex_byte, append_u32_dec, hex_char, hex_decode, hex_text, hex_val};
use chim::{parse_u32, parse_u32_dec, xml_tag, xml_tag_to_bytes};

#[test]
fn hex_char_digits() {
    assert_eq!(hex_char(0), '0');
    assert_eq!(hex_char(9), '9');
    assert_eq!(hex_char(10), 'A');
    assert_eq!(hex_char(15), 'F');
}

#[test]
fn hex_byte_appends_two_digits() {
    let mut s = String::new();
    append_hex_byte(&mut s, 0xAB);
    append_hex_byte(&mut s, 0x07);
    assert_eq!(s, "AB07");
}

#[test]
fn hex_text_plain() {
    assert_eq!(hex_text(&[0xAB, 0x00, 0xFF], 0, 0), "AB00FF");
    assert_eq!(hex_text(&[], 32, 4), "");
}

#[test]
fn hex_text_groups_and_rows() {
    assert_eq!(hex_text(&[1, 2, 3, 4, 5], 4, 2), "0102 0304\n05");
    assert_eq!(hex_text(&[1, 2, 3], 0, 1), "01 02 03");
}

#[test]
fn hex_decode_strips_whitespace() {
    assert_eq!(hex_decode("AB 00\nFF").unwrap(), vec![0xAB, 0x00, 0xFF]);
    assert_eq!(hex_decode(" \t\r\n").unwrap(), Vec::<u8>::new());
    assert_eq!(hex_decode("ab0c").unwrap(), vec![0xAB, 0x0C]);
}

#[test]
fn hex_decode_rejects_odd_and_bad_digits() {
    let e = hex_decode("ABC").unwrap_err();
    assert_eq!(e.kind, chim::ErrorKind::InvalidHex);
    assert!(e.frames.is_empty());
    assert_eq!(hex_decode("0G").unwrap_err().kind, chim::ErrorKind::InvalidHex);
}

#[test]
fn hex_round_trip_various_layouts() {
    let bytes: Vec<u8> = (0u16..200).map(|b| (b % 256) as u8).collect();
    for (width, group) in [(0, 0), (32, 4), (1, 1), (7, 3), (0, 5)] {
        let text = hex_text(&bytes, width, group);
        assert_eq!(hex_decode(&text).unwrap(), bytes);
    }
}

#[test]
fn hex_val_cases() {
    assert_eq!(hex_val('0'), Some(0));
    assert_eq!(hex_val('9'), Some(9));
    assert_eq!(hex_val('F'), Some(15));
    assert_eq!(hex_val('f'), Some(15));
    assert_eq!(hex_val('g'), None);
}

#[test]
fn tag_printable_renders_ascii() {
    assert_eq!(xml_tag(b"TES3"), "TES3");
    assert_eq!(xml_tag(b"a_-."), "a_-.");
}

#[test]
fn tag_non_printable_renders_hex() {
    assert_eq!(xml_tag(&[0x01, 0x02, 0x03, 0x04]), "01020304");
    assert_eq!(xml_tag(&[b'A', b'B', 0x00, b'C']), "41420043");
}

#[test]
fn tag_text_decodes_back() {
    assert_eq!(xml_tag_to_bytes("TES3"), Some(*b"TES3"));
    assert_eq!(xml_tag_to_bytes("01020304"), Some([0x01, 0x02, 0x03, 0x04]));
    assert_eq!(xml_tag_to_bytes("9FfA0bCd"), Some([0x9F, 0xFA, 0x0B, 0xCD]));
}

#[test]
fn tag_text_rejects_other_shapes() {
    assert_eq!(xml_tag_to_bytes(""), None);
    assert_eq!(xml_tag_to_bytes("TES"), None);
    assert_eq!(xml_tag_to_bytes("TES33"), None);
    assert_eq!(xml_tag_to_bytes("0102030G"), None);
}

#[test]
fn tag_round_trip_exhaustive_first_byte() {
    for b in 0u16..=255 {
        let bytes = [b as u8, b'E', b'S', b'3'];
        let text = xml_tag(&bytes);
        assert_eq!(xml_tag_to_bytes(&text), Some(bytes));
    }
}

#[test]
fn decimal_renders_and_parses() {
    let mut s = String::new();
    append_u32_dec(&mut s, 0);
    s.push(' ');
    append_u32_dec(&mut s, 4294967295);
    assert_eq!(s, "0 4294967295");
    assert_eq!(parse_u32_dec("123"), Some(123));
    assert_eq!(parse_u32_dec("+7"), Some(7));
    assert_eq!(parse_u32_dec("4294967295"), Some(4294967295));
}

#[test]
fn decimal_rejects_non_numbers() {
    assert_eq!(parse_u32_dec(""), None);
    assert_eq!(parse_u32_dec("+"), None);
    assert_eq!(parse_u32_dec("12a"), None);
    assert_eq!(parse_u32_dec("-1"), None);
    assert_eq!(parse_u32_dec("4294967296"), None);
    assert_eq!(parse_u32_dec("99999999999"), None);
}

#[test]
fn parse_u32_reads_little_endian() {
    assert_eq!(parse_u32(&[0x78, 0x56, 0x34, 0x12]), 0x12345678);
    assert_eq!(parse_u32(&[0xFF, 0xFF, 0xFF, 0xFF, 0x00]), u32::MAX);
}
