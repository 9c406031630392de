use chim::{detect, is_xml_initial_bytes, validate_header, File, InputKind, Record, Subrecord};
use chim::{ErrorKind, Frame, Level};

fn record_header(tag: &[u8; 4], size: u32, flags: [u8; 8]) -> Vec<u8> {
    let mut v = Vec::new();
    v.extend_from_slice(tag);
    v.extend_from_slice(&size.to_le_bytes());
    v.extend_from_slice(&flags);
    v
}

fn sub_header(tag: &[u8; 4], size: u32) -> Vec<u8> {
    let mut v = Vec::new();
    v.extend_from_slice(tag);
    v.extend_from_slice(&size.to_le_bytes());
    v
}

#[test]
fn minimal_record_decodes() {
    let buf = record_header(b"TES3", 0, [0; 8]);
    let file = File::from_binary(buf).unwrap();
    assert_eq!(file.record_count(), 1);
    assert_eq!(file.record(0).size(), 0);
    assert_eq!(file.record(0).subrecord_count(), 0);
    assert_eq!(file.record(0).range(), 0..16);
}

#[test]
fn short_buffer_fails_too_short() {
    let e = File::from_binary(vec![0x54; 15]).unwrap_err();
    assert_eq!(e.kind, ErrorKind::TooShort { header: 16, length: 15 });
    assert_eq!(e.frames, vec![Frame { level: Level::Record, index: 0, offset: 0 }]);
}

#[test]
fn record_filling_remaining_bytes_succeeds() {
    // One record whose declared size is exactly the remaining bytes:
    // its body is a single empty subrecord.
    let mut buf = record_header(b"TES3", 8, [0; 8]);
    buf.extend_from_slice(&sub_header(b"NAME", 0));
    let file = File::from_binary(buf).unwrap();
    assert_eq!(file.record_count(), 1);
    assert_eq!(file.record(0).size(), 8);
    assert_eq!(file.record(0).subrecord_count(), 1);
    assert_eq!(file.record(0).subrecord(0).range(), 16..24);
}

#[test]
fn record_one_byte_over_fails_size_overflow() {
    let mut buf = record_header(b"TES3", 9, [0; 8]);
    buf.extend_from_slice(&sub_header(b"NAME", 0));
    let e = File::from_binary(buf).unwrap_err();
    assert_eq!(e.kind, ErrorKind::SizeOverflow { declared: 9, available: 8 });
    assert_eq!(e.frames, vec![Frame { level: Level::Record, index: 0, offset: 0 }]);
}

#[test]
fn record_size_five_past_buffer_cites_exact_sizes() {
    // Declared record size 5 bytes larger than the remaining buffer.
    let mut buf = record_header(b"TES3", 8, [0; 8]);
    buf.extend_from_slice(&[0u8; 3]);
    let e = File::from_binary(buf).unwrap_err();
    assert_eq!(e.kind, ErrorKind::SizeOverflow { declared: 8, available: 3 });
}

#[test]
fn two_minimal_records_decode_at_offsets_0_and_16() {
    let mut buf = record_header(b"TES3", 0, [0; 8]);
    buf.extend_from_slice(&record_header(b"GMST", 0, [0; 8]));
    let file = File::from_binary(buf).unwrap();
    assert_eq!(file.record_count(), 2);
    assert_eq!(file.record(0).range(), 0..16);
    assert_eq!(file.record(1).range(), 16..32);
}

#[test]
fn subrecord_error_carries_both_context_frames() {
    // Second record declares a 4-byte body: too short for a subrecord
    // header.
    let mut buf = record_header(b"TES3", 0, [0; 8]);
    buf.extend_from_slice(&record_header(b"GMST", 4, [0; 8]));
    buf.extend_from_slice(&[0u8; 4]);
    let e = File::from_binary(buf).unwrap_err();
    assert_eq!(e.kind, ErrorKind::TooShort { header: 8, length: 4 });
    assert_eq!(
        e.frames,
        vec![
            Frame { level: Level::Subrecord, index: 0, offset: 16 },
            Frame { level: Level::Record, index: 1, offset: 16 },
        ]
    );
}

#[test]
fn subrecord_must_stop_exactly_at_record_boundary() {
    // The subrecord's frame would carry the running offset past the
    // record's declared end: malformed, never silently truncated.
    let mut buf = record_header(b"TES3", 10, [0; 8]);
    buf.extend_from_slice(&sub_header(b"NAME", 4));
    buf.extend_from_slice(&[0u8; 2]);
    let e = File::from_binary(buf).unwrap_err();
    assert_eq!(e.kind, ErrorKind::SizeOverflow { declared: 4, available: 2 });
    assert_eq!(
        e.frames,
        vec![
            Frame { level: Level::Subrecord, index: 0, offset: 16 },
            Frame { level: Level::Record, index: 0, offset: 0 },
        ]
    );
}

#[test]
fn empty_buffer_decodes_to_empty_container() {
    let file = File::from_binary(Vec::new()).unwrap();
    assert_eq!(file.record_count(), 0);
    assert!(file.data().is_empty());
}

#[test]
fn validate_header_checks_window_and_size() {
    let mut win = sub_header(b"NAME", 3);
    win.extend_from_slice(&[7, 8, 9]);
    assert_eq!(validate_header(&win, 8), Ok(3));
    let e = validate_header(&win[..7], 8).unwrap_err();
    assert_eq!(e.kind, ErrorKind::TooShort { header: 8, length: 7 });
    let e = validate_header(&win[..10], 8).unwrap_err();
    assert_eq!(e.kind, ErrorKind::SizeOverflow { declared: 3, available: 2 });
    let e = validate_header(&win[..8], 16).unwrap_err();
    assert_eq!(e.kind, ErrorKind::TooShort { header: 16, length: 8 });
}

#[test]
fn subrecord_and_record_constructors_validate() {
    let mut win = sub_header(b"NAME", 3);
    win.extend_from_slice(&[7, 8, 9]);
    let sub = Subrecord::new(&win, 16).unwrap();
    assert_eq!(sub.start(), 16);
    assert_eq!(sub.size(), 3);
    assert_eq!(sub.range(), 16..27);

    let e = Subrecord::new(&win[..7], 0).unwrap_err();
    assert_eq!(e.kind, ErrorKind::TooShort { header: 8, length: 7 });

    let mut rwin = record_header(b"GMST", 11, [0; 8]);
    rwin.extend_from_slice(&win);
    let rec = Record::new(&rwin, 32).unwrap();
    assert_eq!(rec.start(), 32);
    assert_eq!(rec.size(), 11);
    assert_eq!(rec.subrecord_count(), 1);
    assert_eq!(rec.subrecord(0).start(), 16);
    assert_eq!(rec.range(), 32..59);
}

#[test]
fn detect_distinguishes_the_two_forms() {
    assert_eq!(detect(b"TES3rest").unwrap(), InputKind::Binary);
    assert_eq!(detect(b" \t\r\n<CHIM>").unwrap(), InputKind::Textual);
    assert!(is_xml_initial_bytes(b"  <x"));
    assert!(!is_xml_initial_bytes(b"  x<"));
    assert!(!is_xml_initial_bytes(b""));
    assert!(!is_xml_initial_bytes(b" \t"));
}

#[test]
fn detect_reports_offending_leading_bytes() {
    let e = detect(b"PK\x03\x04rest").unwrap_err();
    assert_eq!(e.kind, ErrorKind::UnrecognizedFormat { bytes: b"PK\x03\x04".to_vec() });
    let e = detect(b"ab").unwrap_err();
    assert_eq!(e.kind, ErrorKind::UnrecognizedFormat { bytes: b"ab".to_vec() });
}

#[test]
fn messages_render_the_context_chain() {
    let mut buf = record_header(b"TES3", 0, [0; 8]);
    buf.extend_from_slice(&record_header(b"GMST", 4, [0; 8]));
    buf.extend_from_slice(&[0u8; 4]);
    let e = File::from_binary(buf).unwrap_err();
    assert_eq!(
        e.message(),
        "window contains less than 8 bytes (4); in subrecord 0 at offset 16; in record 1 at offset 16"
    );
}

#[test]
fn unrecognized_format_message_renders_ascii_or_hex() {
    let e = detect(b"PK\x03\x04").unwrap_err();
    assert_eq!(e.message(), "unexpected initial bytes: P K0304");
}

#[test]
fn framed_lengths_tile_the_buffer_exactly() {
    // Two records with bodies; the records' framed lengths add up to
    // the buffer length, and each record's subrecord framed lengths
    // add up to its declared size.
    let mut buf = record_header(b"TES3", 19, [0; 8]);
    buf.extend_from_slice(&sub_header(b"HEDR", 1));
    buf.extend_from_slice(&[9]);
    buf.extend_from_slice(&sub_header(b"NAME", 2));
    buf.extend_from_slice(&[1, 2]);
    buf.extend_from_slice(&record_header(b"GMST", 8, [0; 8]));
    buf.extend_from_slice(&sub_header(b"FLTV", 0));
    let total = buf.len();
    let file = File::from_binary(buf).unwrap();

    let mut sum = 0usize;
    for k in 0..file.record_count() {
        let rec = file.record(k);
        assert_eq!(rec.start() as usize, sum);
        sum += 16 + rec.size() as usize;
        let mut body = 0u32;
        for j in 0..rec.subrecord_count() {
            let sub = rec.subrecord(j);
            assert_eq!(sub.start(), 16 + body);
            body += 8 + sub.size();
        }
        assert_eq!(body, rec.size());
    }
    assert_eq!(sum, total);
}
