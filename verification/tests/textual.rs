use chim::{ErrorKind, File, RecElement, SubElement};

fn frame(tag: &[u8; 4], size: u32, flags: Option<[u8; 8]>) -> Vec<u8> {
    let mut v = Vec::new();
    v.extend_from_slice(tag);
    v.extend_from_slice(&size.to_le_bytes());
    if let Some(f) = flags {
        v.extend_from_slice(&f);
    }
    v
}

fn rec_element(name: &str, size_text: Option<&str>, subs: Vec<SubElement>) -> RecElement {
    RecElement {
        name: name.to_string(),
        size_text: size_text.map(|t| t.to_string()),
        subs,
    }
}

fn sub_element(name: &str, size_text: Option<&str>) -> SubElement {
    SubElement { name: name.to_string(), size_text: size_text.map(|t| t.to_string()) }
}

#[test]
fn minimal_record_renders() {
    let file = File::from_binary(frame(b"TES3", 0, Some([0; 8]))).unwrap();
    assert_eq!(file.to_xml().unwrap(), "<CHIM>\n<TES3 size=\"0\">\n</TES3>\n</CHIM>\n");
}

#[test]
fn nonzero_flags_render_as_attribute() {
    let mut flags = [0u8; 8];
    flags[7] = 1;
    let file = File::from_binary(frame(b"TES3", 0, Some(flags))).unwrap();
    assert_eq!(
        file.to_xml().unwrap(),
        "<CHIM>\n<TES3 size=\"0\" flags=\"0000000000000001\">\n</TES3>\n</CHIM>\n"
    );
}

#[test]
fn subrecord_renders_with_hex_payload() {
    let mut buf = frame(b"TES3", 11, Some([0; 8]));
    buf.extend_from_slice(&frame(b"NAME", 3, None));
    buf.extend_from_slice(&[0x01, 0xAB, 0xFF]);
    let file = File::from_binary(buf).unwrap();
    assert_eq!(
        file.to_xml().unwrap(),
        "<CHIM>\n<TES3 size=\"11\">\n  <NAME size=\"3\">01ABFF</NAME>\n</TES3>\n</CHIM>\n"
    );
}

#[test]
fn long_payload_wraps_on_its_own_lines() {
    let payload: Vec<u8> = (0u16..33).map(|b| b as u8).collect();
    let mut buf = frame(b"TES3", 8 + 33, Some([0; 8]));
    buf.extend_from_slice(&frame(b"DATA", 33, None));
    buf.extend_from_slice(&payload);
    let file = File::from_binary(buf).unwrap();
    let xml = file.to_xml().unwrap();
    let expected_payload = "\n\
        00010203 04050607 08090A0B 0C0D0E0F 10111213 14151617 18191A1B 1C1D1E1F\n\
        20\n  ";
    assert_eq!(
        xml,
        format!(
            "<CHIM>\n<TES3 size=\"41\">\n  <DATA size=\"33\">{}</DATA>\n</TES3>\n</CHIM>\n",
            expected_payload
        )
    );
}

#[test]
fn non_printable_tag_renders_as_hex_and_decodes_back() {
    let mut buf = frame(b"TES3", 8, Some([0; 8]));
    buf.extend_from_slice(&frame(&[0x01, 0x02, 0x03, 0x04], 0, None));
    let file = File::from_binary(buf).unwrap();
    let xml = file.to_xml().unwrap();
    assert!(xml.contains("<01020304 size=\"0\"></01020304>"));
    assert_eq!(chim::xml_tag_to_bytes("01020304"), Some([0x01, 0x02, 0x03, 0x04]));
}

#[test]
fn rebuild_writes_framing_with_zero_flags_and_payload() {
    let elements = vec![rec_element(
        "TES3",
        Some("11"),
        vec![sub_element("NAME", Some("3"))],
    )];
    let file = File::from_elements(&elements).unwrap();
    let mut expected = frame(b"TES3", 11, Some([0; 8]));
    expected.extend_from_slice(&frame(b"NAME", 3, None));
    expected.extend_from_slice(&[0, 0, 0]);
    assert_eq!(file.data().as_slice(), expected.as_slice());
    assert_eq!(file.record_count(), 1);
    assert_eq!(file.record(0).range(), 0..27);
    assert_eq!(file.record(0).subrecord_count(), 1);
    assert_eq!(file.record(0).subrecord(0).range(), 16..27);
}

#[test]
fn rebuild_decodes_hex_tag_names() {
    let elements = vec![rec_element("01020304", Some("0"), Vec::new())];
    let file = File::from_elements(&elements).unwrap();
    assert_eq!(&file.data()[0..4], &[0x01, 0x02, 0x03, 0x04]);
}

#[test]
fn rebuild_requires_a_size_attribute() {
    let elements = vec![rec_element("TES3", None, Vec::new())];
    let e = File::from_elements(&elements).unwrap_err();
    assert_eq!(e.kind, ErrorKind::MissingSize);

    let elements = vec![rec_element("TES3", Some("0"), vec![sub_element("NAME", None)])];
    let e = File::from_elements(&elements).unwrap_err();
    assert_eq!(e.kind, ErrorKind::MissingSize);
}

#[test]
fn rebuild_rejects_unparsable_sizes() {
    let elements = vec![rec_element("TES3", Some("abc"), Vec::new())];
    assert_eq!(File::from_elements(&elements).unwrap_err().kind, ErrorKind::InvalidSize);
    let elements = vec![rec_element("TES3", Some("4294967296"), Vec::new())];
    assert_eq!(File::from_elements(&elements).unwrap_err().kind, ErrorKind::InvalidSize);
}

#[test]
fn rebuild_rejects_malformed_tags() {
    let elements = vec![rec_element("TOOLONGTAG", Some("0"), Vec::new())];
    assert_eq!(File::from_elements(&elements).unwrap_err().kind, ErrorKind::UnknownTag);
    let elements = vec![rec_element("0102030G", Some("0"), Vec::new())];
    assert_eq!(File::from_elements(&elements).unwrap_err().kind, ErrorKind::UnknownTag);
}

#[test]
fn rebuild_rejects_inconsistent_record_sizes() {
    let elements = vec![rec_element("TES3", Some("5"), Vec::new())];
    let e = File::from_elements(&elements).unwrap_err();
    assert_eq!(e.kind, ErrorKind::SizeMismatch { declared: 5, actual: 0 });

    let elements = vec![rec_element("TES3", Some("7"), vec![sub_element("NAME", Some("0"))])];
    let e = File::from_elements(&elements).unwrap_err();
    assert_eq!(e.kind, ErrorKind::SizeMismatch { declared: 7, actual: 8 });
}

#[test]
fn round_trip_preserves_tag_and_size_framing() {
    // Binary decode, textual encode, textual decode (the elements a
    // markup parser would hand back), binary rebuild: framing bytes
    // are reproduced; flags and payload are zeroed.
    let mut buf = frame(b"TES3", 11, Some([7; 8]));
    buf.extend_from_slice(&frame(b"NAME", 3, None));
    buf.extend_from_slice(&[0x01, 0xAB, 0xFF]);
    buf.extend_from_slice(&frame(b"GMST", 8, Some([0; 8])));
    buf.extend_from_slice(&frame(&[0x01, 0x02, 0x03, 0x04], 0, None));
    let file = File::from_binary(buf.clone()).unwrap();

    let elements = vec![
        rec_element("TES3", Some("11"), vec![sub_element("NAME", Some("3"))]),
        rec_element("GMST", Some("8"), vec![sub_element("01020304", Some("0"))]),
    ];
    let rebuilt = File::from_elements(&elements).unwrap();

    assert_eq!(rebuilt.data().len(), buf.len());
    assert_eq!(rebuilt.record_count(), file.record_count());
    for k in 0..file.record_count() {
        let orig = file.record(k);
        let new = rebuilt.record(k);
        assert_eq!(new.range(), orig.range());
        assert_eq!(new.size(), orig.size());
        let start = orig.start() as usize;
        // Tag and size header bytes are byte-identical.
        assert_eq!(&rebuilt.data()[start..start + 8], &buf[start..start + 8]);
        assert_eq!(new.subrecord_count(), orig.subrecord_count());
        for j in 0..orig.subrecord_count() {
            let so = orig.subrecord(j);
            let sn = new.subrecord(j);
            assert_eq!(sn.range(), so.range());
            let abs = start + so.start() as usize;
            assert_eq!(&rebuilt.data()[abs..abs + 8], &buf[abs..abs + 8]);
        }
    }
}

#[test]
fn rebuild_places_two_records_back_to_back() {
    let elements = vec![
        rec_element("TES3", Some("0"), Vec::new()),
        rec_element("GMST", Some("8"), vec![sub_element("FLTV", Some("0"))]),
    ];
    let file = File::from_elements(&elements).unwrap();
    assert_eq!(file.record_count(), 2);
    assert_eq!(file.record(0).range(), 0..16);
    assert_eq!(file.record(1).range(), 16..40);
    assert_eq!(file.data().len(), 40);
    assert_eq!(&file.data()[16..20], b"GMST");
    assert_eq!(&file.data()[32..36], b"FLTV");
}

#[test]
fn size_mismatch_message_cites_both_lengths() {
    let elements = vec![rec_element("TES3", Some("5"), Vec::new())];
    let e = File::from_elements(&elements).unwrap_err();
    assert_eq!(
        e.message(),
        "declared record size (5) differs from subrecords' framed length (0)"
    );
}
