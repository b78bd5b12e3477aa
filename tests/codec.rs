use fbx_direct::property::{decode_property, decode_properties, encode_properties, Property};
use fbx_direct::reader::{ErrorKind, EventReader, FbxEvent, FbxFormatType};
use fbx_direct::writer::{Error as WriteError, EventWriter};

fn node(name: &str, properties: Vec<Property>) -> FbxEvent {
    FbxEvent::StartNode { name: name.to_string(), properties }
}

fn encode(events: &[FbxEvent]) -> Vec<u8> {
    let mut w = EventWriter::new();
    for e in events {
        w.write(e).unwrap();
    }
    w.into_inner()
}

fn decode(bytes: Vec<u8>) -> Vec<FbxEvent> {
    let mut out = Vec::new();
    let mut it = EventReader::new(bytes).into_iter();
    while let Some(r) = it.next() {
        out.push(r.unwrap());
    }
    out
}

fn scene(version: u32) -> Vec<FbxEvent> {
    vec![
        FbxEvent::StartFbx(FbxFormatType::Binary(version)),
        node("Root", vec![]),
        node("Child", vec![Property::Bool(true), Property::I32(42)]),
        FbxEvent::EndNode,
        FbxEvent::EndNode,
        FbxEvent::EndFbx,
    ]
}

fn magic() -> Vec<u8> {
    let mut m = b"Kaydara FBX Binary  ".to_vec();
    m.extend_from_slice(&[0, 0x1a, 0]);
    m
}

fn le32(out: &mut Vec<u8>, x: u32) {
    out.extend_from_slice(&x.to_le_bytes());
}

/// The scene document, written out by hand for version 7400.
fn hand_written_scene() -> Vec<u8> {
    let mut d = magic();
    le32(&mut d, 7400);
    // Root at 27: name ends at 44; its child list and null record end at 82.
    le32(&mut d, 82);
    le32(&mut d, 0);
    le32(&mut d, 0);
    d.push(4);
    d.extend_from_slice(b"Root");
    // Child at 44: header and name end at 62, properties at 69.
    le32(&mut d, 69);
    le32(&mut d, 2);
    le32(&mut d, 7);
    d.push(5);
    d.extend_from_slice(b"Child");
    d.extend_from_slice(&[b'C', 1]);
    d.push(b'I');
    le32(&mut d, 42);
    // Null record closing Root's children, then the top-level one.
    d.extend_from_slice(&[0u8; 13]);
    d.extend_from_slice(&[0u8; 13]);
    d
}

fn round_trip(bytes: Vec<u8>) -> Vec<u8> {
    let mut w = EventWriter::new();
    let mut it = EventReader::new(bytes).into_iter();
    while let Some(r) = it.next() {
        match r {
            Ok(e) => w.write(&e).unwrap(),
            Err(_) => break,
        }
    }
    w.into_inner()
}

#[test]
fn binary_export_import() {
    for version in [7400u32, 7500] {
        let source = encode(&scene(version));
        let exported1 = round_trip(source);
        let exported2 = round_trip(exported1.clone());
        assert_eq!(exported1, exported2);
    }
}

#[test]
fn decoding_hand_written_scene_yields_expected_events() {
    assert_eq!(decode(hand_written_scene()), scene(7400));
}

#[test]
fn scene_survives_encode_and_decode() {
    for version in [7100u32, 7400, 7500, 7700] {
        let events = scene(version);
        let bytes = encode(&events);
        assert_eq!(decode(bytes.clone()), events);
        assert_eq!(decode(encode(&decode(bytes))), events);
    }
}

#[test]
fn writer_output_matches_hand_written_layout() {
    let bytes = encode(&scene(7400));
    let hand = hand_written_scene();
    assert_eq!(&bytes[..hand.len()], &hand[..]);
    assert_eq!(bytes.len(), hand.len() + 160);
}

#[test]
fn wide_version_uses_eight_byte_fields() {
    let bytes = encode(&scene(7500));
    // 27 header bytes, Root: 25 + 4, Child: 25 + 5 + 7, null 25, top null 25.
    assert_eq!(bytes.len(), 27 + 29 + 37 + 25 + 25 + 160);
    assert_eq!(&bytes[27..35], &(27u64 + 29 + 37 + 25).to_le_bytes());
}

#[test]
fn reencoding_decoded_bytes_is_idempotent() {
    let once = round_trip(hand_written_scene());
    let twice = round_trip(once.clone());
    assert_eq!(once, twice);
}

#[test]
fn stream_is_balanced_and_bracketed() {
    let events = decode(encode(&scene(7400)));
    let starts = events.iter().filter(|e| matches!(e, FbxEvent::StartNode { .. })).count();
    let ends = events.iter().filter(|e| matches!(e, FbxEvent::EndNode)).count();
    assert_eq!(starts, ends);
    let mut depth: i64 = 0;
    for e in &events {
        match e {
            FbxEvent::StartNode { .. } => depth += 1,
            FbxEvent::EndNode => depth -= 1,
            _ => {}
        }
        assert!(depth >= 0);
    }
    assert!(matches!(events[0], FbxEvent::StartFbx(_)));
    assert!(matches!(events[events.len() - 1], FbxEvent::EndFbx));
    assert_eq!(events.iter().filter(|e| matches!(e, FbxEvent::StartFbx(_))).count(), 1);
    assert_eq!(events.iter().filter(|e| matches!(e, FbxEvent::EndFbx)).count(), 1);
}

#[test]
fn empty_document_has_only_start_and_end() {
    let events = vec![FbxEvent::StartFbx(FbxFormatType::Binary(7400)), FbxEvent::EndFbx];
    assert_eq!(decode(encode(&events)), events);
    let mut header = magic();
    le32(&mut header, 7300);
    assert_eq!(decode(header), vec![FbxEvent::StartFbx(FbxFormatType::Binary(7300)), FbxEvent::EndFbx]);
}

#[test]
fn node_properties_keep_value_and_order() {
    let props = vec![Property::I32(5), Property::F64(2.5f64.to_bits()), Property::String("x".to_string())];
    let events = vec![
        FbxEvent::StartFbx(FbxFormatType::Binary(7400)),
        node("N", props.clone()),
        FbxEvent::EndNode,
        FbxEvent::EndFbx,
    ];
    match &decode(encode(&events))[1] {
        FbxEvent::StartNode { name, properties } => {
            assert_eq!(name, "N");
            assert_eq!(properties, &props);
            assert_eq!(f64::from_bits(match properties[1] {
                Property::F64(b) => b,
                _ => 0,
            }), 2.5);
        }
        other => panic!("unexpected event {:?}", other),
    }
}

#[test]
fn every_property_type_round_trips() {
    let props = vec![
        Property::Bool(false),
        Property::I16(-12345),
        Property::I32(-7),
        Property::I64(i64::MIN),
        Property::F32(1.5f32.to_bits()),
        Property::F64((-0.25f64).to_bits()),
        Property::Binary(vec![0, 255, 7]),
        Property::String("h\u{e9}llo".to_string()),
        Property::VecI32(vec![1, -2, 3]),
        Property::VecI64(vec![i64::MAX, 0]),
        Property::VecF32(vec![0.5f32.to_bits()]),
        Property::VecF64(vec![]),
        Property::VecBool(vec![true, false, true]),
    ];
    let mut bytes = Vec::new();
    encode_properties(&mut bytes, &props);
    let (back, end) = decode_properties(&bytes, 0, props.len() as u64).unwrap();
    assert_eq!(back, props);
    assert_eq!(end, bytes.len());
}

#[test]
fn property_layout_is_tag_then_little_endian_payload() {
    let mut bytes = Vec::new();
    encode_properties(&mut bytes, &vec![Property::I16(0x0102), Property::String("\u{e9}".to_string())]);
    assert_eq!(bytes, vec![b'Y', 2, 1, b'S', 2, 0, 0, 0, 0xc3, 0xa9]);
    let (p, next) = decode_property(&bytes, 3).unwrap();
    assert_eq!(p, Property::String("\u{e9}".to_string()));
    assert_eq!(next, 10);
    let arr = vec![b'i', 2, 0, 0, 0, 0, 0, 0, 0, 8, 0, 0, 0, 1, 0, 0, 0, 0xff, 0xff, 0xff, 0xff];
    assert_eq!(decode_property(&arr, 0).unwrap(), (Property::VecI32(vec![1, -1]), 21));
}

#[test]
fn bad_magic_fails_at_position_zero() {
    let mut bytes = hand_written_scene();
    bytes[0] = b'X';
    let mut r = EventReader::new(bytes);
    let e = r.next().unwrap_err();
    assert!(matches!(e.kind, ErrorKind::InvalidMagic));
    assert_eq!(e.pos, 0);
    assert_eq!(e.description(), "Got an invalid magic header");
    let e = EventReader::new(b"not an fbx file at all, really".to_vec()).next().unwrap_err();
    assert!(matches!(e.kind, ErrorKind::InvalidMagic));
    assert_eq!(e.pos, 0);
}

#[test]
fn truncated_record_fails_with_eof_at_last_good_offset() {
    let bytes = hand_written_scene();
    // Cut inside Root's property-count field, which starts at 31.
    let mut r = EventReader::new(bytes[..33].to_vec());
    assert_eq!(r.next().unwrap(), FbxEvent::StartFbx(FbxFormatType::Binary(7400)));
    let e = r.next().unwrap_err();
    assert!(matches!(e.kind, ErrorKind::UnexpectedEof));
    assert_eq!(e.pos, 31);
    // Cut inside Child's name, which starts at 57.
    let mut r = EventReader::new(bytes[..60].to_vec());
    r.next().unwrap();
    r.next().unwrap();
    let e = r.next().unwrap_err();
    assert!(matches!(e.kind, ErrorKind::UnexpectedEof));
    assert_eq!(e.pos, 57);
    // Cut inside the header.
    let e = EventReader::new(magic()[..10].to_vec()).next().unwrap_err();
    assert!(matches!(e.kind, ErrorKind::UnexpectedEof));
    assert_eq!(e.pos, 0);
}

#[test]
fn reader_stops_after_first_error() {
    let bytes = hand_written_scene();
    let mut it = EventReader::new(bytes[..33].to_vec()).into_iter();
    assert!(matches!(it.next(), Some(Ok(FbxEvent::StartFbx(_)))));
    assert!(matches!(it.next(), Some(Err(_))));
    assert!(it.next().is_none());
    assert!(it.next().is_none());
}

#[test]
fn reader_rejects_inconsistent_records() {
    // Child's end offset pointing past Root's end.
    let mut bytes = hand_written_scene();
    bytes[44..48].copy_from_slice(&90u32.to_le_bytes());
    let mut r = EventReader::new(bytes);
    r.next().unwrap();
    r.next().unwrap();
    let e = r.next().unwrap_err();
    assert!(matches!(e.kind, ErrorKind::DataError(_)));
    assert_eq!(e.pos, 62);
    // Declared property-list length disagreeing with the properties read.
    let mut bytes = hand_written_scene();
    bytes[52..56].copy_from_slice(&6u32.to_le_bytes());
    let mut r = EventReader::new(bytes);
    r.next().unwrap();
    r.next().unwrap();
    assert!(matches!(r.next().unwrap_err().kind, ErrorKind::DataError(_)));
}

#[test]
fn reader_rejects_bad_names_and_values() {
    let mut bytes = hand_written_scene();
    bytes[40] = 0xff;
    let mut r = EventReader::new(bytes);
    r.next().unwrap();
    let e = r.next().unwrap_err();
    assert!(matches!(e.kind, ErrorKind::FromUtf8Error(0)));
    assert_eq!(e.pos, 40);
    assert_eq!(e.message(), "UTF-8 conversion error at pos=40: invalid byte after 0 valid bytes");
    let mut bytes = hand_written_scene();
    bytes[42] = 0xc3;
    let mut r = EventReader::new(bytes);
    r.next().unwrap();
    let e = r.next().unwrap_err();
    assert!(matches!(e.kind, ErrorKind::FromUtf8Error(2)));
    let mut bytes = hand_written_scene();
    bytes[62] = b'Q';
    let mut r = EventReader::new(bytes);
    r.next().unwrap();
    r.next().unwrap();
    let e = r.next().unwrap_err();
    assert!(matches!(e.kind, ErrorKind::UnexpectedValue(_)));
    assert_eq!(e.pos, 62);
}

fn compressed_array(tag: u8, count: u32, raw: &[u8]) -> Vec<u8> {
    let z = miniz_oxide::deflate::compress_to_vec_zlib(raw, 6);
    let mut out = vec![tag];
    le32(&mut out, count);
    le32(&mut out, 1);
    le32(&mut out, z.len() as u32);
    out.extend_from_slice(&z);
    out
}

#[test]
fn compressed_arrays_are_inflated() {
    let mut raw = Vec::new();
    raw.extend_from_slice(&1.5f64.to_bits().to_le_bytes());
    raw.extend_from_slice(&(-2.0f64).to_bits().to_le_bytes());
    let arr = compressed_array(b'd', 2, &raw);
    let (p, next) = decode_property(&arr, 0).unwrap();
    assert_eq!(p, Property::VecF64(vec![1.5f64.to_bits(), (-2.0f64).to_bits()]));
    assert_eq!(next, arr.len());
    let ints: Vec<u8> = (0..100i32).flat_map(|i| i.to_le_bytes()).collect();
    let arr = compressed_array(b'i', 100, &ints);
    assert_eq!(decode_property(&arr, 0).unwrap().0, Property::VecI32((0..100).collect()));
}

#[test]
fn bad_compressed_arrays_are_data_errors() {
    // Not a zlib stream.
    let arr = vec![b'd', 1, 0, 0, 0, 1, 0, 0, 0, 4, 0, 0, 0, 1, 2, 3, 4];
    let e = decode_property(&arr, 0).unwrap_err();
    assert!(matches!(e.kind, ErrorKind::DataError(_)));
    assert_eq!(e.pos, 13);
    // Inflates to the wrong length for its count.
    let arr = compressed_array(b'i', 3, &[1, 0, 0, 0]);
    assert!(matches!(decode_property(&arr, 0).unwrap_err().kind, ErrorKind::DataError(_)));
    // Cut inside the compressed payload.
    let arr = compressed_array(b'i', 1, &[1, 0, 0, 0]);
    let e = decode_property(&arr[..arr.len() - 1].to_vec(), 0).unwrap_err();
    assert!(matches!(e.kind, ErrorKind::UnexpectedEof));
    assert_eq!(e.pos, 13);
}

#[test]
fn writer_refuses_protocol_violations() {
    let mut w = EventWriter::new();
    assert!(matches!(w.write(&FbxEvent::EndNode), Err(WriteError::FbxNotStarted)));
    assert!(matches!(w.write(&node("A", vec![])), Err(WriteError::FbxNotStarted)));
    assert!(matches!(w.write(&FbxEvent::StartFbx(FbxFormatType::Binary(6100))), Err(WriteError::UnsupportedFbxVersion(6100))));
    assert!(matches!(w.write(&FbxEvent::StartFbx(FbxFormatType::Text)), Err(WriteError::Unimplemented(_))));
    w.write(&FbxEvent::StartFbx(FbxFormatType::Binary(7400))).unwrap();
    assert!(matches!(w.write(&FbxEvent::StartFbx(FbxFormatType::Binary(7400))), Err(WriteError::FbxAlreadyStarted)));
    let e = w.write(&FbxEvent::EndNode).unwrap_err();
    assert!(matches!(e, WriteError::ExtraEndNode));
    assert_eq!(e.description(), "Extra end-of-node marker detected");
    assert!(matches!(w.write(&FbxEvent::Comment("c".to_string())), Err(WriteError::UnwritableEvent)));
    w.write(&node("A", vec![])).unwrap();
    assert!(matches!(w.write(&FbxEvent::EndFbx), Err(WriteError::UnwritableEvent)));
    let long = "n".repeat(256);
    assert!(matches!(w.write(&node(&long, vec![])), Err(WriteError::DataTooLarge(_))));
    w.write(&FbxEvent::EndNode).unwrap();
    w.write(&FbxEvent::EndFbx).unwrap();
    assert!(matches!(w.write(&node("B", vec![])), Err(WriteError::FbxAlreadyStarted)));
    assert_eq!(decode(w.into_inner()), vec![
        FbxEvent::StartFbx(FbxFormatType::Binary(7400)),
        node("A", vec![]),
        FbxEvent::EndNode,
        FbxEvent::EndFbx,
    ]);
}

#[test]
fn stopped_reader_reports_its_own_error() {
    let mut r = EventReader::new(hand_written_scene()[..33].to_vec());
    r.next().unwrap();
    r.next().unwrap_err();
    let e = r.next().unwrap_err();
    assert_eq!(e.message(), "Invalid data at pos=27: the reader has already stopped");
}

#[test]
fn error_messages_carry_position_and_detail() {
    let e = EventReader::new(b"garbage".to_vec()).next().unwrap_err();
    assert_eq!(e.message(), "Invalid magic header at pos=0: Non-FBX or corrupted data?");
    let bytes = hand_written_scene();
    let mut r = EventReader::new(bytes[..33].to_vec());
    r.next().unwrap();
    let e = r.next().unwrap_err();
    assert_eq!(e.message(), "Unexpected EOF at pos=31");
    assert_eq!(e.description(), "Unexpected EOF");
    let e = fbx_direct::reader::Error::new(1234, ErrorKind::DataError("bad length".to_string()));
    assert_eq!(e.pos, 1234);
    assert_eq!(e.message(), "Invalid data at pos=1234: bad length");
    assert_eq!(WriteError::UnsupportedFbxVersion(6100).message(), "Unsupported FBX version (6100)");
    assert_eq!(WriteError::ExtraEndNode.message(), "Extra end-of-node marker detected");
    assert_eq!(WriteError::DataTooLarge("name".to_string()).message(), "Data size is too large: name");
}

#[test]
fn nested_document_reencodes_identically() {
    let events = vec![
        FbxEvent::StartFbx(FbxFormatType::Binary(7500)),
        node("Header", vec![Property::I32(1000)]),
        node("Version", vec![Property::String("7.5".to_string())]),
        FbxEvent::EndNode,
        node("Flags", vec![]),
        node("Deep", vec![Property::VecF64(vec![1.0f64.to_bits(), 2.0f64.to_bits()])]),
        FbxEvent::EndNode,
        FbxEvent::EndNode,
        FbxEvent::EndNode,
        node("Objects", vec![Property::Binary(vec![1, 2, 3]), Property::I64(-1)]),
        FbxEvent::EndNode,
        FbxEvent::EndFbx,
    ];
    let once = encode(&events);
    assert_eq!(decode(once.clone()), events);
    let twice = round_trip(once.clone());
    assert_eq!(once, twice);
}
