use locres::{Error, Localization, Reader, Version};

const MAGIC: [u8; 16] = [
    0x0E, 0x14, 0x74, 0x75, 0x67, 0x4A, 0x03, 0xFC, 0x4A, 0x15, 0x90, 0x9D, 0xC3, 0x37, 0x7F, 0x1B,
];

fn put_u32(buf: &mut Vec<u8>, v: u32) {
    buf.extend_from_slice(&v.to_le_bytes());
}

fn put_i32(buf: &mut Vec<u8>, v: i32) {
    buf.extend_from_slice(&v.to_le_bytes());
}

fn put_u64(buf: &mut Vec<u8>, v: u64) {
    buf.extend_from_slice(&v.to_le_bytes());
}

fn put_str(buf: &mut Vec<u8>, s: &str) {
    put_i32(buf, s.len() as i32);
    buf.extend_from_slice(s.as_bytes());
}

#[test]
fn magic_signature_is_the_sixteen_bytes_of_the_format() {
    assert_eq!(locres::localization::MAGIC, MAGIC);
    assert_eq!(
        locres::localization::MAGIC,
        [
            0x0E, 0x14, 0x74, 0x75, 0x67, 0x4A, 0x03, 0xFC, 0x4A, 0x15, 0x90, 0x9D, 0xC3, 0x37,
            0x7F, 0x1B
        ]
    );
}

#[test]
fn legacy_single_namespace_inline_value() {
    let mut buf = Vec::new();
    put_u32(&mut buf, 1);
    put_str(&mut buf, "UI");
    put_u32(&mut buf, 1);
    put_str(&mut buf, "OK");
    put_u32(&mut buf, 0x12345678);
    put_str(&mut buf, "OK");
    // the version detector reads sixteen bytes before it rewinds
    assert!(buf.len() >= 16);

    let mut reader = Reader::new(&buf);
    let loc = match Localization::from_reader(&mut reader) {
        Ok(loc) => loc,
        Err(e) => panic!("decode failed: {:?}", e),
    };
    assert_eq!(loc.version, Version::Legacy);
    assert!(loc.strings.is_empty());
    assert_eq!(loc.entries_count, None);
    let ns = loc.namespaces.get("UI").unwrap();
    assert_eq!(ns.key_hash, None);
    let entry = ns.members.get("OK").unwrap();
    assert_eq!(entry.0.value, "OK");
    assert_eq!(entry.0.ref_count, None);
    assert_eq!(entry.1, None);
    assert_eq!(entry.2, 0x12345678);
    assert_eq!(reader.position(), buf.len() as u64);
}

#[test]
fn optimized_entry_resolves_through_string_table() {
    let mut buf = Vec::new();
    buf.extend_from_slice(&MAGIC);
    buf.push(2);
    let offset_at = buf.len();
    put_u64(&mut buf, 0);
    put_u32(&mut buf, 1); // declared entries
    put_u32(&mut buf, 1); // namespaces
    put_i32(&mut buf, -7); // namespace key hash
    put_str(&mut buf, "Dialog");
    put_u32(&mut buf, 1); // entries
    put_u32(&mut buf, 0xAABBCCDD); // key hash
    put_str(&mut buf, "Answer");
    put_u32(&mut buf, 0x01020304); // source hash
    put_i32(&mut buf, 1); // index
    let after_namespaces = buf.len();
    let table_at = buf.len() as u64;
    buf[offset_at..offset_at + 8].copy_from_slice(&table_at.to_le_bytes());
    put_i32(&mut buf, 2);
    put_str(&mut buf, "Yes");
    put_i32(&mut buf, 3);
    put_str(&mut buf, "No");
    put_i32(&mut buf, 1);

    let mut reader = Reader::new(&buf);
    let loc = match Localization::from_reader(&mut reader) {
        Ok(loc) => loc,
        Err(e) => panic!("decode failed: {:?}", e),
    };
    assert_eq!(loc.version, Version::Optimized);
    assert_eq!(loc.entries_count, Some(1));
    assert_eq!(loc.strings.len(), 2);
    assert_eq!(loc.strings[0].value, "Yes");
    assert_eq!(loc.strings[0].ref_count, Some(3));
    assert_eq!(loc.strings[1].value, "No");
    assert_eq!(loc.strings[1].ref_count, Some(1));
    let value = loc.get_namespaced_string("Dialog", "Answer").unwrap();
    assert_eq!(value.value, "No");
    assert_eq!(value.ref_count, Some(1));
    let ns = loc.namespaces.get("Dialog").unwrap();
    assert_eq!(ns.key_hash, Some(-7));
    let entry = ns.members.get("Answer").unwrap();
    assert_eq!(entry.1, Some(0xAABBCCDD));
    assert_eq!(entry.2, 0x01020304);
    assert_eq!(reader.position(), after_namespaces as u64);
}

#[test]
fn index_one_past_the_end_is_rejected() {
    let mut buf = Vec::new();
    buf.extend_from_slice(&MAGIC);
    buf.push(1);
    let offset_at = buf.len();
    put_u64(&mut buf, 0);
    put_u32(&mut buf, 1);
    put_str(&mut buf, "N");
    put_u32(&mut buf, 1);
    put_str(&mut buf, "K");
    put_u32(&mut buf, 0);
    put_i32(&mut buf, 2);
    let table_at = buf.len() as u64;
    buf[offset_at..offset_at + 8].copy_from_slice(&table_at.to_le_bytes());
    put_i32(&mut buf, 2);
    put_str(&mut buf, "a");
    put_str(&mut buf, "b");

    let mut reader = Reader::new(&buf);
    match Localization::from_reader(&mut reader) {
        Err(e) => assert_eq!(e, Error::InvalidLocalizedStringIndex(2)),
        Ok(_) => panic!("a dangling index was accepted"),
    }
}
