use legend_pure::purem::header::{
    read_header, schema_hash, write_header, HeaderError, FORMAT_VERSION, HEADER_LEN, MAGIC,
    RESERVED, SCHEMA_HASH,
};

#[test]
fn header_round_trips() {
    let mut blob = Vec::new();
    write_header(&mut blob, 7);
    // Append 7 dummy bytes so payload_length validates.
    blob.extend_from_slice(&[0u8; 7]);
    assert_eq!(blob.len(), HEADER_LEN + 7);
    let payload = read_header(&blob).expect("header should parse");
    assert_eq!(payload.len(), 7);
}

#[test]
fn header_rejects_short_blob() {
    let blob = vec![0u8; 10];
    assert!(matches!(
        read_header(&blob),
        Err(HeaderError::TooShort { .. })
    ));
}

#[test]
fn header_rejects_bad_magic() {
    let mut blob = vec![b'X', b'X', b'X', b'X', b'X', 0];
    blob.extend_from_slice(&FORMAT_VERSION.to_le_bytes());
    blob.extend_from_slice(&SCHEMA_HASH.to_le_bytes());
    blob.extend_from_slice(&0u64.to_le_bytes());
    assert!(matches!(
        read_header(&blob),
        Err(HeaderError::BadMagic { .. })
    ));
}

#[test]
fn header_rejects_bad_version() {
    let mut blob = Vec::new();
    blob.extend_from_slice(&MAGIC);
    blob.push(RESERVED);
    blob.extend_from_slice(&999u32.to_le_bytes());
    blob.extend_from_slice(&SCHEMA_HASH.to_le_bytes());
    blob.extend_from_slice(&0u64.to_le_bytes());
    match read_header(&blob) {
        Err(HeaderError::BadVersion { expected, got }) => {
            assert_eq!(expected, FORMAT_VERSION);
            assert_eq!(got, 999);
        }
        other => panic!("expected BadVersion, got {other:?}"),
    }
}

#[test]
fn header_rejects_bad_schema_hash() {
    let mut blob = Vec::new();
    blob.extend_from_slice(&MAGIC);
    blob.push(RESERVED);
    blob.extend_from_slice(&FORMAT_VERSION.to_le_bytes());
    blob.extend_from_slice(&0xdead_beefu32.to_le_bytes());
    blob.extend_from_slice(&0u64.to_le_bytes());
    assert!(matches!(
        read_header(&blob),
        Err(HeaderError::BadSchemaHash { .. })
    ));
}

#[test]
fn header_rejects_payload_length_mismatch() {
    let mut blob = Vec::new();
    write_header(&mut blob, 100);
    // Only 5 bytes of payload provided.
    blob.extend_from_slice(&[0u8; 5]);
    assert!(matches!(
        read_header(&blob),
        Err(HeaderError::BadPayloadLength { .. })
    ));
}

#[test]
fn schema_hash_is_stable_for_unchanged_input() {
    assert_ne!(SCHEMA_HASH, 0);
}

#[test]
fn schema_hash_is_fnv1a_of_the_fingerprint() {
    assert_eq!(schema_hash(), SCHEMA_HASH);
}

#[test]
fn header_layout_is_exact() {
    let mut blob = vec![0xAAu8];
    write_header(&mut blob, 0x0102_0304_0506_0708);
    assert_eq!(blob.len(), 1 + HEADER_LEN);
    assert_eq!(&blob[1..6], b"PUREM");
    assert_eq!(blob[6], 0);
    assert_eq!(&blob[7..11], &[1, 0, 0, 0]);
    assert_eq!(&blob[11..15], &SCHEMA_HASH.to_le_bytes());
    assert_eq!(&blob[15..23], &[8, 7, 6, 5, 4, 3, 2, 1]);
}

#[test]
fn header_error_diagnostics() {
    assert_eq!(
        read_header(&[1u8, 2, 3]),
        Err(HeaderError::TooShort { expected: 22, got: 3 })
    );
    let mut blob = vec![b'P', b'U', b'R', b'E', b'X', 0];
    blob.extend_from_slice(&[0u8; 16]);
    assert_eq!(
        read_header(&blob),
        Err(HeaderError::BadMagic { got: [b'P', b'U', b'R', b'E', b'X'] })
    );
    let mut blob = Vec::new();
    write_header(&mut blob, 3);
    blob.extend_from_slice(&[9u8; 4]);
    assert_eq!(
        read_header(&blob),
        Err(HeaderError::BadPayloadLength { expected: 3, got: 4 })
    );
}

#[test]
fn header_returns_exact_payload_and_ignores_reserved_byte() {
    let mut blob = Vec::new();
    write_header(&mut blob, 3);
    blob[5] = 42;
    blob.extend_from_slice(&[7u8, 8, 9]);
    assert_eq!(read_header(&blob), Ok(&[7u8, 8, 9][..]));
}
