//! The packet envelope: plaintext and encrypted round trips, and the
//! envelope's own error conditions.

use criware_utf::kinds::{ColumnStorageType, ValueKind};
use criware_utf::prim::Primitive;
use criware_utf::table::{ColumnSpec, Table, TableSpec};
use criware_utf::writer::WriteContext;
use criware_utf::{EofAt, Error, Packet};

fn demo_spec() -> TableSpec {
    TableSpec {
        name: b"Demo".to_vec(),
        columns: vec![
            ColumnSpec {
                name: b"Comment".to_vec(),
                kind: ValueKind::STR,
                storage: ColumnStorageType::Constant,
                optional: None,
            },
            ColumnSpec {
                name: b"Id".to_vec(),
                kind: ValueKind::U32,
                storage: ColumnStorageType::Rowed,
                optional: None,
            },
        ],
    }
}

fn demo_table() -> Table {
    Table {
        constants: vec![Some(Primitive::STR(b"hi".to_vec())), None],
        rows: vec![
            vec![None, Some(Primitive::U32(1))],
            vec![None, Some(Primitive::U32(2))],
            vec![None, Some(Primitive::U32(3))],
        ],
        context: WriteContext::new(),
    }
}

#[test]
fn plaintext_packet_round_trips() {
    let spec = demo_spec();
    let packet = Packet::from_table(demo_table(), b"TAB ");
    let bytes = packet.write_packet(&spec).unwrap();
    assert_eq!(&bytes[0..4], b"TAB ");
    // The payload opens with the table magic: stored in the clear.
    assert_eq!(&bytes[16..20], b"@UTF");
    let back = Packet::read_packet(&spec, bytes.as_slice(), b"TAB ").unwrap();
    assert!(!back.is_encrypted());
    assert_eq!(back.table.constants, demo_table().constants);
    assert_eq!(back.table.rows, demo_table().rows);
}

#[test]
fn encrypted_packet_decodes_to_the_same_table() {
    let spec = demo_spec();
    let plain = Packet::from_table(demo_table(), b"TAB ");
    let plain_bytes = plain.write_packet(&spec).unwrap();

    let mut masked = Packet::from_table(demo_table(), b"TAB ");
    masked.enable_encryption();
    assert!(masked.is_encrypted());
    let masked_bytes = masked.write_packet(&spec).unwrap();

    // Same envelope header, different payload bytes.
    assert_eq!(&plain_bytes[0..16], &masked_bytes[0..16]);
    assert_ne!(plain_bytes, masked_bytes);
    assert_ne!(&masked_bytes[16..20], b"@UTF");

    let from_plain = Packet::read_packet(&spec, plain_bytes.as_slice(), b"TAB ").unwrap();
    let from_masked = Packet::read_packet(&spec, masked_bytes.as_slice(), b"TAB ").unwrap();
    assert!(!from_plain.is_encrypted());
    assert!(from_masked.is_encrypted());
    assert_eq!(from_plain.table.constants, from_masked.table.constants);
    assert_eq!(from_plain.table.rows, from_masked.table.rows);
}

#[test]
fn encryption_toggle_round_trips_through_disable() {
    let spec = demo_spec();
    let mut packet = Packet::from_table(demo_table(), b"TAB ");
    packet.enable_encryption();
    packet.disable_encryption();
    assert!(!packet.is_encrypted());
    let bytes = packet.write_packet(&spec).unwrap();
    assert_eq!(&bytes[16..20], b"@UTF");
}

#[test]
fn wrong_prefix_is_wrong_table_schema() {
    let spec = demo_spec();
    let bytes = Packet::from_table(demo_table(), b"TAB ").write_packet(&spec).unwrap();
    assert_eq!(
        Packet::read_packet(&spec, bytes.as_slice(), b"CPK ").unwrap_err(),
        Error::WrongTableSchema
    );
}

#[test]
fn short_envelope_is_eof() {
    let spec = demo_spec();
    assert_eq!(
        Packet::read_packet(&spec, &[1, 2, 3], b"TAB ").unwrap_err(),
        Error::EOF(EofAt::PacketHeader)
    );
}

#[test]
fn tiny_payload_length_is_malformed() {
    let spec = demo_spec();
    let mut bytes = Vec::new();
    bytes.extend_from_slice(b"TAB ");
    bytes.extend_from_slice(&[0, 0, 0, 0]);
    bytes.extend_from_slice(&16u64.to_le_bytes());
    bytes.extend_from_slice(&[0u8; 16]);
    assert_eq!(
        Packet::read_packet(&spec, bytes.as_slice(), b"TAB ").unwrap_err(),
        Error::MalformedHeader
    );
}

#[test]
fn truncated_payload_is_eof() {
    let spec = demo_spec();
    let full = Packet::from_table(demo_table(), b"TAB ").write_packet(&spec).unwrap();
    let cut = &full[0..full.len() - 1];
    assert_eq!(
        Packet::read_packet(&spec, cut, b"TAB ").unwrap_err(),
        Error::EOF(EofAt::PacketPayload)
    );
}

#[test]
fn unrecognizable_payload_is_a_decryption_error() {
    let spec = demo_spec();
    let mut bytes = Vec::new();
    bytes.extend_from_slice(b"TAB ");
    bytes.extend_from_slice(&[7, 0, 0, 0]);
    bytes.extend_from_slice(&40u64.to_le_bytes());
    bytes.extend_from_slice(&[0xAAu8; 40]);
    assert_eq!(
        Packet::read_packet(&spec, bytes.as_slice(), b"TAB ").unwrap_err(),
        Error::DecryptionError
    );
}

#[test]
fn reserved_value_is_preserved_verbatim() {
    let spec = demo_spec();
    let packet = Packet::from_table(demo_table(), b"TAB ");
    let mut bytes = packet.write_packet(&spec).unwrap();
    // Forge a nonzero reserved field; the read must carry it through a
    // rewrite unchanged.
    bytes[4] = 0x12;
    bytes[5] = 0x34;
    let back = Packet::read_packet(&spec, bytes.as_slice(), b"TAB ").unwrap();
    let rewritten = back.write_packet(&spec).unwrap();
    assert_eq!(&rewritten[4..8], &[0x12, 0x34, 0, 0]);
}

#[test]
fn fresh_packet_wraps_a_default_table() {
    let spec = demo_spec();
    let packet = Packet::new(&spec, b"TAB ");
    assert!(!packet.is_encrypted());
    let bytes = packet.write_packet(&spec).unwrap();
    let back = Packet::read_packet(&spec, bytes.as_slice(), b"TAB ").unwrap();
    assert_eq!(back.table.constants[0], Some(Primitive::STR(Vec::new())));
    assert_eq!(back.table.rows.len(), 0);
}
