//! Whole-table encode/decode round trips and the write-side checks.

use criware_utf::kinds::{ColumnStorageType, ValueKind};
use criware_utf::prim::Primitive;
use criware_utf::table::{ColumnSpec, Table, TableSpec};
use criware_utf::writer::WriteContext;
use criware_utf::utf_size_of;
use criware_utf::Error;

fn col(name: &[u8], kind: ValueKind, storage: ColumnStorageType) -> ColumnSpec {
    ColumnSpec { name: name.to_vec(), kind, storage, optional: None }
}

fn opt_col(
    name: &[u8],
    kind: ValueKind,
    storage: ColumnStorageType,
    included: bool,
) -> ColumnSpec {
    ColumnSpec { name: name.to_vec(), kind, storage, optional: Some(included) }
}

fn demo_spec() -> TableSpec {
    TableSpec {
        name: b"Demo".to_vec(),
        columns: vec![
            col(b"Comment", ValueKind::STR, ColumnStorageType::Constant),
            col(b"Id", ValueKind::U32, ColumnStorageType::Rowed),
        ],
    }
}

fn demo_table() -> Table {
    Table {
        constants: vec![Some(Primitive::STR(b"hi".to_vec())), None],
        rows: vec![
            vec![None, Some(Primitive::U32(1))],
            vec![None, Some(Primitive::U32(2))],
            vec![None, Some(Primitive::U32(3))],
        ],
        context: WriteContext::new(),
    }
}

fn be16(buf: &[u8], i: usize) -> u16 {
    ((buf[i] as u16) << 8) | (buf[i + 1] as u16)
}

fn be32(buf: &[u8], i: usize) -> u32 {
    ((buf[i] as u32) << 24) | ((buf[i + 1] as u32) << 16) | ((buf[i + 2] as u32) << 8)
        | (buf[i + 3] as u32)
}

#[test]
fn demo_table_serializes_with_expected_geometry() {
    let spec = demo_spec();
    let bytes = demo_table().write(&spec).unwrap();
    assert_eq!(&bytes[0..4], b"@UTF");
    // Secondary header starts at offset 8: row_size at +18, row_count at +20.
    assert_eq!(be16(&bytes, 8 + 18), 4);
    assert_eq!(be32(&bytes, 8 + 20), 3);
    // Field count.
    assert_eq!(be16(&bytes, 8 + 16), 2);
    // Table name reference is fixed at 7, after "<NULL>\0".
    assert_eq!(be32(&bytes, 8 + 12), 7);
}

#[test]
fn demo_table_round_trips() {
    let spec = demo_spec();
    let bytes = demo_table().write(&spec).unwrap();
    let back = Table::read(&spec, bytes.as_slice()).unwrap();
    assert_eq!(back.constants[0], Some(Primitive::STR(b"hi".to_vec())));
    assert_eq!(back.constants[1], None);
    assert_eq!(back.rows.len(), 3);
    for (k, expected) in [1u32, 2, 3].iter().enumerate() {
        assert_eq!(back.rows[k][0], None);
        assert_eq!(back.rows[k][1], Some(Primitive::U32(*expected)));
    }
}

fn all_kinds_spec() -> TableSpec {
    TableSpec {
        name: b"Everything".to_vec(),
        columns: vec![
            col(b"CU8", ValueKind::U8, ColumnStorageType::Constant),
            col(b"CI8", ValueKind::I8, ColumnStorageType::Constant),
            col(b"CU16", ValueKind::U16, ColumnStorageType::Constant),
            col(b"CI16", ValueKind::I16, ColumnStorageType::Constant),
            col(b"CU32", ValueKind::U32, ColumnStorageType::Constant),
            col(b"CI32", ValueKind::I32, ColumnStorageType::Constant),
            col(b"CU64", ValueKind::U64, ColumnStorageType::Constant),
            col(b"CI64", ValueKind::I64, ColumnStorageType::Constant),
            col(b"CF32", ValueKind::F32, ColumnStorageType::Constant),
            col(b"CStr", ValueKind::STR, ColumnStorageType::Constant),
            col(b"CBlob", ValueKind::BLOB, ColumnStorageType::Constant),
            opt_col(b"CMissing", ValueKind::U32, ColumnStorageType::Constant, false),
            col(b"RId", ValueKind::I64, ColumnStorageType::Rowed),
            col(b"RName", ValueKind::STR, ColumnStorageType::Rowed),
            col(b"RData", ValueKind::BLOB, ColumnStorageType::Rowed),
            opt_col(b"RPresent", ValueKind::U16, ColumnStorageType::Rowed, true),
            opt_col(b"RAbsent", ValueKind::U8, ColumnStorageType::Rowed, true),
        ],
    }
}

fn all_kinds_table() -> Table {
    let mut constants: Vec<Option<Primitive>> = vec![
        Some(Primitive::U8(200)),
        Some(Primitive::I8(-3)),
        Some(Primitive::U16(40000)),
        Some(Primitive::I16(-12345)),
        Some(Primitive::U32(3_000_000_000)),
        Some(Primitive::I32(-77)),
        Some(Primitive::U64(0x0102_0304_0506_0708)),
        Some(Primitive::I64(-1)),
        Some(Primitive::F32(0x3F80_0000)),
        Some(Primitive::STR(b"shared".to_vec())),
        Some(Primitive::BLOB(vec![9, 8, 7])),
        None,
    ];
    for _ in 0..5 {
        constants.push(None);
    }
    let row = |id: i64, name: &[u8], data: &[u8], p: u16| -> Vec<Option<Primitive>> {
        let mut r: Vec<Option<Primitive>> = vec![None; 12];
        r.push(Some(Primitive::I64(id)));
        r.push(Some(Primitive::STR(name.to_vec())));
        r.push(Some(Primitive::BLOB(data.to_vec())));
        r.push(Some(Primitive::U16(p)));
        r.push(None);
        r
    };
    Table {
        constants,
        rows: vec![
            row(-10, b"alpha", b"\x01\x02", 1),
            row(20, b"shared", b"", 2),
            row(30, b"alpha", b"\x03", 3),
        ],
        context: WriteContext::new(),
    }
}

#[test]
fn every_kind_round_trips() {
    let spec = all_kinds_spec();
    let table = all_kinds_table();
    let bytes = table.write(&spec).unwrap();
    let back = Table::read(&spec, bytes.as_slice()).unwrap();
    assert_eq!(back.constants, table.constants);
    assert_eq!(back.rows, table.rows);
    // The read-back context records how the optional rowed columns were
    // stored.
    assert!(back.context.is_included(b"RPresent"));
    assert!(!back.context.is_included(b"RAbsent"));
}

#[test]
fn string_deduplication_reuses_offsets() {
    // Two columns share the value "shared"; the table with a repeated
    // string must not be longer than one with distinct strings of the
    // same total length would require.
    let spec = TableSpec {
        name: b"T".to_vec(),
        columns: vec![
            col(b"A", ValueKind::STR, ColumnStorageType::Constant),
            col(b"B", ValueKind::STR, ColumnStorageType::Constant),
        ],
    };
    let dup = Table {
        constants: vec![
            Some(Primitive::STR(b"shared".to_vec())),
            Some(Primitive::STR(b"shared".to_vec())),
        ],
        rows: vec![],
        context: WriteContext::new(),
    };
    let distinct = Table {
        constants: vec![
            Some(Primitive::STR(b"shareX".to_vec())),
            Some(Primitive::STR(b"shareY".to_vec())),
        ],
        rows: vec![],
        context: WriteContext::new(),
    };
    let dup_bytes = dup.write(&spec).unwrap();
    let distinct_bytes = distinct.write(&spec).unwrap();
    assert!(dup_bytes.len() < distinct_bytes.len());
    let back = Table::read(&spec, dup_bytes.as_slice()).unwrap();
    assert_eq!(back.constants, dup.constants);
}

#[test]
fn empty_table_round_trips() {
    let spec = TableSpec { name: b"Empty".to_vec(), columns: vec![] };
    let table = Table::new(&spec);
    let bytes = table.write(&spec).unwrap();
    let back = Table::read(&spec, bytes.as_slice()).unwrap();
    assert_eq!(back.constants.len(), 0);
    assert_eq!(back.rows.len(), 0);
}

#[test]
fn fresh_table_has_default_values() {
    let spec = demo_spec();
    let table = Table::new(&spec);
    assert_eq!(table.constants[0], Some(Primitive::STR(Vec::new())));
    assert_eq!(table.constants[1], None);
    assert_eq!(table.rows.len(), 0);
}

#[test]
fn mixed_optional_rows_fail_with_conflict() {
    let spec = TableSpec {
        name: b"T".to_vec(),
        columns: vec![opt_col(b"Opt", ValueKind::U8, ColumnStorageType::Rowed, true)],
    };
    let table = Table {
        constants: vec![None],
        rows: vec![vec![Some(Primitive::U8(1))], vec![None]],
        context: WriteContext::new(),
    };
    let err = table.write(&spec).unwrap_err();
    assert_eq!(err, Error::OptionalColumnConflict(b"Opt".to_vec()));
}

#[test]
fn excluded_optional_column_keeps_absent_rows() {
    let spec = TableSpec {
        name: b"T".to_vec(),
        columns: vec![
            col(b"Id", ValueKind::U8, ColumnStorageType::Rowed),
            opt_col(b"Opt", ValueKind::U32, ColumnStorageType::Rowed, true),
        ],
    };
    let table = Table {
        constants: vec![None, None],
        rows: vec![
            vec![Some(Primitive::U8(1)), None],
            vec![Some(Primitive::U8(2)), None],
        ],
        context: WriteContext::new(),
    };
    let bytes = table.write(&spec).unwrap();
    let back = Table::read(&spec, bytes.as_slice()).unwrap();
    assert_eq!(back.rows, table.rows);
    assert!(!back.context.is_included(b"Opt"));
}

#[test]
fn empty_rows_use_write_context_for_storage_choice() {
    let spec = TableSpec {
        name: b"T".to_vec(),
        columns: vec![opt_col(b"Opt", ValueKind::U32, ColumnStorageType::Rowed, true)],
    };
    let mut context = WriteContext::new();
    context.set_inclusion_state(b"Opt".to_vec(), false);
    let excluded = Table { constants: vec![None], rows: vec![], context };
    let bytes = excluded.write(&spec).unwrap();
    let back = Table::read(&spec, bytes.as_slice()).unwrap();
    assert!(!back.context.is_included(b"Opt"));

    let included = Table {
        constants: vec![None],
        rows: vec![],
        context: WriteContext::new(),
    };
    let bytes2 = included.write(&spec).unwrap();
    let back2 = Table::read(&spec, bytes2.as_slice()).unwrap();
    assert!(back2.context.is_included(b"Opt"));
    assert_ne!(bytes, bytes2);
}

#[test]
fn wrong_kind_value_fails_conversion() {
    let spec = TableSpec {
        name: b"T".to_vec(),
        columns: vec![col(b"A", ValueKind::U8, ColumnStorageType::Constant)],
    };
    let table = Table {
        constants: vec![Some(Primitive::U16(7))],
        rows: vec![],
        context: WriteContext::new(),
    };
    let err = table.write(&spec).unwrap_err();
    assert_eq!(err, Error::ValueConversion(ValueKind::U16, ValueKind::U8));
}

#[test]
fn blob_sized_checks_length_and_kind() {
    let blob = Primitive::BLOB(vec![1, 2, 3]);
    assert_eq!(blob.blob_sized(3).unwrap(), vec![1, 2, 3]);
    assert_eq!(blob.blob_sized(4).unwrap_err(), Error::BlobWrongSize);
    let number = Primitive::U8(1);
    assert_eq!(
        number.blob_sized(1).unwrap_err(),
        Error::ValueConversion(ValueKind::U8, ValueKind::BLOB)
    );
}

#[test]
fn utf_sizes_match_the_format() {
    assert_eq!(utf_size_of(ValueKind::U8), 1);
    assert_eq!(utf_size_of(ValueKind::I8), 1);
    assert_eq!(utf_size_of(ValueKind::U16), 2);
    assert_eq!(utf_size_of(ValueKind::I16), 2);
    assert_eq!(utf_size_of(ValueKind::U32), 4);
    assert_eq!(utf_size_of(ValueKind::I32), 4);
    assert_eq!(utf_size_of(ValueKind::U64), 8);
    assert_eq!(utf_size_of(ValueKind::I64), 8);
    assert_eq!(utf_size_of(ValueKind::F32), 4);
    assert_eq!(utf_size_of(ValueKind::STR), 4);
    assert_eq!(utf_size_of(ValueKind::BLOB), 8);
}

#[test]
fn value_tags_round_trip() {
    for kind in [
        ValueKind::U8,
        ValueKind::I8,
        ValueKind::U16,
        ValueKind::I16,
        ValueKind::U32,
        ValueKind::I32,
        ValueKind::U64,
        ValueKind::I64,
        ValueKind::F32,
        ValueKind::STR,
        ValueKind::BLOB,
    ] {
        assert_eq!(ValueKind::of_tag(kind.tag()), Some(kind));
    }
    assert_eq!(ValueKind::of_tag(9), None);
    assert_eq!(ValueKind::of_tag(0x0C), None);
    assert_eq!(ValueKind::of_tag(0x0F), None);
}

#[test]
fn rows_without_storage_are_lost_on_round_trip() {
    // A table whose only rowed column is excluded stores zero bytes per
    // row. The row count survives in the header, but the row region is
    // empty, so a read finds no rows to reconstruct: this is the one
    // shape the round trip cannot carry.
    let spec = TableSpec {
        name: b"T".to_vec(),
        columns: vec![opt_col(b"Opt", ValueKind::U32, ColumnStorageType::Rowed, true)],
    };
    let table = Table {
        constants: vec![None],
        rows: vec![vec![None], vec![None]],
        context: WriteContext::new(),
    };
    let bytes = table.write(&spec).unwrap();
    // Row count 2, row size 0.
    assert_eq!(be16(&bytes, 8 + 18), 0);
    assert_eq!(be32(&bytes, 8 + 20), 2);
    let back = Table::read(&spec, bytes.as_slice()).unwrap();
    assert_eq!(back.rows.len(), 0);
}
