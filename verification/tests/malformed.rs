//! Rejection of malformed, truncated and mismatching inputs.

use criware_utf::kinds::{ColumnStorageFormat, ColumnStorageType, ValueKind};
use criware_utf::prim::Primitive;
use criware_utf::table::{ColumnSpec, Table, TableSpec};
use criware_utf::writer::WriteContext;
use criware_utf::{EofAt, Error, Reader, Schema};

fn push_be32(out: &mut Vec<u8>, x: u32) {
    out.extend_from_slice(&x.to_be_bytes());
}

fn push_be16(out: &mut Vec<u8>, x: u16) {
    out.extend_from_slice(&x.to_be_bytes());
}

/// A raw table buffer with the given header fields, zero-filled to
/// `8 + table_size` bytes past the 32-byte headers.
fn raw_table(
    table_size: u32,
    row_offset: u32,
    string_offset: u32,
    blob_offset: u32,
    table_name: u32,
    field_count: u16,
    row_size: u16,
    row_count: u32,
) -> Vec<u8> {
    let mut out = Vec::new();
    out.extend_from_slice(b"@UTF");
    push_be32(&mut out, table_size);
    push_be32(&mut out, row_offset);
    push_be32(&mut out, string_offset);
    push_be32(&mut out, blob_offset);
    push_be32(&mut out, table_name);
    push_be16(&mut out, field_count);
    push_be16(&mut out, row_size);
    push_be32(&mut out, row_count);
    while out.len() < 8 + table_size as usize {
        out.push(0);
    }
    out
}

#[test]
fn row_offset_past_string_offset_is_malformed() {
    let buf = raw_table(64, 32, 24, 40, 0, 0, 0, 0);
    assert_eq!(Reader::new(buf.as_slice()).unwrap_err(), Error::MalformedHeader);
}

#[test]
fn string_offset_past_blob_offset_is_malformed() {
    let buf = raw_table(64, 24, 40, 32, 0, 0, 0, 16);
    assert_eq!(Reader::new(buf.as_slice()).unwrap_err(), Error::MalformedHeader);
}

#[test]
fn blob_offset_past_table_size_is_malformed() {
    let buf = raw_table(40, 24, 24, 48, 0, 0, 0, 0);
    assert_eq!(Reader::new(buf.as_slice()).unwrap_err(), Error::MalformedHeader);
}

#[test]
fn row_area_size_mismatch_is_malformed() {
    // string_offset - row_offset is 8 but row_size * row_count is 0.
    let buf = raw_table(40, 24, 32, 32, 0, 0, 0, 0);
    assert_eq!(Reader::new(buf.as_slice()).unwrap_err(), Error::MalformedHeader);
}

#[test]
fn wrong_magic_is_malformed() {
    let mut buf = raw_table(24, 24, 24, 24, 0, 0, 0, 0);
    buf[0] = b'!';
    assert_eq!(Reader::new(buf.as_slice()).unwrap_err(), Error::MalformedHeader);
}

#[test]
fn truncated_inputs_report_where_they_ended() {
    assert_eq!(Reader::new(&[]).unwrap_err(), Error::EOF(EofAt::Header));
    assert_eq!(Reader::new(b"@UTF").unwrap_err(), Error::EOF(EofAt::Header));
    // Table size below the secondary header's own 24 bytes.
    let mut small = Vec::new();
    small.extend_from_slice(b"@UTF");
    push_be32(&mut small, 8);
    assert_eq!(Reader::new(small.as_slice()).unwrap_err(), Error::EOF(EofAt::Header));
    // A sound header whose column region is missing.
    let full = raw_table(40, 32, 32, 32, 0, 0, 0, 0);
    let cut = &full[0..32];
    assert_eq!(Reader::new(cut).unwrap_err(), Error::EOF(EofAt::ColumnData));
}

#[test]
fn unresolved_table_name_is_malformed() {
    // A two-byte string pool holding "A\0"; the name reference points
    // past every entry.
    let mut buf = raw_table(26, 24, 24, 26, 5, 0, 0, 0);
    buf[32] = b'A';
    buf[33] = 0;
    assert_eq!(Reader::new(buf.as_slice()).unwrap_err(), Error::MalformedHeader);
}

#[test]
fn invalid_utf8_in_string_pool_is_rejected() {
    let mut buf = raw_table(26, 24, 24, 26, 0, 0, 0, 0);
    buf[32] = 0xFF;
    buf[33] = 0;
    assert_eq!(Reader::new(buf.as_slice()).unwrap_err(), Error::StringMalformed);
}

fn one_column_spec(name: &[u8], kind: ValueKind) -> TableSpec {
    TableSpec {
        name: b"T".to_vec(),
        columns: vec![ColumnSpec {
            name: name.to_vec(),
            kind,
            storage: ColumnStorageType::Constant,
            optional: None,
        }],
    }
}

fn blob_table_bytes() -> Vec<u8> {
    let spec = one_column_spec(b"Data", ValueKind::BLOB);
    let table = Table {
        constants: vec![Some(Primitive::BLOB(vec![1, 2, 3, 4]))],
        rows: vec![],
        context: WriteContext::new(),
    };
    table.write(&spec).unwrap()
}

#[test]
fn blob_range_past_pool_end_is_data_not_found() {
    // The column region starts at byte 32: one flag byte, a 4-byte name
    // reference, then the blob's packed (offset, length) pair. Forging
    // the length to run past the pool must be rejected, never decoded.
    let mut bytes = blob_table_bytes();
    bytes[41] = 0xFF;
    bytes[42] = 0xFF;
    bytes[43] = 0xFF;
    bytes[44] = 0xFF;
    let spec = one_column_spec(b"Data", ValueKind::BLOB);
    assert_eq!(Table::read(&spec, bytes.as_slice()).unwrap_err(), Error::DataNotFound);
}

#[test]
fn string_offset_off_pool_boundary_is_data_not_found() {
    let spec = one_column_spec(b"Name", ValueKind::STR);
    let table = Table {
        constants: vec![Some(Primitive::STR(b"x".to_vec()))],
        rows: vec![],
        context: WriteContext::new(),
    };
    let mut bytes = table.write(&spec).unwrap();
    // The constant's 4-byte string reference follows the flag byte and
    // the name reference.
    bytes[37] = 0xFF;
    bytes[38] = 0xFF;
    bytes[39] = 0xFF;
    bytes[40] = 0xFF;
    assert_eq!(Table::read(&spec, bytes.as_slice()).unwrap_err(), Error::DataNotFound);
}

#[test]
fn mismatched_column_name_is_reported_with_both_names() {
    let spec = one_column_spec(b"Actual", ValueKind::U32);
    let table = Table {
        constants: vec![Some(Primitive::U32(5))],
        rows: vec![],
        context: WriteContext::new(),
    };
    let bytes = table.write(&spec).unwrap();
    let expecting = one_column_spec(b"Expected", ValueKind::U32);
    assert_eq!(
        Table::read(&expecting, bytes.as_slice()).unwrap_err(),
        Error::WrongColumnName(b"Actual".to_vec(), b"Expected".to_vec())
    );
}

#[test]
fn mismatched_column_kind_is_wrong_column_type() {
    let spec = one_column_spec(b"A", ValueKind::U32);
    let table = Table {
        constants: vec![Some(Primitive::U32(5))],
        rows: vec![],
        context: WriteContext::new(),
    };
    let bytes = table.write(&spec).unwrap();
    let expecting = one_column_spec(b"A", ValueKind::U64);
    assert_eq!(
        Table::read(&expecting, bytes.as_slice()).unwrap_err(),
        Error::WrongColumnType(4, 6)
    );
}

#[test]
fn mismatched_storage_is_wrong_column_storage() {
    let spec = one_column_spec(b"A", ValueKind::U32);
    let table = Table {
        constants: vec![Some(Primitive::U32(5))],
        rows: vec![],
        context: WriteContext::new(),
    };
    let bytes = table.write(&spec).unwrap();
    let expecting = TableSpec {
        name: b"T".to_vec(),
        columns: vec![ColumnSpec {
            name: b"A".to_vec(),
            kind: ValueKind::U32,
            storage: ColumnStorageType::Rowed,
            optional: None,
        }],
    };
    assert_eq!(
        Table::read(&expecting, bytes.as_slice()).unwrap_err(),
        Error::WrongColumnStorage(0x30, 0x50)
    );
}

#[test]
fn wrong_table_name_is_wrong_table_schema() {
    let spec = one_column_spec(b"A", ValueKind::U8);
    let table = Table {
        constants: vec![Some(Primitive::U8(1))],
        rows: vec![],
        context: WriteContext::new(),
    };
    let bytes = table.write(&spec).unwrap();
    let mut other = one_column_spec(b"A", ValueKind::U8);
    other.name = b"Other".to_vec();
    assert_eq!(
        Table::read(&other, bytes.as_slice()).unwrap_err(),
        Error::WrongTableSchema
    );
    // A different field count is the same mismatch.
    let mut extra = one_column_spec(b"A", ValueKind::U8);
    extra.columns.push(ColumnSpec {
        name: b"B".to_vec(),
        kind: ValueKind::U8,
        storage: ColumnStorageType::Constant,
        optional: None,
    });
    assert_eq!(
        Table::read(&extra, bytes.as_slice()).unwrap_err(),
        Error::WrongTableSchema
    );
}

#[test]
fn invalid_type_nibble_is_invalid_column_type() {
    let spec = one_column_spec(b"A", ValueKind::U8);
    let table = Table {
        constants: vec![Some(Primitive::U8(1))],
        rows: vec![],
        context: WriteContext::new(),
    };
    let mut bytes = table.write(&spec).unwrap();
    // The flag byte of the first column sits at offset 32.
    bytes[32] = 0x39;
    assert_eq!(
        Table::read(&spec, bytes.as_slice()).unwrap_err(),
        Error::InvalidColumnType(9)
    );
    assert_eq!(Schema::read(bytes.as_slice()).unwrap_err(), Error::InvalidColumnType(9));
}

#[test]
fn invalid_storage_nibble_is_invalid_column_storage() {
    let spec = one_column_spec(b"A", ValueKind::U8);
    let table = Table {
        constants: vec![Some(Primitive::U8(1))],
        rows: vec![],
        context: WriteContext::new(),
    };
    let mut bytes = table.write(&spec).unwrap();
    bytes[32] = 0x70;
    assert_eq!(
        Table::read(&spec, bytes.as_slice()).unwrap_err(),
        Error::InvalidColumnStorage(0x70)
    );
    assert_eq!(
        Schema::read(bytes.as_slice()).unwrap_err(),
        Error::InvalidColumnStorage(0x70)
    );
}

#[test]
fn schema_read_lists_columns_without_row_data() {
    let spec = TableSpec {
        name: b"Catalog".to_vec(),
        columns: vec![
            ColumnSpec {
                name: b"Comment".to_vec(),
                kind: ValueKind::STR,
                storage: ColumnStorageType::Constant,
                optional: None,
            },
            ColumnSpec {
                name: b"Id".to_vec(),
                kind: ValueKind::U32,
                storage: ColumnStorageType::Rowed,
                optional: None,
            },
            ColumnSpec {
                name: b"Extra".to_vec(),
                kind: ValueKind::I64,
                storage: ColumnStorageType::Rowed,
                optional: Some(true),
            },
        ],
    };
    let table = Table {
        constants: vec![Some(Primitive::STR(b"note".to_vec())), None, None],
        rows: vec![vec![None, Some(Primitive::U32(4)), None]],
        context: WriteContext::new(),
    };
    let bytes = table.write(&spec).unwrap();
    let schema = Schema::read(bytes.as_slice()).unwrap();
    assert_eq!(schema.table_name, b"Catalog".to_vec());
    assert_eq!(schema.columns.len(), 3);
    assert_eq!(schema.columns[0].name, b"Comment".to_vec());
    assert_eq!(schema.columns[0].storage_format, ColumnStorageFormat::Constant);
    assert_eq!(schema.columns[0].value_kind, ValueKind::STR);
    assert_eq!(schema.columns[1].name, b"Id".to_vec());
    assert_eq!(schema.columns[1].storage_format, ColumnStorageFormat::Rowed);
    assert_eq!(schema.columns[1].value_kind, ValueKind::U32);
    // The optional column had no value in its row, so it was stored as
    // a zero column.
    assert_eq!(schema.columns[2].storage_format, ColumnStorageFormat::Zero);
    assert!(schema.has_column(b"Id"));
    assert!(!schema.has_column(b"Missing"));
}

#[test]
fn error_messages_are_stable() {
    assert_eq!(Error::MalformedHeader.message(), "malformed header");
    assert_eq!(Error::DataNotFound.message(), "string/blob not found");
    assert_eq!(Error::BlobWrongSize.message(), "wrong size");
    assert_eq!(Error::WrongTableSchema.message(), "wrong table schema");
}

#[test]
fn truncation_in_each_region_is_distinguished() {
    // A header declaring one byte per region: rows 24..25, strings
    // 25..26, blobs 26..27, with the row area equation 1 * 1 == 1.
    let full = raw_table(27, 24, 25, 26, 0, 0, 1, 1);
    assert_eq!(
        Reader::new(&full[0..32]).unwrap_err(),
        Error::EOF(EofAt::RowData)
    );
    assert_eq!(
        Reader::new(&full[0..33]).unwrap_err(),
        Error::EOF(EofAt::StringData)
    );
    assert_eq!(
        Reader::new(&full[0..34]).unwrap_err(),
        Error::EOF(EofAt::BlobData)
    );
}
