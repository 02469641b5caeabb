//! The closed set of primitive value kinds and column storage forms, with
//! their on-disk tag nibbles and fixed buffer widths.
//!
//! A column descriptor starts with one flag byte
//! `(storage_tag << 4) | value_tag`. Only the storage tags `0x1` (zero),
//! `0x3` (constant) and `0x5` (rowed) and the eleven value tags `0..=8`,
//! `0xa`, `0xb` are valid; every other nibble is a distinct malformed-input
//! condition.

use vstd::prelude::*;

verus! {

/// The eleven primitive kinds a table can store.
///
/// `F32` values are carried as their raw 4-byte big-endian bit pattern;
/// the codec never interprets them as floating point.
#[derive(Debug, Clone, Copy, PartialEq, Eq, Structural)]
pub enum ValueKind {
    U8,
    I8,
    U16,
    I16,
    U32,
    I32,
    U64,
    I64,
    F32,
    STR,
    BLOB,
}

/// The three ways a column can store data on disk.
#[derive(Debug, Clone, Copy, PartialEq, Eq, Structural)]
pub enum ColumnStorageFormat {
    /// The column is declared but holds no data.
    Zero,
    /// One value for the whole table, stored in the column region.
    Constant,
    /// One value per row, stored in the row region.
    Rowed,
}

/// The storage form a column is declared with in a table description.
///
/// An optional column declared `Rowed` or `Constant` may still be written
/// as `Zero` when its values are absent.
#[derive(Debug, Clone, Copy, PartialEq, Eq, Structural)]
pub enum ColumnStorageType {
    Constant,
    Rowed,
}

/// The on-disk tag nibble of a value kind: `0..=8` for the numeric kinds,
/// `0xa` for strings, `0xb` for blobs (`9` and `0xc..=0xf` are invalid).
pub open spec fn spec_value_tag(kind: ValueKind) -> u8 {
    match kind {
        ValueKind::U8 => 0,
        ValueKind::I8 => 1,
        ValueKind::U16 => 2,
        ValueKind::I16 => 3,
        ValueKind::U32 => 4,
        ValueKind::I32 => 5,
        ValueKind::U64 => 6,
        ValueKind::I64 => 7,
        ValueKind::F32 => 8,
        ValueKind::STR => 0xa,
        ValueKind::BLOB => 0xb,
    }
}

/// The value kind of a tag nibble, where the nibble is valid.
pub open spec fn spec_value_kind_of_tag(tag: u8) -> Option<ValueKind> {
    if tag == 0 { Some(ValueKind::U8) }
    else if tag == 1 { Some(ValueKind::I8) }
    else if tag == 2 { Some(ValueKind::U16) }
    else if tag == 3 { Some(ValueKind::I16) }
    else if tag == 4 { Some(ValueKind::U32) }
    else if tag == 5 { Some(ValueKind::I32) }
    else if tag == 6 { Some(ValueKind::U64) }
    else if tag == 7 { Some(ValueKind::I64) }
    else if tag == 8 { Some(ValueKind::F32) }
    else if tag == 0xa { Some(ValueKind::STR) }
    else if tag == 0xb { Some(ValueKind::BLOB) }
    else { None }
}

/// The number of bytes a value of this kind occupies in the column or row
/// region: the natural width for numbers, 4 for a string-pool offset, 8
/// for a blob (offset, length) pair.
pub open spec fn spec_utf_size_of(kind: ValueKind) -> int {
    match kind {
        ValueKind::U8 => 1,
        ValueKind::I8 => 1,
        ValueKind::U16 => 2,
        ValueKind::I16 => 2,
        ValueKind::U32 => 4,
        ValueKind::I32 => 4,
        ValueKind::U64 => 8,
        ValueKind::I64 => 8,
        ValueKind::F32 => 4,
        ValueKind::STR => 4,
        ValueKind::BLOB => 8,
    }
}

/// The on-disk storage tag, already shifted into the high nibble: `0x10`
/// for zero, `0x30` for constant, `0x50` for rowed.
pub open spec fn spec_storage_flag(storage: ColumnStorageFormat) -> u8 {
    match storage {
        ColumnStorageFormat::Zero => 0x10,
        ColumnStorageFormat::Constant => 0x30,
        ColumnStorageFormat::Rowed => 0x50,
    }
}

impl ValueKind {
    /// The on-disk tag nibble of this kind.
    pub fn tag(self) -> (r: u8)
        ensures
            r == spec_value_tag(self),
    {
        match self {
            ValueKind::U8 => 0,
            ValueKind::I8 => 1,
            ValueKind::U16 => 2,
            ValueKind::I16 => 3,
            ValueKind::U32 => 4,
            ValueKind::I32 => 5,
            ValueKind::U64 => 6,
            ValueKind::I64 => 7,
            ValueKind::F32 => 8,
            ValueKind::STR => 0xa,
            ValueKind::BLOB => 0xb,
        }
    }

    /// The kind a tag nibble denotes, or `None` for an invalid nibble.
    pub fn of_tag(tag: u8) -> (r: Option<ValueKind>)
        ensures
            r == spec_value_kind_of_tag(tag),
    {
        if tag == 0 { Some(ValueKind::U8) }
        else if tag == 1 { Some(ValueKind::I8) }
        else if tag == 2 { Some(ValueKind::U16) }
        else if tag == 3 { Some(ValueKind::I16) }
        else if tag == 4 { Some(ValueKind::U32) }
        else if tag == 5 { Some(ValueKind::I32) }
        else if tag == 6 { Some(ValueKind::U64) }
        else if tag == 7 { Some(ValueKind::I64) }
        else if tag == 8 { Some(ValueKind::F32) }
        else if tag == 0xa { Some(ValueKind::STR) }
        else if tag == 0xb { Some(ValueKind::BLOB) }
        else { None }
    }
}

impl ColumnStorageFormat {
    /// The storage tag of this form, shifted into the high nibble.
    pub fn flag(self) -> (r: u8)
        ensures
            r == spec_storage_flag(self),
    {
        match self {
            ColumnStorageFormat::Zero => 0x10,
            ColumnStorageFormat::Constant => 0x30,
            ColumnStorageFormat::Rowed => 0x50,
        }
    }
}

/// Returns the space (in bytes) a value of this kind takes up in the
/// column or row region.
pub fn utf_size_of(kind: ValueKind) -> (r: usize)
    ensures
        r == spec_utf_size_of(kind),
        1 <= r <= 8,
{
    match kind {
        ValueKind::U8 => 1,
        ValueKind::I8 => 1,
        ValueKind::U16 => 2,
        ValueKind::I16 => 2,
        ValueKind::U32 => 4,
        ValueKind::I32 => 4,
        ValueKind::U64 => 8,
        ValueKind::I64 => 8,
        ValueKind::F32 => 4,
        ValueKind::STR => 4,
        ValueKind::BLOB => 8,
    }
}

/// Whether the low nibble of a flag byte is a valid value-kind tag.
pub fn is_valid_value_flag(half: u8) -> (r: bool)
    ensures
        r == spec_value_kind_of_tag(half) is Some,
{
    half <= 8 || half == 0xa || half == 0xb
}

/// Whether the high-nibble part of a flag byte (low nibble cleared) is a
/// valid storage tag.
pub fn is_valid_storage_flag(half: u8) -> (r: bool)
    ensures
        r == (half == 0x10 || half == 0x30 || half == 0x50),
{
    half == 0x10 || half == 0x30 || half == 0x50
}

/// The tag and kind maps are mutually inverse: every kind's tag maps back
/// to that kind, and every valid tag's kind maps back to that tag.
pub proof fn lemma_value_tag_roundtrip()
    ensures
        forall|kind: ValueKind|
            spec_value_kind_of_tag(#[trigger] spec_value_tag(kind)) == Some(kind),
        forall|tag: u8|
            (#[trigger] spec_value_kind_of_tag(tag)) is Some
                ==> spec_value_tag(spec_value_kind_of_tag(tag)->Some_0) == tag,
{
    assert forall|kind: ValueKind|
        spec_value_kind_of_tag(#[trigger] spec_value_tag(kind)) == Some(kind) by {
        match kind {
            ValueKind::U8 => {},
            ValueKind::I8 => {},
            ValueKind::U16 => {},
            ValueKind::I16 => {},
            ValueKind::U32 => {},
            ValueKind::I32 => {},
            ValueKind::U64 => {},
            ValueKind::I64 => {},
            ValueKind::F32 => {},
            ValueKind::STR => {},
            ValueKind::BLOB => {},
        }
    }
}

} // verus!
