//! The error taxonomy of the codec.
//!
//! Structural errors (`MalformedHeader`, `InvalidColumnType`,
//! `InvalidColumnStorage`) mean the input must be rejected wholesale;
//! truncation (`EOF`) is kept distinct so a caller can tell a short file
//! from a corrupt one; schema mismatches (`WrongColumnName`,
//! `WrongColumnType`, `WrongColumnStorage`, `WrongTableSchema`) mean the
//! table is structurally sound but does not have the expected shape.

use vstd::prelude::*;

verus! {

/// Where a read ran out of data, for `Error::EOF`.
#[derive(Debug, Clone, Copy, PartialEq, Eq, Structural)]
pub enum EofAt {
    /// The 8-byte magic/size header or the 24-byte secondary header.
    Header,
    /// The column descriptor region.
    ColumnData,
    /// The row data region.
    RowData,
    /// The string pool region.
    StringData,
    /// The blob pool region.
    BlobData,
    /// A fixed-width value read from the column cursor.
    ColumnValue,
    /// A fixed-width value read from the row cursor.
    RowValue,
    /// The 16-byte packet envelope header.
    PacketHeader,
    /// The packet payload.
    PacketPayload,
}

/// Spec-level mirror of `Error`, with byte strings as sequences.
pub enum ErrView {
    BlobWrongSize,
    DataNotFound,
    EOF(EofAt),
    InvalidColumnStorage(u8),
    InvalidColumnType(u8),
    MalformedHeader,
    StringMalformed,
    OptionalColumnConflict(Seq<u8>),
    ValueConversion(crate::kinds::ValueKind, crate::kinds::ValueKind),
    WrongColumnName(Seq<u8>, Seq<u8>),
    WrongColumnType(u8, u8),
    WrongColumnStorage(u8, u8),
    WrongTableSchema,
    DecryptionError,
}

/// Error returned when reading or writing a table or packet fails.
#[derive(Debug, Clone, PartialEq, Eq)]
pub enum Error {
    /// A decoded blob does not have the byte length the caller demanded.
    BlobWrongSize,
    /// A string offset does not resolve to a pool entry, or a blob range
    /// runs past the end of the blob pool.
    DataNotFound,
    /// The input ended while the named part was being read.
    EOF(EofAt),
    /// The high nibble of a column flag is not a valid storage tag.
    InvalidColumnStorage(u8),
    /// The low nibble of a column flag is not a valid value-kind tag.
    InvalidColumnType(u8),
    /// The header fields break the region layout invariants.
    MalformedHeader,
    /// A string-pool entry is not valid UTF-8.
    StringMalformed,
    /// The rows of an optional rowed column (named by the payload) mix
    /// present and absent values.
    OptionalColumnConflict(Vec<u8>),
    /// A value's kind (first payload) is not the kind the column was
    /// declared with (second payload).
    ValueConversion(crate::kinds::ValueKind, crate::kinds::ValueKind),
    /// A column's name (first payload) is not the expected one (second).
    WrongColumnName(Vec<u8>, Vec<u8>),
    /// A column's value-kind tag (first payload) is valid but not the
    /// expected one (second payload).
    WrongColumnType(u8, u8),
    /// A column's storage tag (first payload) is valid but not the
    /// expected one (second payload).
    WrongColumnStorage(u8, u8),
    /// The table is valid but does not match the expected schema (wrong
    /// table name, field count, or packet prefix).
    WrongTableSchema,
    /// A packet payload is neither recognizable plaintext nor
    /// recognizable ciphertext.
    DecryptionError,
}

impl View for Error {
    type V = ErrView;

    open spec fn view(&self) -> ErrView {
        match self {
            Error::BlobWrongSize => ErrView::BlobWrongSize,
            Error::DataNotFound => ErrView::DataNotFound,
            Error::EOF(at) => ErrView::EOF(*at),
            Error::InvalidColumnStorage(f) => ErrView::InvalidColumnStorage(*f),
            Error::InvalidColumnType(f) => ErrView::InvalidColumnType(*f),
            Error::MalformedHeader => ErrView::MalformedHeader,
            Error::StringMalformed => ErrView::StringMalformed,
            Error::OptionalColumnConflict(name) => ErrView::OptionalColumnConflict(name@),
            Error::ValueConversion(found, expected) => ErrView::ValueConversion(
                *found,
                *expected,
            ),
            Error::WrongColumnName(found, expected) => ErrView::WrongColumnName(
                found@,
                expected@,
            ),
            Error::WrongColumnType(found, expected) => ErrView::WrongColumnType(
                *found,
                *expected,
            ),
            Error::WrongColumnStorage(found, expected) => ErrView::WrongColumnStorage(
                *found,
                *expected,
            ),
            Error::WrongTableSchema => ErrView::WrongTableSchema,
            Error::DecryptionError => ErrView::DecryptionError,
        }
    }
}

impl Error {
    /// A short, fixed description of the error kind.
    pub fn message(&self) -> (r: &'static str) {
        match self {
            Error::BlobWrongSize => "wrong size",
            Error::DataNotFound => "string/blob not found",
            Error::EOF(_) => "reached end of file early",
            Error::InvalidColumnStorage(_) => "invalid column storage flag",
            Error::InvalidColumnType(_) => "invalid column type flag",
            Error::MalformedHeader => "malformed header",
            Error::StringMalformed => "error when decoding utf8 string",
            Error::OptionalColumnConflict(_) => {
                "optional column conflict (values must be all Some or all None)"
            },
            Error::ValueConversion(_, _) => "failed to convert value",
            Error::WrongColumnName(_, _) => "wrong column name",
            Error::WrongColumnType(_, _) => "wrong column type flag",
            Error::WrongColumnStorage(_, _) => "wrong column storage flag",
            Error::WrongTableSchema => "wrong table schema",
            Error::DecryptionError => "table is neither plaintext nor ciphertext",
        }
    }
}

} // verus!
