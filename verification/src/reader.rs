//! The table reader: parses the whole-table binary layout into its four
//! regions and exposes sequential, schema-checked column and row reads.
//!
//! The layout is an 8-byte magic/size header, a 24-byte secondary header,
//! then the column descriptor region, the row data region, the string
//! pool and the blob pool. No offset in the input is trusted: every
//! region bound is checked before it is used, and a violation of the
//! region layout invariants is one malformed-header condition.

use vstd::prelude::*;
use vstd::seq_lib::*;

use crate::bytes::{spec_u16_from_be, spec_u32_from_be};
use crate::error::{EofAt, Error, ErrView};
use crate::kinds::{
    spec_utf_size_of, spec_value_kind_of_tag, spec_value_tag, ValueKind,
};
use crate::prim::{spec_decode_prim, Primitive, PrimView};
use crate::text::{spec_lookup, spec_pool_all_utf8, spec_pool_entries, StringTable};

verus! {

/// The ASCII magic `@UTF` that opens a table.
pub open spec fn spec_magic() -> Seq<u8> {
    seq![0x40u8, 0x55u8, 0x54u8, 0x46u8]
}

/// The total table size, counted from the end of the magic/size header.
pub open spec fn spec_table_size(s: Seq<u8>) -> u32
    recommends
        s.len() >= 8,
{
    spec_u32_from_be(s.subrange(4, 8))
}

/// The row-region offset, relative to the start of the secondary header.
pub open spec fn spec_row_offset(s: Seq<u8>) -> u32
    recommends
        s.len() >= 32,
{
    spec_u32_from_be(s.subrange(8, 12))
}

/// The string-pool offset, relative to the start of the secondary header.
pub open spec fn spec_string_offset(s: Seq<u8>) -> u32
    recommends
        s.len() >= 32,
{
    spec_u32_from_be(s.subrange(12, 16))
}

/// The blob-pool offset, relative to the start of the secondary header.
pub open spec fn spec_blob_offset(s: Seq<u8>) -> u32
    recommends
        s.len() >= 32,
{
    spec_u32_from_be(s.subrange(16, 20))
}

/// The string-pool offset of the table name.
pub open spec fn spec_table_name_ref(s: Seq<u8>) -> u32
    recommends
        s.len() >= 32,
{
    spec_u32_from_be(s.subrange(20, 24))
}

/// The number of column descriptors.
pub open spec fn spec_field_count(s: Seq<u8>) -> u16
    recommends
        s.len() >= 32,
{
    spec_u16_from_be(s.subrange(24, 26))
}

/// The byte size of one row record.
pub open spec fn spec_row_size(s: Seq<u8>) -> u16
    recommends
        s.len() >= 32,
{
    spec_u16_from_be(s.subrange(26, 28))
}

/// The number of rows.
pub open spec fn spec_row_count(s: Seq<u8>) -> u32
    recommends
        s.len() >= 32,
{
    spec_u32_from_be(s.subrange(28, 32))
}

/// The region layout invariants of the secondary header: the four
/// offsets are ordered and within the table, and the row area is exactly
/// `row_size * row_count` bytes.
pub open spec fn spec_layout_ok(s: Seq<u8>) -> bool
    recommends
        s.len() >= 32,
{
    &&& 24 <= spec_row_offset(s)
    &&& spec_row_offset(s) <= spec_string_offset(s)
    &&& spec_string_offset(s) <= spec_blob_offset(s)
    &&& spec_blob_offset(s) <= spec_table_size(s)
    &&& spec_row_size(s) * spec_row_count(s) == spec_string_offset(s) - spec_row_offset(s)
}

/// The string-pool region of the input.
pub open spec fn spec_string_region(s: Seq<u8>) -> Seq<u8>
    recommends
        s.len() >= 32,
{
    s.subrange(8 + spec_string_offset(s), 8 + spec_blob_offset(s))
}

/// Whether the whole input parses into a ready reader: magic and sizes
/// in place, layout invariants satisfied, all regions present, every
/// string-pool entry valid UTF-8, and the table name resolving to a pool
/// entry.
pub open spec fn spec_parse_ok(s: Seq<u8>) -> bool {
    &&& s.len() >= 8
    &&& s.subrange(0, 4) == spec_magic()
    &&& spec_table_size(s) >= 24
    &&& s.len() >= 32
    &&& spec_layout_ok(s)
    &&& s.len() >= 8 + spec_table_size(s)
    &&& spec_pool_all_utf8(spec_string_region(s))
    &&& spec_lookup(spec_pool_entries(spec_string_region(s)), spec_table_name_ref(s)) is Some
}

/// The error a failing parse reports: the first check that fails, in
/// the order the input is consumed.
pub open spec fn spec_parse_err(s: Seq<u8>) -> ErrView {
    if s.len() < 8 {
        ErrView::EOF(EofAt::Header)
    } else if s.subrange(0, 4) != spec_magic() {
        ErrView::MalformedHeader
    } else if spec_table_size(s) < 24 {
        ErrView::EOF(EofAt::Header)
    } else if s.len() < 32 {
        ErrView::EOF(EofAt::Header)
    } else if !spec_layout_ok(s) {
        ErrView::MalformedHeader
    } else if s.len() < 8 + spec_row_offset(s) {
        ErrView::EOF(EofAt::ColumnData)
    } else if s.len() < 8 + spec_string_offset(s) {
        ErrView::EOF(EofAt::RowData)
    } else if s.len() < 8 + spec_blob_offset(s) {
        ErrView::EOF(EofAt::StringData)
    } else if !spec_pool_all_utf8(spec_string_region(s)) {
        ErrView::StringMalformed
    } else if spec_lookup(spec_pool_entries(spec_string_region(s)), spec_table_name_ref(s))
        is None {
        ErrView::MalformedHeader
    } else {
        ErrView::EOF(EofAt::BlobData)
    }
}

/// Spec-level state of a reader: the two cursored regions, the decoded
/// string pool, the blob pool, and the header fields that survive the
/// parse.
#[verifier::ext_equal]
pub struct ReaderView {
    pub cols: Seq<u8>,
    pub col_pos: int,
    pub rows: Seq<u8>,
    pub row_pos: int,
    pub strings: Seq<(u32, Seq<u8>)>,
    pub blobs: Seq<u8>,
    pub table_name_index: u32,
    pub field_count: u16,
}

/// The reader state a successful parse produces.
pub open spec fn spec_reader_of(s: Seq<u8>) -> ReaderView
    recommends
        spec_parse_ok(s),
{
    ReaderView {
        cols: s.subrange(32, 8 + spec_row_offset(s)),
        col_pos: 0,
        rows: s.subrange(8 + spec_row_offset(s), 8 + spec_string_offset(s)),
        row_pos: 0,
        strings: spec_pool_entries(spec_string_region(s)),
        blobs: s.subrange(8 + spec_blob_offset(s), 8 + spec_table_size(s)),
        table_name_index: spec_table_name_ref(s),
        field_count: spec_field_count(s),
    }
}

/// Well-formedness of a reader state: the cursors lie within their
/// regions and the table name resolves.
pub open spec fn inv(rv: ReaderView) -> bool {
    &&& 0 <= rv.col_pos <= rv.cols.len()
    &&& 0 <= rv.row_pos <= rv.rows.len()
    &&& spec_lookup(rv.strings, rv.table_name_index) is Some
}

/// The reader state after moving one cursor forward by `w` bytes.
pub open spec fn spec_advance(rv: ReaderView, row: bool, w: int) -> ReaderView {
    if row {
        ReaderView { row_pos: rv.row_pos + w, ..rv }
    } else {
        ReaderView { col_pos: rv.col_pos + w, ..rv }
    }
}

/// One fixed-width value read from the column or row cursor: the result
/// and the state after. Running past the end of the region is the
/// end-of-data error and leaves the state unchanged; a pool reference
/// that does not resolve is the data-not-found error, with the cursor
/// already advanced past the buffer.
pub open spec fn spec_read_value(rv: ReaderView, row: bool, kind: ValueKind) -> (
    Result<PrimView, ErrView>,
    ReaderView,
) {
    let buf = if row { rv.rows } else { rv.cols };
    let pos = if row { rv.row_pos } else { rv.col_pos };
    let w = spec_utf_size_of(kind);
    if pos + w > buf.len() {
        (
            Err(ErrView::EOF(if row { EofAt::RowValue } else { EofAt::ColumnValue })),
            rv,
        )
    } else {
        let rv2 = spec_advance(rv, row, w);
        match spec_decode_prim(kind, buf.subrange(pos, pos + w), rv.strings, rv.blobs) {
            Some(v) => (Ok(v), rv2),
            None => (Err(ErrView::DataNotFound), rv2),
        }
    }
}

/// Abstraction layer for reading UTF tables.
#[derive(Debug)]
pub struct Reader {
    column_data: Vec<u8>,
    col_pos: usize,
    row_data: Vec<u8>,
    row_pos: usize,
    strings: StringTable,
    blobs: Vec<u8>,
    table_name_index: u32,
    field_count: u16,
}

impl View for Reader {
    type V = ReaderView;

    closed spec fn view(&self) -> ReaderView {
        ReaderView {
            cols: self.column_data@,
            col_pos: self.col_pos as int,
            rows: self.row_data@,
            row_pos: self.row_pos as int,
            strings: self.strings@,
            blobs: self.blobs@,
            table_name_index: self.table_name_index,
            field_count: self.field_count,
        }
    }
}

impl Reader {
    /// Parses the table layout out of `data`, carving out the four
    /// regions and decoding the string pool, without decoding any column
    /// or row content.
    ///
    /// Succeeds exactly on inputs whose headers, region layout, string
    /// pool and table name are sound; any other input is rejected with
    /// the error of the first failing check, and no byte outside the
    /// input is ever touched.
    pub fn new(data: &[u8]) -> (r: Result<Reader, Error>)
        ensures
            r is Ok <==> spec_parse_ok(data@),
            r matches Ok(rd) ==> rd@ == spec_reader_of(data@) && inv(rd@),
            r matches Err(e) ==> e@ == spec_parse_err(data@),
    {
        let n = data.len();
        if n < 8 {
            return Err(Error::EOF(EofAt::Header));
        }
        if !(data[0] == 0x40 && data[1] == 0x55 && data[2] == 0x54 && data[3] == 0x46) {
            proof {
                assert(data@.subrange(0, 4) != spec_magic());
            }
            return Err(Error::MalformedHeader);
        }
        proof {
            assert(data@.subrange(0, 4) =~= spec_magic());
        }
        let table_size = crate::bytes::u32_from_be_at(data, 4);
        if table_size < 24 {
            return Err(Error::EOF(EofAt::Header));
        }
        if n < 32 {
            return Err(Error::EOF(EofAt::Header));
        }
        let row_offset = crate::bytes::u32_from_be_at(data, 8);
        let string_offset = crate::bytes::u32_from_be_at(data, 12);
        let blob_offset = crate::bytes::u32_from_be_at(data, 16);
        let table_name = crate::bytes::u32_from_be_at(data, 20);
        let field_count = crate::bytes::u16_from_be_at(data, 24);
        let row_size = crate::bytes::u16_from_be_at(data, 26);
        let row_count = crate::bytes::u32_from_be_at(data, 28);
        proof {
            assert(row_size * row_count <= 0xFFFF * 0xFFFF_FFFF) by (nonlinear_arith)
                requires
                    0 <= row_size <= 0xFFFF,
                    0 <= row_count <= 0xFFFF_FFFF,
            ;
        }
        if !(24 <= row_offset && row_offset <= string_offset && string_offset <= blob_offset
            && blob_offset <= table_size
            && (row_size as u64) * (row_count as u64) == (string_offset - row_offset) as u64) {
            return Err(Error::MalformedHeader);
        }
        let n64 = n as u64;
        if n64 < 8 + row_offset as u64 {
            return Err(Error::EOF(EofAt::ColumnData));
        }
        let column_data = crate::bytes::copy_range(data, 32, (row_offset - 24) as usize);
        if n64 < 8 + string_offset as u64 {
            return Err(Error::EOF(EofAt::RowData));
        }
        let row_data = crate::bytes::copy_range(
            data,
            8 + row_offset as usize,
            (string_offset - row_offset) as usize,
        );
        if n64 < 8 + blob_offset as u64 {
            return Err(Error::EOF(EofAt::StringData));
        }
        let string_region = crate::bytes::copy_range(
            data,
            8 + string_offset as usize,
            (blob_offset - string_offset) as usize,
        );
        proof {
            assert(string_region@ =~= spec_string_region(data@));
        }
        let strings = match StringTable::parse(string_region.as_slice()) {
            Ok(t) => t,
            Err(e) => {
                return Err(e);
            },
        };
        if !strings.contains_key(table_name) {
            return Err(Error::MalformedHeader);
        }
        if n64 < 8 + table_size as u64 {
            return Err(Error::EOF(EofAt::BlobData));
        }
        let blobs = crate::bytes::copy_range(
            data,
            8 + blob_offset as usize,
            (table_size - blob_offset) as usize,
        );
        let rd = Reader {
            column_data,
            col_pos: 0,
            row_data,
            row_pos: 0,
            strings,
            blobs,
            table_name_index: table_name,
            field_count,
        };
        proof {
            assert(rd@ =~= spec_reader_of(data@));
        }
        Ok(rd)
    }

    /// The number of columns in the table being read.
    pub fn field_count(&self) -> (r: u16)
        ensures
            r == self@.field_count,
    {
        self.field_count
    }

    /// The name of the table being read, as its string-pool entry.
    pub fn table_name(&self) -> (r: Vec<u8>)
        requires
            inv(self@),
        ensures
            spec_lookup(self@.strings, self@.table_name_index) == Some(r@),
    {
        match self.strings.find(self.table_name_index) {
            Some(name) => name,
            None => {
                proof {
                    assert(false);
                }
                Vec::new()
            },
        }
    }

    /// Whether there is more data in the column region.
    pub fn more_column_data(&self) -> (r: bool)
        ensures
            r == (self@.col_pos < self@.cols.len()),
    {
        self.col_pos < self.column_data.len()
    }

    /// Whether there is more data in the row region.
    pub fn more_row_data(&self) -> (r: bool)
        ensures
            r == (self@.row_pos < self@.rows.len()),
    {
        self.row_pos < self.row_data.len()
    }

    /// Reads one fixed-width value of the given kind from the column or
    /// row cursor, advancing it.
    pub fn read_value(&mut self, row: bool, kind: ValueKind) -> (r: Result<Primitive, Error>)
        requires
            inv(old(self)@),
        ensures
            inv(final(self)@),
            final(self)@ == spec_read_value(old(self)@, row, kind).1,
            match r {
                Ok(v) => spec_read_value(old(self)@, row, kind).0 == Ok::<PrimView, ErrView>(v@),
                Err(e) => spec_read_value(old(self)@, row, kind).0 == Err::<PrimView, ErrView>(
                    e@,
                ),
            },
    {
        let width = crate::kinds::utf_size_of(kind);
        let buf_len = if row { self.row_data.len() } else { self.column_data.len() };
        let pos = if row { self.row_pos } else { self.col_pos };
        if width > buf_len - pos {
            return Err(Error::EOF(if row { EofAt::RowValue } else { EofAt::ColumnValue }));
        }
        let bytes = if row {
            crate::bytes::copy_range(self.row_data.as_slice(), self.row_pos, width)
        } else {
            crate::bytes::copy_range(self.column_data.as_slice(), self.col_pos, width)
        };
        if row {
            self.row_pos = self.row_pos + width;
        } else {
            self.col_pos = self.col_pos + width;
        }
        match crate::prim::decode_primitive(kind, bytes.as_slice(), &self.strings, &self.blobs) {
            Some(v) => Ok(v),
            None => Err(Error::DataNotFound),
        }
    }
}

/// The outcome of checking a column flag byte's low nibble against an
/// expected kind: no error when it is the kind's tag, the wrong-type
/// error for another valid tag, the invalid-type error otherwise.
pub open spec fn spec_check_type_flag(flag: u8, kind: ValueKind) -> Option<ErrView> {
    let type_flag = flag & 0x0f;
    if type_flag == spec_value_tag(kind) {
        None
    } else if spec_value_kind_of_tag(type_flag) is Some {
        Some(ErrView::WrongColumnType(type_flag, spec_value_tag(kind)))
    } else {
        Some(ErrView::InvalidColumnType(type_flag))
    }
}

/// One constant-column read: flag byte and name from the column cursor,
/// name and type and storage checks, and (for constant storage) the
/// value itself, also from the column cursor. With `optional`, zero
/// storage is accepted as the absent case.
pub open spec fn spec_read_constant_column(
    rv: ReaderView,
    name: Seq<u8>,
    kind: ValueKind,
    optional: bool,
) -> (Result<Option<PrimView>, ErrView>, ReaderView) {
    let step1 = spec_read_value(rv, false, ValueKind::U8);
    match step1.0 {
        Err(e) => (Err(e), step1.1),
        Ok(flagv) => {
            let flag = flagv->U8_0;
            let step2 = spec_read_value(step1.1, false, ValueKind::STR);
            match step2.0 {
                Err(e) => (Err(e), step2.1),
                Ok(namev) => {
                    let cname = namev->STR_0;
                    if cname != name {
                        (Err(ErrView::WrongColumnName(cname, name)), step2.1)
                    } else {
                        match spec_check_type_flag(flag, kind) {
                            Some(e) => (Err(e), step2.1),
                            None => {
                                let storage_flag = flag & 0xf0;
                                if storage_flag == 0x30 {
                                    let step3 = spec_read_value(step2.1, false, kind);
                                    match step3.0 {
                                        Ok(v) => (Ok(Some(v)), step3.1),
                                        Err(e) => (Err(e), step3.1),
                                    }
                                } else if optional && storage_flag == 0x10 {
                                    (Ok(None), step2.1)
                                } else if storage_flag == 0x10 || storage_flag == 0x30
                                    || storage_flag == 0x50 {
                                    (
                                        Err(ErrView::WrongColumnStorage(storage_flag, 0x30)),
                                        step2.1,
                                    )
                                } else {
                                    (Err(ErrView::InvalidColumnStorage(storage_flag)), step2.1)
                                }
                            },
                        }
                    }
                },
            }
        },
    }
}

/// One rowed-column read: flag byte and name from the column cursor and
/// the same checks, but no value (rowed values live in the row region).
/// The result says whether the column is rowed (`true`) or, with
/// `optional`, zero (`false`).
pub open spec fn spec_read_rowed_column(
    rv: ReaderView,
    name: Seq<u8>,
    kind: ValueKind,
    optional: bool,
) -> (Result<bool, ErrView>, ReaderView) {
    let step1 = spec_read_value(rv, false, ValueKind::U8);
    match step1.0 {
        Err(e) => (Err(e), step1.1),
        Ok(flagv) => {
            let flag = flagv->U8_0;
            let step2 = spec_read_value(step1.1, false, ValueKind::STR);
            match step2.0 {
                Err(e) => (Err(e), step2.1),
                Ok(namev) => {
                    let cname = namev->STR_0;
                    if cname != name {
                        (Err(ErrView::WrongColumnName(cname, name)), step2.1)
                    } else {
                        match spec_check_type_flag(flag, kind) {
                            Some(e) => (Err(e), step2.1),
                            None => {
                                let storage_flag = flag & 0xf0;
                                if storage_flag == 0x50 {
                                    (Ok(true), step2.1)
                                } else if optional && storage_flag == 0x10 {
                                    (Ok(false), step2.1)
                                } else if storage_flag == 0x10 || storage_flag == 0x30
                                    || storage_flag == 0x50 {
                                    (
                                        Err(ErrView::WrongColumnStorage(storage_flag, 0x50)),
                                        step2.1,
                                    )
                                } else {
                                    (Err(ErrView::InvalidColumnStorage(storage_flag)), step2.1)
                                }
                            },
                        }
                    }
                },
            }
        },
    }
}

impl Reader {
    /// Reads the flag byte and the name of the next column descriptor,
    /// checking the name and the type nibble against the expectation.
    /// On success hands back the flag byte.
    fn read_column_header(&mut self, name: &[u8], kind: ValueKind) -> (r: Result<u8, Error>)
        requires
            inv(old(self)@),
        ensures
            inv(final(self)@),
            ({
                let step1 = spec_read_value(old(self)@, false, ValueKind::U8);
                let step2 = spec_read_value(step1.1, false, ValueKind::STR);
                match r {
                    Ok(flag) => {
                        &&& step1.0 == Ok::<PrimView, ErrView>(PrimView::U8(flag))
                        &&& step2.0 matches Ok(nv) && nv->STR_0 == name@
                        &&& spec_check_type_flag(flag, kind) is None
                        &&& final(self)@ == step2.1
                    },
                    Err(e) => {
                        if step1.0 is Err {
                            &&& Err::<PrimView, ErrView>(e@) == step1.0
                            &&& final(self)@ == step1.1
                        } else if step2.0 is Err {
                            &&& Err::<PrimView, ErrView>(e@) == step2.0
                            &&& final(self)@ == step2.1
                        } else {
                            let flag = step1.0->Ok_0->U8_0;
                            let cname = step2.0->Ok_0->STR_0;
                            &&& final(self)@ == step2.1
                            &&& if cname != name@ {
                                e@ == ErrView::WrongColumnName(cname, name@)
                            } else {
                                spec_check_type_flag(flag, kind) == Some(e@)
                            }
                        }
                    },
                }
            }),
    {
        let flag_prim = match self.read_value(false, ValueKind::U8) {
            Ok(v) => v,
            Err(e) => {
                return Err(e);
            },
        };
        let flag = flag_prim.unwrap_u8();
        let name_prim = match self.read_value(false, ValueKind::STR) {
            Ok(v) => v,
            Err(e) => {
                return Err(e);
            },
        };
        let column_name = name_prim.unwrap_str();
        if !crate::bytes::bytes_eq(column_name.as_slice(), name) {
            let expected = crate::bytes::copy_range(name, 0, name.len());
            proof {
                assert(expected@ =~= name@);
            }
            return Err(Error::WrongColumnName(column_name, expected));
        }
        let type_flag = flag & 0x0f;
        if type_flag != kind.tag() {
            if crate::kinds::is_valid_value_flag(type_flag) {
                return Err(Error::WrongColumnType(type_flag, kind.tag()));
            } else {
                return Err(Error::InvalidColumnType(type_flag));
            }
        }
        Ok(flag)
    }

    /// Attempts to read a constant column with the given name and kind;
    /// on success the column's value is returned.
    pub fn read_constant_column(&mut self, name: &[u8], kind: ValueKind) -> (r: Result<
        Primitive,
        Error,
    >)
        requires
            inv(old(self)@),
        ensures
            inv(final(self)@),
            final(self)@ == spec_read_constant_column(old(self)@, name@, kind, false).1,
            match r {
                Ok(v) => spec_read_constant_column(old(self)@, name@, kind, false).0
                    == Ok::<Option<PrimView>, ErrView>(Some(v@)),
                Err(e) => spec_read_constant_column(old(self)@, name@, kind, false).0
                    == Err::<Option<PrimView>, ErrView>(e@),
            },
    {
        match self.read_constant_column_opt_inner(name, kind, false) {
            Ok(Some(v)) => Ok(v),
            Ok(None) => {
                proof {
                    assert(false);
                }
                Err(Error::MalformedHeader)
            },
            Err(e) => Err(e),
        }
    }

    /// Attempts to read an optional constant column with the given name
    /// and kind: a constant column gives its value, a zero column gives
    /// the absent case.
    pub fn read_constant_column_opt(&mut self, name: &[u8], kind: ValueKind) -> (r: Result<
        Option<Primitive>,
        Error,
    >)
        requires
            inv(old(self)@),
        ensures
            inv(final(self)@),
            final(self)@ == spec_read_constant_column(old(self)@, name@, kind, true).1,
            match r {
                Ok(v) => spec_read_constant_column(old(self)@, name@, kind, true).0
                    == Ok::<Option<PrimView>, ErrView>(crate::prim::spec_opt_view(v)),
                Err(e) => spec_read_constant_column(old(self)@, name@, kind, true).0
                    == Err::<Option<PrimView>, ErrView>(e@),
            },
    {
        self.read_constant_column_opt_inner(name, kind, true)
    }

    fn read_constant_column_opt_inner(
        &mut self,
        name: &[u8],
        kind: ValueKind,
        optional: bool,
    ) -> (r: Result<Option<Primitive>, Error>)
        requires
            inv(old(self)@),
        ensures
            inv(final(self)@),
            final(self)@ == spec_read_constant_column(old(self)@, name@, kind, optional).1,
            match r {
                Ok(v) => spec_read_constant_column(old(self)@, name@, kind, optional).0
                    == Ok::<Option<PrimView>, ErrView>(crate::prim::spec_opt_view(v)),
                Err(e) => spec_read_constant_column(old(self)@, name@, kind, optional).0
                    == Err::<Option<PrimView>, ErrView>(e@),
            },
    {
        let flag = match self.read_column_header(name, kind) {
            Ok(f) => f,
            Err(e) => {
                return Err(e);
            },
        };
        let storage_flag = flag & 0xf0;
        if storage_flag == 0x30 {
            match self.read_value(false, kind) {
                Ok(v) => Ok(Some(v)),
                Err(e) => Err(e),
            }
        } else if optional && storage_flag == 0x10 {
            Ok(None)
        } else if crate::kinds::is_valid_storage_flag(storage_flag) {
            Err(Error::WrongColumnStorage(storage_flag, 0x30))
        } else {
            Err(Error::InvalidColumnStorage(storage_flag))
        }
    }

    /// Attempts to read a rowed column with the given name and kind.
    /// The values themselves are read per row from the row cursor.
    pub fn read_rowed_column(&mut self, name: &[u8], kind: ValueKind) -> (r: Result<(), Error>)
        requires
            inv(old(self)@),
        ensures
            inv(final(self)@),
            final(self)@ == spec_read_rowed_column(old(self)@, name@, kind, false).1,
            match r {
                Ok(_) => spec_read_rowed_column(old(self)@, name@, kind, false).0
                    == Ok::<bool, ErrView>(true),
                Err(e) => spec_read_rowed_column(old(self)@, name@, kind, false).0
                    == Err::<bool, ErrView>(e@),
            },
    {
        match self.read_rowed_column_opt_inner(name, kind, false) {
            Ok(_) => Ok(()),
            Err(e) => Err(e),
        }
    }

    /// Attempts to read an optional rowed column with the given name and
    /// kind: `true` means the column is rowed, `false` that it is zero.
    pub fn read_rowed_column_opt(&mut self, name: &[u8], kind: ValueKind) -> (r: Result<
        bool,
        Error,
    >)
        requires
            inv(old(self)@),
        ensures
            inv(final(self)@),
            final(self)@ == spec_read_rowed_column(old(self)@, name@, kind, true).1,
            match r {
                Ok(b) => spec_read_rowed_column(old(self)@, name@, kind, true).0
                    == Ok::<bool, ErrView>(b),
                Err(e) => spec_read_rowed_column(old(self)@, name@, kind, true).0
                    == Err::<bool, ErrView>(e@),
            },
    {
        self.read_rowed_column_opt_inner(name, kind, true)
    }

    fn read_rowed_column_opt_inner(
        &mut self,
        name: &[u8],
        kind: ValueKind,
        optional: bool,
    ) -> (r: Result<bool, Error>)
        requires
            inv(old(self)@),
        ensures
            inv(final(self)@),
            final(self)@ == spec_read_rowed_column(old(self)@, name@, kind, optional).1,
            match r {
                Ok(b) => spec_read_rowed_column(old(self)@, name@, kind, optional).0
                    == Ok::<bool, ErrView>(b),
                Err(e) => spec_read_rowed_column(old(self)@, name@, kind, optional).0
                    == Err::<bool, ErrView>(e@),
            },
            r matches Ok(b) ==> (optional || b),
    {
        let flag = match self.read_column_header(name, kind) {
            Ok(f) => f,
            Err(e) => {
                return Err(e);
            },
        };
        let storage_flag = flag & 0xf0;
        if storage_flag == 0x50 {
            Ok(true)
        } else if optional && storage_flag == 0x10 {
            Ok(false)
        } else if crate::kinds::is_valid_storage_flag(storage_flag) {
            Err(Error::WrongColumnStorage(storage_flag, 0x50))
        } else {
            Err(Error::InvalidColumnStorage(storage_flag))
        }
    }
}

/// A header that passes the magic and size checks but breaks a region
/// layout invariant is rejected wholesale as a malformed header, before
/// any region is touched.
pub proof fn lemma_bad_layout_is_malformed_header(s: Seq<u8>)
    requires
        s.len() >= 32,
        s.subrange(0, 4) == spec_magic(),
        spec_table_size(s) >= 24,
        !spec_layout_ok(s),
    ensures
        !spec_parse_ok(s),
        spec_parse_err(s) == ErrView::MalformedHeader,
{
}

} // verus!
