//! The schema reader: extracts a table's structure (name, and per
//! column its name, storage form and value kind) without decoding any
//! row content.
//!
//! Constant columns keep their value in the column region, so the
//! reader consumes and discards a value of the width the kind implies,
//! to stay positioned at the next descriptor.

use vstd::prelude::*;
use vstd::seq_lib::*;

use crate::error::{Error, ErrView};
use crate::kinds::{spec_value_kind_of_tag, ColumnStorageFormat, ValueKind};
use crate::prim::PrimView;
use crate::reader::{
    inv, spec_parse_err, spec_parse_ok, spec_read_value, spec_reader_of, Reader, ReaderView,
};
use crate::text::spec_lookup;

verus! {

/// Representation of a column of a table (data not included).
#[derive(Debug, Clone)]
pub struct SchemaColumn {
    /// The name of the column.
    pub name: Vec<u8>,
    /// The method in which this column stores data.
    pub storage_format: ColumnStorageFormat,
    /// The kind of data this column stores.
    pub value_kind: ValueKind,
}

impl View for SchemaColumn {
    type V = (Seq<u8>, ColumnStorageFormat, ValueKind);

    open spec fn view(&self) -> (Seq<u8>, ColumnStorageFormat, ValueKind) {
        (self.name@, self.storage_format, self.value_kind)
    }
}

/// The views of a sequence of schema columns.
pub open spec fn spec_columns_view(cols: Seq<SchemaColumn>) -> Seq<
    (Seq<u8>, ColumnStorageFormat, ValueKind),
> {
    cols.map_values(|c: SchemaColumn| c@)
}

/// The kind whose width a constant value of `kind` occupies, used to
/// skip the value without interpreting it: string offsets are skipped
/// as 4-byte numbers and blob references as 8-byte numbers, so no pool
/// lookup happens here.
pub open spec fn spec_skip_kind(kind: ValueKind) -> ValueKind {
    match kind {
        ValueKind::U8 | ValueKind::I8 => ValueKind::U8,
        ValueKind::U16 | ValueKind::I16 => ValueKind::U16,
        ValueKind::U32 | ValueKind::I32 | ValueKind::F32 | ValueKind::STR => ValueKind::U32,
        ValueKind::U64 | ValueKind::I64 | ValueKind::BLOB => ValueKind::U64,
    }
}

/// One column descriptor read without expectations: flag byte and name
/// from the column cursor, the flag's two nibbles mapped to a kind and
/// a storage form, and (for constant storage) the value skipped.
pub open spec fn spec_get_column(rv: ReaderView) -> (
    Result<(Seq<u8>, ColumnStorageFormat, ValueKind), ErrView>,
    ReaderView,
) {
    let step1 = spec_read_value(rv, false, ValueKind::U8);
    match step1.0 {
        Err(e) => (Err(e), step1.1),
        Ok(flagv) => {
            let flag = flagv->U8_0;
            let step2 = spec_read_value(step1.1, false, ValueKind::STR);
            match step2.0 {
                Err(e) => (Err(e), step2.1),
                Ok(namev) => {
                    let cname = namev->STR_0;
                    match spec_value_kind_of_tag(flag & 0x0f) {
                        None => (Err(ErrView::InvalidColumnType(flag & 0x0f)), step2.1),
                        Some(kind) => {
                            let storage_flag = flag & 0xf0;
                            if storage_flag == 0x10 {
                                (Ok((cname, ColumnStorageFormat::Zero, kind)), step2.1)
                            } else if storage_flag == 0x30 {
                                let step3 = spec_read_value(
                                    step2.1,
                                    false,
                                    spec_skip_kind(kind),
                                );
                                match step3.0 {
                                    Err(e) => (Err(e), step3.1),
                                    Ok(_) => (
                                        Ok((cname, ColumnStorageFormat::Constant, kind)),
                                        step3.1,
                                    ),
                                }
                            } else if storage_flag == 0x50 {
                                (Ok((cname, ColumnStorageFormat::Rowed, kind)), step2.1)
                            } else {
                                (Err(ErrView::InvalidColumnStorage(storage_flag)), step2.1)
                            }
                        },
                    }
                },
            }
        },
    }
}

/// A successful column read advances the column cursor and preserves
/// everything else of the reader state.
pub proof fn lemma_get_column_advances(rv: ReaderView)
    requires
        inv(rv),
    ensures
        spec_get_column(rv).0 is Ok ==> {
            let rv2 = spec_get_column(rv).1;
            &&& rv.col_pos < rv2.col_pos <= rv.cols.len()
            &&& inv(rv2)
            &&& rv2 == (ReaderView { col_pos: rv2.col_pos, ..rv })
        },
        inv(spec_get_column(rv).1),
        spec_get_column(rv).1 == (ReaderView { col_pos: spec_get_column(rv).1.col_pos, ..rv }),
        rv.col_pos <= spec_get_column(rv).1.col_pos,
{
    assert(spec_get_column(rv).1 =~= (ReaderView {
        col_pos: spec_get_column(rv).1.col_pos,
        ..rv
    }));
}

/// The remaining column descriptors of a reader state, one after the
/// other until the column region is exhausted.
pub open spec fn spec_schema_columns(rv: ReaderView) -> Result<
    Seq<(Seq<u8>, ColumnStorageFormat, ValueKind)>,
    ErrView,
>
    decreases rv.cols.len() - rv.col_pos,
    when inv(rv)
    via spec_schema_columns_decreases
{
    if rv.col_pos >= rv.cols.len() {
        Ok(Seq::empty())
    } else {
        match spec_get_column(rv).0 {
            Err(e) => Err(e),
            Ok(col) => match spec_schema_columns(spec_get_column(rv).1) {
                Err(e) => Err(e),
                Ok(rest) => Ok(seq![col] + rest),
            },
        }
    }
}

#[via_fn]
proof fn spec_schema_columns_decreases(rv: ReaderView) {
    lemma_get_column_advances(rv);
}

/// Representation of a table's schema.
#[derive(Debug, Clone)]
pub struct Schema {
    /// The name of the table.
    pub table_name: Vec<u8>,
    /// The columns, listed in the order they appear.
    pub columns: Vec<SchemaColumn>,
}

impl Reader {
    /// Reads the next column descriptor without caller expectations:
    /// any valid flag byte is accepted and mapped to its storage form
    /// and value kind; a constant's value is skipped, not retained.
    pub fn get_column(&mut self) -> (r: Result<SchemaColumn, Error>)
        requires
            inv(old(self)@),
        ensures
            inv(final(self)@),
            final(self)@ == spec_get_column(old(self)@).1,
            match r {
                Ok(c) => spec_get_column(old(self)@).0 == Ok::<
                    (Seq<u8>, ColumnStorageFormat, ValueKind),
                    ErrView,
                >(c@),
                Err(e) => spec_get_column(old(self)@).0 == Err::<
                    (Seq<u8>, ColumnStorageFormat, ValueKind),
                    ErrView,
                >(e@),
            },
    {
        let flag_prim = match self.read_value(false, ValueKind::U8) {
            Ok(v) => v,
            Err(e) => {
                return Err(e);
            },
        };
        let flag = flag_prim.unwrap_u8();
        let name_prim = match self.read_value(false, ValueKind::STR) {
            Ok(v) => v,
            Err(e) => {
                return Err(e);
            },
        };
        let column_name = name_prim.unwrap_str();
        let value_kind = match ValueKind::of_tag(flag & 0x0f) {
            Some(k) => k,
            None => {
                return Err(Error::InvalidColumnType(flag & 0x0f));
            },
        };
        let storage_flag = flag & 0xf0;
        if storage_flag == 0x10 {
            Ok(SchemaColumn {
                name: column_name,
                storage_format: ColumnStorageFormat::Zero,
                value_kind,
            })
        } else if storage_flag == 0x30 {
            let skip_kind = match value_kind {
                ValueKind::U8 | ValueKind::I8 => ValueKind::U8,
                ValueKind::U16 | ValueKind::I16 => ValueKind::U16,
                ValueKind::U32 | ValueKind::I32 | ValueKind::F32 | ValueKind::STR => {
                    ValueKind::U32
                },
                ValueKind::U64 | ValueKind::I64 | ValueKind::BLOB => ValueKind::U64,
            };
            match self.read_value(false, skip_kind) {
                Ok(_) => Ok(SchemaColumn {
                    name: column_name,
                    storage_format: ColumnStorageFormat::Constant,
                    value_kind,
                }),
                Err(e) => Err(e),
            }
        } else if storage_flag == 0x50 {
            Ok(SchemaColumn {
                name: column_name,
                storage_format: ColumnStorageFormat::Rowed,
                value_kind,
            })
        } else {
            Err(Error::InvalidColumnStorage(storage_flag))
        }
    }
}

/// Whether a column with the given name appears among the views.
pub open spec fn spec_has_column(
    cols: Seq<(Seq<u8>, ColumnStorageFormat, ValueKind)>,
    name: Seq<u8>,
) -> bool {
    exists|i: int| 0 <= i < cols.len() && cols[i].0 == name
}

impl Schema {
    /// Whether the schema has a column with the given name.
    pub fn has_column(&self, name: &[u8]) -> (r: bool)
        ensures
            r == spec_has_column(spec_columns_view(self.columns@), name@),
    {
        let n = self.columns.len();
        let mut i: usize = 0;
        while i < n
            invariant
                i <= n,
                n == self.columns@.len(),
                forall|j: int|
                    0 <= j < i ==> spec_columns_view(self.columns@)[j].0 != name@,
            decreases n - i,
        {
            if crate::bytes::bytes_eq(self.columns[i].name.as_slice(), name) {
                proof {
                    assert(spec_columns_view(self.columns@)[i as int].0 == name@);
                }
                return true;
            }
            i = i + 1;
        }
        false
    }

    /// Reads a table and extracts its schema: the header, region and
    /// string-pool checks of the full reader, then every column
    /// descriptor in order. Row content is never touched.
    pub fn read(data: &[u8]) -> (r: Result<Schema, Error>)
        ensures
            r is Ok <==> spec_parse_ok(data@) && spec_schema_columns(spec_reader_of(data@))
                is Ok,
            r matches Ok(schema) ==> {
                &&& spec_lookup(
                    spec_reader_of(data@).strings,
                    spec_reader_of(data@).table_name_index,
                ) == Some(schema.table_name@)
                &&& spec_columns_view(schema.columns@) == spec_schema_columns(
                    spec_reader_of(data@),
                )->Ok_0
            },
            r matches Err(e) ==> if !spec_parse_ok(data@) {
                e@ == spec_parse_err(data@)
            } else {
                Err::<Seq<(Seq<u8>, ColumnStorageFormat, ValueKind)>, ErrView>(e@)
                    == spec_schema_columns(spec_reader_of(data@))
            },
    {
        let mut reader = match Reader::new(data) {
            Ok(rd) => rd,
            Err(e) => {
                return Err(e);
            },
        };
        let mut columns: Vec<SchemaColumn> = Vec::new();
        let ghost start = reader@;
        while reader.more_column_data()
            invariant
                spec_parse_ok(data@),
                start == spec_reader_of(data@),
                inv(start),
                inv(reader@),
                reader@ == (ReaderView { col_pos: reader@.col_pos, ..start }),
                spec_schema_columns(start) matches Ok(all) ==> {
                    &&& spec_schema_columns(reader@) is Ok
                    &&& all == spec_columns_view(columns@) + spec_schema_columns(reader@)->Ok_0
                },
                spec_schema_columns(start) matches Err(e) ==> spec_schema_columns(reader@)
                    == Err::<Seq<(Seq<u8>, ColumnStorageFormat, ValueKind)>, ErrView>(e),
            decreases reader@.cols.len() - reader@.col_pos,
        {
            let ghost before = reader@;
            let col = match reader.get_column() {
                Ok(c) => c,
                Err(e) => {
                    proof {
                        assert(spec_schema_columns(before) == Err::<
                            Seq<(Seq<u8>, ColumnStorageFormat, ValueKind)>,
                            ErrView,
                        >(e@));
                    }
                    return Err(e);
                },
            };
            columns.push(col);
            proof {
                lemma_get_column_advances(before);
                assert(spec_schema_columns(before) matches Ok(part) ==> part == seq![col@]
                    + spec_schema_columns(reader@)->Ok_0);
                assert_seqs_equal!(
                    spec_columns_view(columns@)
                        == spec_columns_view(columns@.drop_last()).push(columns@.last()@)
                );
                if spec_schema_columns(start) is Ok {
                    assert_seqs_equal!(
                        spec_schema_columns(start)->Ok_0
                            == spec_columns_view(columns@)
                                + spec_schema_columns(reader@)->Ok_0
                    );
                }
            }
        }
        proof {
            assert(spec_schema_columns(reader@) == Ok::<
                Seq<(Seq<u8>, ColumnStorageFormat, ValueKind)>,
                ErrView,
            >(Seq::empty()));
            if spec_schema_columns(start) is Ok {
                assert_seqs_equal!(
                    spec_schema_columns(start)->Ok_0 == spec_columns_view(columns@)
                );
            }
        }
        let table_name = reader.table_name();
        Ok(Schema { table_name, columns })
    }
}

} // verus!
