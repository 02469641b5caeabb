//! Whole tables: a runtime description of a table's columns drives one
//! generic decode and encode pair.
//!
//! A `TableSpec` is the ordered list of column declarations (name, value
//! kind, declared storage, optional flag). A `Table` holds the decoded
//! data against such a description: one optional constant value and, per
//! row, one optional value for every column (entries at non-matching
//! positions stay absent), plus the write context that remembers how
//! optional rowed columns were stored.

use vstd::prelude::*;
use vstd::seq_lib::*;

use crate::error::{Error, ErrView};
use crate::kinds::{spec_utf_size_of, ColumnStorageType, ValueKind};
use crate::prim::{spec_opt_view, Primitive, PrimView};
use crate::reader::{
    inv, spec_parse_err, spec_parse_ok, spec_read_constant_column, spec_read_rowed_column,
    spec_read_value, spec_reader_of, Reader, ReaderView,
};
use crate::text::spec_lookup;
use crate::writer::{
    spec_ctx_find, spec_emit, spec_null_name, spec_push_constant_column,
    spec_push_rowed_column, spec_write_value, WriteContext, Writer, WriterView,
};

verus! {

/// One column declaration: its on-disk name, the kind of value it
/// stores, whether it is declared constant or rowed, and, for an
/// optional column, the inclusion default a fresh table starts with.
#[derive(Debug, Clone)]
pub struct ColumnSpec {
    pub name: Vec<u8>,
    pub kind: ValueKind,
    pub storage: ColumnStorageType,
    pub optional: Option<bool>,
}

impl View for ColumnSpec {
    type V = (Seq<u8>, ValueKind, ColumnStorageType, Option<bool>);

    open spec fn view(&self) -> (Seq<u8>, ValueKind, ColumnStorageType, Option<bool>) {
        (self.name@, self.kind, self.storage, self.optional)
    }
}

/// An ordered table description: the table's name and its columns.
#[derive(Debug, Clone)]
pub struct TableSpec {
    pub name: Vec<u8>,
    pub columns: Vec<ColumnSpec>,
}

/// The views of a sequence of column declarations.
pub open spec fn spec_cols_view(cols: Seq<ColumnSpec>) -> Seq<
    (Seq<u8>, ValueKind, ColumnStorageType, Option<bool>),
> {
    cols.map_values(|c: ColumnSpec| c@)
}

/// The views of a sequence of optional primitives.
pub open spec fn spec_opt_seq_view(s: Seq<Option<Primitive>>) -> Seq<Option<PrimView>> {
    s.map_values(|v: Option<Primitive>| spec_opt_view(v))
}

/// Spec-level state of a decoded table.
#[verifier::ext_equal]
pub struct TableView {
    pub constants: Seq<Option<PrimView>>,
    pub rows: Seq<Seq<Option<PrimView>>>,
    pub context: Seq<(Seq<u8>, bool)>,
}

/// A decoded table: for every column one optional constant value (absent
/// unless the column is constant and present), per row one optional
/// value for every column (absent at non-rowed and excluded positions),
/// and the write context for optional rowed columns.
#[derive(Debug)]
pub struct Table {
    pub constants: Vec<Option<Primitive>>,
    pub rows: Vec<Vec<Option<Primitive>>>,
    pub context: WriteContext,
}

impl View for Table {
    type V = TableView;

    open spec fn view(&self) -> TableView {
        TableView {
            constants: spec_opt_seq_view(self.constants@),
            rows: self.rows@.map_values(|r: Vec<Option<Primitive>>| spec_opt_seq_view(r@)),
            context: self.context@,
        }
    }
}

/// Structural fit of a table to a column list: one constant entry and,
/// in every row, one value entry per column; a non-optional constant
/// column holds its value, and a non-optional rowed column holds a
/// value in every row.
pub open spec fn wf_table(
    cols: Seq<(Seq<u8>, ValueKind, ColumnStorageType, Option<bool>)>,
    tv: TableView,
) -> bool {
    &&& tv.constants.len() == cols.len()
    &&& forall|i: int|
        0 <= i < cols.len() && cols[i].2 is Constant && cols[i].3 is None
            ==> (#[trigger] tv.constants[i]) is Some
    &&& forall|k: int| 0 <= k < tv.rows.len() ==> (#[trigger] tv.rows[k]).len() == cols.len()
    &&& forall|k: int, i: int|
        0 <= k < tv.rows.len() && 0 <= i < cols.len() && cols[i].2 is Rowed && cols[i].3
            is None ==> (#[trigger] tv.rows[k][i]) is Some
}

/// Whether column `i` is written as rowed: a non-optional column
/// always, an optional one by its first row's presence, or, when there
/// are no rows, by the write context (included when unrecorded).
pub open spec fn spec_incl(
    cols: Seq<(Seq<u8>, ValueKind, ColumnStorageType, Option<bool>)>,
    tv: TableView,
    i: int,
) -> bool {
    if cols[i].3 is None {
        true
    } else if tv.rows.len() == 0 {
        match spec_ctx_find(tv.context, cols[i].0) {
            Some(b) => b,
            None => true,
        }
    } else {
        tv.rows[0][i] is Some
    }
}

/// The writer state a fresh writer for `name` starts in.
pub open spec fn spec_writer_init(name: Seq<u8>) -> WriterView {
    WriterView {
        cols: Seq::empty(),
        rows: Seq::empty(),
        dedup: seq![(spec_null_name(), 0u32), (name, 7u32)],
        sd: spec_null_name() + seq![0u8] + name + seq![0u8],
        blobs: Seq::empty(),
        field_count: 0,
    }
}

/// The writer state after pushing the column descriptors from `i` on:
/// a constant column with its (possibly absent) value, a rowed column
/// with its inclusion flag.
pub open spec fn spec_push_columns(
    wv: WriterView,
    cols: Seq<(Seq<u8>, ValueKind, ColumnStorageType, Option<bool>)>,
    consts: Seq<Option<PrimView>>,
    incl: Seq<bool>,
    i: int,
) -> (Result<(), ErrView>, WriterView)
    decreases cols.len() - i,
    when 0 <= i <= cols.len()
{
    if i >= cols.len() {
        (Ok(()), wv)
    } else {
        let step = if cols[i].2 is Constant {
            spec_push_constant_column(wv, cols[i].0, cols[i].1, consts[i])
        } else {
            spec_push_rowed_column(wv, cols[i].0, cols[i].1, incl[i])
        };
        match step.0 {
            Err(e) => (Err(e), step.1),
            Ok(_) => spec_push_columns(step.1, cols, consts, incl, i + 1),
        }
    }
}

/// The writer state after writing one row's values from column `i` on:
/// every included rowed column contributes one value, and an optional
/// rowed column whose presence disagrees with its inclusion flag is
/// the optional-column-conflict error.
pub open spec fn spec_write_row(
    wv: WriterView,
    cols: Seq<(Seq<u8>, ValueKind, ColumnStorageType, Option<bool>)>,
    incl: Seq<bool>,
    row: Seq<Option<PrimView>>,
    i: int,
) -> (Result<(), ErrView>, WriterView)
    decreases cols.len() - i,
    when 0 <= i <= cols.len()
{
    if i >= cols.len() {
        (Ok(()), wv)
    } else if cols[i].2 is Rowed {
        if cols[i].3 is Some && incl[i] != (row[i] is Some) {
            (Err(ErrView::OptionalColumnConflict(cols[i].0)), wv)
        } else if incl[i] {
            match row[i] {
                Some(p) => match spec_write_value(wv, true, p) {
                    None => (Err(ErrView::MalformedHeader), wv),
                    Some(wv2) => spec_write_row(wv2, cols, incl, row, i + 1),
                },
                None => (Err(ErrView::MalformedHeader), wv),
            }
        } else {
            spec_write_row(wv, cols, incl, row, i + 1)
        }
    } else {
        spec_write_row(wv, cols, incl, row, i + 1)
    }
}

/// The writer state after writing the rows from `k` on.
pub open spec fn spec_write_rows(
    wv: WriterView,
    cols: Seq<(Seq<u8>, ValueKind, ColumnStorageType, Option<bool>)>,
    incl: Seq<bool>,
    rows: Seq<Seq<Option<PrimView>>>,
    k: int,
) -> (Result<(), ErrView>, WriterView)
    decreases rows.len() - k,
    when 0 <= k <= rows.len()
{
    if k >= rows.len() {
        (Ok(()), wv)
    } else {
        let step = spec_write_row(wv, cols, incl, rows[k], 0);
        match step.0 {
            Err(e) => (Err(e), step.1),
            Ok(_) => spec_write_rows(step.1, cols, incl, rows, k + 1),
        }
    }
}

/// The number of bytes one row occupies: the widths of the included
/// rowed columns from `i` on.
pub open spec fn spec_row_bytes(
    cols: Seq<(Seq<u8>, ValueKind, ColumnStorageType, Option<bool>)>,
    incl: Seq<bool>,
    i: int,
) -> int
    decreases cols.len() - i,
    when 0 <= i <= cols.len()
{
    if i >= cols.len() {
        0
    } else if cols[i].2 is Rowed && incl[i] {
        spec_utf_size_of(cols[i].1) + spec_row_bytes(cols, incl, i + 1)
    } else {
        spec_row_bytes(cols, incl, i + 1)
    }
}

/// The table bytes a write produces: the columns pushed, the rows
/// written, and the layout emitted with the row geometry the included
/// columns imply.
pub open spec fn spec_table_write(
    name: Seq<u8>,
    cols: Seq<(Seq<u8>, ValueKind, ColumnStorageType, Option<bool>)>,
    tv: TableView,
) -> Result<Seq<u8>, ErrView> {
    let incl = Seq::new(cols.len(), |i: int| spec_incl(cols, tv, i));
    if cols.len() > 0xFFFF {
        Err(ErrView::MalformedHeader)
    } else {
        let s1 = spec_push_columns(spec_writer_init(name), cols, tv.constants, incl, 0);
        match s1.0 {
            Err(e) => Err(e),
            Ok(_) => {
                let s2 = spec_write_rows(s1.1, cols, incl, tv.rows, 0);
                match s2.0 {
                    Err(e) => Err(e),
                    Ok(_) => {
                        let w = spec_row_bytes(cols, incl, 0);
                        if w > 0xFFFF || tv.rows.len() > 0xFFFF_FFFF {
                            Err(ErrView::MalformedHeader)
                        } else {
                            spec_emit(s2.1, w as u16, tv.rows.len() as u32)
                        }
                    },
                }
            },
        }
    }
}

impl Table {
    /// Creates a table with default constant values and no rows: zero
    /// or empty constants where the column is constant (absent when an
    /// optional constant defaults to excluded), and the optional rowed
    /// columns' inclusion defaults recorded in the write context.
    pub fn new(spec: &TableSpec) -> (r: Table)
        ensures
            wf_table(spec_cols_view(spec.columns@), r@),
            r@.rows.len() == 0,
            r@.constants.len() == spec.columns@.len(),
            forall|i: int|
                0 <= i < spec.columns@.len() ==> #[trigger] r@.constants[i] == {
                    let c = spec_cols_view(spec.columns@)[i];
                    if c.2 is Constant && (c.3 is None || c.3 == Some(true)) {
                        Some(crate::prim::spec_default_of(c.1))
                    } else {
                        None::<PrimView>
                    }
                },
            forall|i: int|
                0 <= i < spec.columns@.len() && spec_cols_view(spec.columns@)[i].2 is Rowed
                    && spec_cols_view(spec.columns@)[i].3 is Some ==> spec_ctx_find(
                    r@.context,
                    spec_cols_view(spec.columns@)[i].0,
                ) is Some,
    {
        let n = spec.columns.len();
        let mut constants: Vec<Option<Primitive>> = Vec::new();
        let mut context = WriteContext::new();
        let mut i: usize = 0;
        while i < n
            invariant
                i <= n,
                n == spec.columns@.len(),
                constants@.len() == i,
                forall|j: int|
                    0 <= j < i ==> #[trigger] spec_opt_seq_view(constants@)[j] == {
                        let c = spec_cols_view(spec.columns@)[j];
                        if c.2 is Constant && (c.3 is None || c.3 == Some(true)) {
                            Some(crate::prim::spec_default_of(c.1))
                        } else {
                            None::<PrimView>
                        }
                    },
                forall|j: int|
                    0 <= j < i && spec_cols_view(spec.columns@)[j].2 is Rowed
                        && spec_cols_view(spec.columns@)[j].3 is Some ==> spec_ctx_find(
                        context@,
                        spec_cols_view(spec.columns@)[j].0,
                    ) is Some,
            decreases n - i,
        {
            let ghost prev_constants = constants@;
            let c = &spec.columns[i];
            match c.storage {
                ColumnStorageType::Constant => {
                    let value = match c.optional {
                        None => Some(Primitive::default_of(c.kind)),
                        Some(true) => Some(Primitive::default_of(c.kind)),
                        Some(false) => None,
                    };
                    constants.push(value);
                },
                ColumnStorageType::Rowed => {
                    constants.push(None);
                    if let Some(included) = c.optional {
                        let name = crate::bytes::copy_range(c.name.as_slice(), 0, c.name.len());
                        proof {
                            assert(name@ =~= c.name@);
                        }
                        let ghost prev_ctx = context@;
                        context.set_inclusion_state(name, included);
                        proof {
                            assert(spec_ctx_find(context@, c.name@) is Some);
                            assert forall|j: int|
                                0 <= j < i && spec_cols_view(spec.columns@)[j].2 is Rowed
                                    && spec_cols_view(spec.columns@)[j].3 is Some implies
                                spec_ctx_find(
                                context@,
                                spec_cols_view(spec.columns@)[j].0,
                            ) is Some by {
                                if spec_cols_view(spec.columns@)[j].0 != c.name@ {
                                    crate::writer::lemma_ctx_find_skip(
                                        context@,
                                        spec_cols_view(spec.columns@)[j].0,
                                        1,
                                    );
                                    assert(context@.skip(1) =~= prev_ctx);
                                }
                            }
                        }
                    }
                },
            }
            proof {
                assert(spec_cols_view(spec.columns@)[i as int] == spec.columns@[i as int]@);
                assert(spec_opt_seq_view(constants@)[i as int] == spec_opt_view(
                    constants@[i as int],
                ));
                assert(spec_opt_seq_view(constants@)[i as int] == {
                    let cv = spec_cols_view(spec.columns@)[i as int];
                    if cv.2 is Constant && (cv.3 is None || cv.3 == Some(true)) {
                        Some(crate::prim::spec_default_of(cv.1))
                    } else {
                        None::<PrimView>
                    }
                });
                assert forall|j: int| 0 <= j < i implies #[trigger] spec_opt_seq_view(
                    constants@,
                )[j] == spec_opt_seq_view(prev_constants)[j] by {
                    assert(constants@[j] == prev_constants[j]);
                }
            }
            i = i + 1;
        }
        Table { constants, rows: Vec::new(), context }
    }
    /// Serializes the table against its description: pushes every
    /// column descriptor, writes every row's included values, and emits
    /// the final layout.
    ///
    /// Fails with the optional-column-conflict error exactly when some
    /// optional rowed column mixes present and absent values across the
    /// rows (against the inclusion its first row, or the write context,
    /// establishes).
    #[verifier::rlimit(100)]
    pub fn write(&self, spec: &TableSpec) -> (r: Result<Vec<u8>, Error>)
        requires
            wf_table(spec_cols_view(spec.columns@), self@),
        ensures
            match r {
                Ok(out) => spec_table_write(spec.name@, spec_cols_view(spec.columns@), self@)
                    == Ok::<Seq<u8>, ErrView>(out@),
                Err(e) => spec_table_write(spec.name@, spec_cols_view(spec.columns@), self@)
                    == Err::<Seq<u8>, ErrView>(e@),
            },
    {
        let ghost colsv = spec_cols_view(spec.columns@);
        let ghost inclv = Seq::new(colsv.len(), |i: int| spec_incl(colsv, self@, i));
        let n = spec.columns.len();
        if n > 0xFFFF {
            return Err(Error::MalformedHeader);
        }
        // The inclusion flag of every column, in declaration order.
        let mut incl: Vec<bool> = Vec::new();
        let mut i: usize = 0;
        while i < n
            invariant
                i <= n,
                n == spec.columns@.len(),
                colsv == spec_cols_view(spec.columns@),
                inclv == Seq::new(colsv.len(), |j: int| spec_incl(colsv, self@, j)),
                wf_table(colsv, self@),
                incl@.len() == i,
                forall|j: int| 0 <= j < i ==> #[trigger] incl@[j] == inclv[j],
            decreases n - i,
        {
            let c = &spec.columns[i];
            proof {
                assert(colsv[i as int] == c@);
            }
            let flag: bool = match c.optional {
                None => true,
                Some(_) => {
                    if self.rows.len() == 0 {
                        self.context.is_included(c.name.as_slice())
                    } else {
                        proof {
                            assert(self@.rows[0][i as int] == spec_opt_view(
                                self.rows@[0]@[i as int],
                            ));
                        }
                        self.rows[0][i].is_some()
                    }
                },
            };
            incl.push(flag);
            i = i + 1;
        }
        let mut writer = Writer::new(spec.name.as_slice());
        proof {
            assert(writer@ =~= spec_writer_init(spec.name@));
        }
        let ghost wv0 = spec_writer_init(spec.name@);
        let ghost whole_cols = spec_push_columns(wv0, colsv, self@.constants, inclv, 0);
        let mut i: usize = 0;
        while i < n
            invariant
                i <= n,
                n <= 0xFFFF,
                n == spec.columns@.len(),
                colsv == spec_cols_view(spec.columns@),
                inclv == Seq::new(colsv.len(), |j: int| spec_incl(colsv, self@, j)),
                wf_table(colsv, self@),
                incl@.len() == n,
                forall|j: int| 0 <= j < n ==> #[trigger] incl@[j] == inclv[j],
                wv0 == spec_writer_init(spec.name@),
                whole_cols == spec_push_columns(wv0, colsv, self@.constants, inclv, 0),
                whole_cols == spec_push_columns(writer@, colsv, self@.constants, inclv, i as int),
                writer@.field_count == i,
            decreases n - i,
        {
            let c = &spec.columns[i];
            proof {
                assert(colsv[i as int] == c@);
                assert(self@.constants[i as int] == spec_opt_view(self.constants@[i as int]));
            }
            let step = match c.storage {
                ColumnStorageType::Constant => {
                    writer.push_constant_column_opt(c.name.as_slice(), c.kind, &self.constants[i])
                },
                ColumnStorageType::Rowed => {
                    writer.push_rowed_column_opt(c.name.as_slice(), c.kind, incl[i])
                },
            };
            match step {
                Ok(_) => {},
                Err(e) => {
                    return Err(e);
                },
            }
            i = i + 1;
        }
        let ghost wv1 = writer@;
        proof {
            assert(whole_cols == (Ok::<(), ErrView>(()), wv1));
        }
        let ghost whole_rows = spec_write_rows(wv1, colsv, inclv, self@.rows, 0);
        let row_total = self.rows.len();
        let mut k: usize = 0;
        while k < row_total
            invariant
                k <= row_total,
                row_total == self.rows@.len(),
                n <= 0xFFFF,
                n == spec.columns@.len(),
                colsv == spec_cols_view(spec.columns@),
                inclv == Seq::new(colsv.len(), |j: int| spec_incl(colsv, self@, j)),
                wf_table(colsv, self@),
                incl@.len() == n,
                forall|j: int| 0 <= j < n ==> #[trigger] incl@[j] == inclv[j],
                wv0 == spec_writer_init(spec.name@),
                spec_push_columns(wv0, colsv, self@.constants, inclv, 0) == (
                    Ok::<(), ErrView>(()),
                    wv1,
                ),
                whole_rows == spec_write_rows(wv1, colsv, inclv, self@.rows, 0),
                whole_rows == spec_write_rows(writer@, colsv, inclv, self@.rows, k as int),
            decreases row_total - k,
        {
            let ghost rowv = self@.rows[k as int];
            let ghost whole_row = spec_write_row(writer@, colsv, inclv, rowv, 0);
            proof {
                assert(whole_rows == (match whole_row.0 {
                    Err(e) => (Err::<(), ErrView>(e), whole_row.1),
                    Ok(_) => spec_write_rows(whole_row.1, colsv, inclv, self@.rows, k + 1),
                }));
            }
            let mut i: usize = 0;
            while i < n
                invariant
                    i <= n,
                    k < row_total,
                    row_total == self.rows@.len(),
                    n <= 0xFFFF,
                    n == spec.columns@.len(),
                    colsv == spec_cols_view(spec.columns@),
                    inclv == Seq::new(colsv.len(), |j: int| spec_incl(colsv, self@, j)),
                    wf_table(colsv, self@),
                    incl@.len() == n,
                    forall|j: int| 0 <= j < n ==> #[trigger] incl@[j] == inclv[j],
                    wv0 == spec_writer_init(spec.name@),
                    spec_push_columns(wv0, colsv, self@.constants, inclv, 0) == (
                        Ok::<(), ErrView>(()),
                        wv1,
                    ),
                    whole_rows == spec_write_rows(wv1, colsv, inclv, self@.rows, 0),
                    rowv == self@.rows[k as int],
                    whole_row == spec_write_row(writer@, colsv, inclv, rowv, i as int),
                    whole_rows == (match whole_row.0 {
                        Err(e) => (Err::<(), ErrView>(e), whole_row.1),
                        Ok(_) => spec_write_rows(whole_row.1, colsv, inclv, self@.rows, k + 1),
                    }),
                decreases n - i,
            {
                let c = &spec.columns[i];
                proof {
                    assert(colsv[i as int] == c@);
                    assert(rowv[i as int] == spec_opt_view(self.rows@[k as int]@[i as int]));
                }
                if matches!(c.storage, ColumnStorageType::Rowed) {
                    let present = self.rows[k][i].is_some();
                    if c.optional.is_some() && incl[i] != present {
                        let name = crate::bytes::copy_range(c.name.as_slice(), 0, c.name.len());
                        proof {
                            assert(name@ =~= c.name@);
                            assert(whole_row.0 == Err::<(), ErrView>(
                                ErrView::OptionalColumnConflict(c.name@),
                            ));
                        }
                        return Err(Error::OptionalColumnConflict(name));
                    }
                    if incl[i] {
                        match &self.rows[k][i] {
                            Some(p) => match writer.write_value(true, p) {
                                Ok(_) => {},
                                Err(e) => {
                                    return Err(e);
                                },
                            },
                            None => {
                                proof {
                                    assert(false);
                                }
                                return Err(Error::MalformedHeader);
                            },
                        }
                    }
                }
                i = i + 1;
            }
            proof {
                assert(whole_row == (Ok::<(), ErrView>(()), writer@));
            }
            k = k + 1;
        }
        let ghost wv2 = writer@;
        proof {
            assert(whole_rows == (Ok::<(), ErrView>(()), wv2));
        }
        // The row geometry the included columns imply.
        let mut width: u64 = 0;
        let mut i: usize = 0;
        while i < n
            invariant
                i <= n,
                n <= 0xFFFF,
                n == spec.columns@.len(),
                colsv == spec_cols_view(spec.columns@),
                incl@.len() == n,
                forall|j: int| 0 <= j < n ==> #[trigger] incl@[j] == inclv[j],
                width + spec_row_bytes(colsv, inclv, i as int) == spec_row_bytes(
                    colsv,
                    inclv,
                    0,
                ),
                width <= 8 * i,
            decreases n - i,
        {
            let c = &spec.columns[i];
            proof {
                assert(colsv[i as int] == c@);
            }
            if matches!(c.storage, ColumnStorageType::Rowed) && incl[i] {
                width = width + crate::kinds::utf_size_of(c.kind) as u64;
            }
            i = i + 1;
        }
        if width > 0xFFFF {
            return Err(Error::MalformedHeader);
        }
        if self.rows.len() as u64 > 0xFFFF_FFFF {
            return Err(Error::MalformedHeader);
        }
        let row_count = self.rows.len() as u32;
        writer.end(width as u16, row_count)
    }
}

/// The constants, inclusion flags and reader state after reading the
/// column descriptors from `i` on, each checked against its
/// declaration: a constant column contributes its (possibly absent)
/// value, a rowed column its inclusion flag.
pub open spec fn spec_read_columns(
    rv: ReaderView,
    cols: Seq<(Seq<u8>, ValueKind, ColumnStorageType, Option<bool>)>,
    i: int,
) -> Result<(Seq<Option<PrimView>>, Seq<bool>, ReaderView), ErrView>
    decreases cols.len() - i,
    when 0 <= i <= cols.len()
{
    if i >= cols.len() {
        Ok((Seq::empty(), Seq::empty(), rv))
    } else if cols[i].2 is Constant {
        let st = spec_read_constant_column(rv, cols[i].0, cols[i].1, cols[i].3 is Some);
        match st.0 {
            Err(e) => Err(e),
            Ok(v) => match spec_read_columns(st.1, cols, i + 1) {
                Err(e) => Err(e),
                Ok(t) => Ok((seq![v] + t.0, seq![true] + t.1, t.2)),
            },
        }
    } else {
        let st = spec_read_rowed_column(rv, cols[i].0, cols[i].1, cols[i].3 is Some);
        match st.0 {
            Err(e) => Err(e),
            Ok(b) => match spec_read_columns(st.1, cols, i + 1) {
                Err(e) => Err(e),
                Ok(t) => Ok((seq![None] + t.0, seq![b] + t.1, t.2)),
            },
        }
    }
}

/// One row's values from column `i` on: every included rowed column
/// contributes one decoded value, every other position the absent
/// entry.
pub open spec fn spec_read_row(
    rv: ReaderView,
    cols: Seq<(Seq<u8>, ValueKind, ColumnStorageType, Option<bool>)>,
    incl: Seq<bool>,
    i: int,
) -> Result<(Seq<Option<PrimView>>, ReaderView), ErrView>
    decreases cols.len() - i,
    when 0 <= i <= cols.len()
{
    if i >= cols.len() {
        Ok((Seq::empty(), rv))
    } else if cols[i].2 is Rowed && incl[i] {
        let st = spec_read_value(rv, true, cols[i].1);
        match st.0 {
            Err(e) => Err(e),
            Ok(v) => match spec_read_row(st.1, cols, incl, i + 1) {
                Err(e) => Err(e),
                Ok(t) => Ok((seq![Some(v)] + t.0, t.1)),
            },
        }
    } else {
        match spec_read_row(rv, cols, incl, i + 1) {
            Err(e) => Err(e),
            Ok(t) => Ok((seq![None::<PrimView>] + t.0, t.1)),
        }
    }
}

/// Reading a row only moves the row cursor, keeps the reader well
/// formed, and, on success, advances it by exactly the row's byte
/// width.
pub proof fn lemma_read_row_state(
    rv: ReaderView,
    cols: Seq<(Seq<u8>, ValueKind, ColumnStorageType, Option<bool>)>,
    incl: Seq<bool>,
    i: int,
)
    requires
        crate::reader::inv(rv),
        0 <= i <= cols.len(),
    ensures
        ({
            let res = spec_read_row(rv, cols, incl, i);
            match res {
                Ok(t) => {
                    &&& crate::reader::inv(t.1)
                    &&& t.1 == (ReaderView { row_pos: t.1.row_pos, ..rv })
                    &&& t.1.row_pos == rv.row_pos + spec_row_bytes(cols, incl, i)
                    &&& t.0.len() == cols.len() - i
                },
                Err(_) => true,
            }
        }),
    decreases cols.len() - i,
{
    if i >= cols.len() {
        assert(spec_read_row(rv, cols, incl, i) == Ok::<
            (Seq<Option<PrimView>>, ReaderView),
            ErrView,
        >((Seq::empty(), rv)));
        assert(rv =~= (ReaderView { row_pos: rv.row_pos, ..rv }));
    } else if cols[i].2 is Rowed && incl[i] {
        let st = spec_read_value(rv, true, cols[i].1);
        if st.0 is Ok {
            assert(crate::reader::inv(st.1));
            lemma_read_row_state(st.1, cols, incl, i + 1);
            if spec_read_row(st.1, cols, incl, i + 1) is Ok {
                let t = spec_read_row(st.1, cols, incl, i + 1)->Ok_0;
                assert(t.1 =~= (ReaderView { row_pos: t.1.row_pos, ..rv }));
            }
        }
    } else {
        lemma_read_row_state(rv, cols, incl, i + 1);
    }
}

/// All rows read until the row region is exhausted. A nonempty row
/// region beside a schema that stores no bytes per row cannot be
/// consumed and is a malformed table.
pub open spec fn spec_read_rows(
    rv: ReaderView,
    cols: Seq<(Seq<u8>, ValueKind, ColumnStorageType, Option<bool>)>,
    incl: Seq<bool>,
) -> Result<(Seq<Seq<Option<PrimView>>>, ReaderView), ErrView>
    decreases rv.rows.len() - rv.row_pos,
    when crate::reader::inv(rv)
    via spec_read_rows_decreases
{
    if rv.row_pos >= rv.rows.len() {
        Ok((Seq::empty(), rv))
    } else if spec_row_bytes(cols, incl, 0) <= 0 {
        Err(ErrView::MalformedHeader)
    } else {
        match spec_read_row(rv, cols, incl, 0) {
            Err(e) => Err(e),
            Ok(t) => match spec_read_rows(t.1, cols, incl) {
                Err(e) => Err(e),
                Ok(rest) => Ok((seq![t.0] + rest.0, rest.1)),
            },
        }
    }
}

#[via_fn]
proof fn spec_read_rows_decreases(
    rv: ReaderView,
    cols: Seq<(Seq<u8>, ValueKind, ColumnStorageType, Option<bool>)>,
    incl: Seq<bool>,
) {
    if rv.row_pos < rv.rows.len() && spec_row_bytes(cols, incl, 0) > 0 {
        lemma_read_row_state(rv, cols, incl, 0);
    }
}

/// The write context a read leaves behind: one entry per optional
/// rowed column among the first `i` columns, most recently recorded
/// first.
pub open spec fn spec_ctx_partial(
    cols: Seq<(Seq<u8>, ValueKind, ColumnStorageType, Option<bool>)>,
    incl: Seq<bool>,
    i: int,
) -> Seq<(Seq<u8>, bool)>
    decreases i,
    when 0 <= i <= cols.len()
{
    if i <= 0 {
        Seq::empty()
    } else if cols[i - 1].2 is Rowed && cols[i - 1].3 is Some {
        seq![(cols[i - 1].0, incl[i - 1])] + spec_ctx_partial(cols, incl, i - 1)
    } else {
        spec_ctx_partial(cols, incl, i - 1)
    }
}

/// The table a read of `s` against the description produces: the
/// parse, the table-name and field-count checks, the column
/// descriptors, and the rows.
pub open spec fn spec_table_read(
    name: Seq<u8>,
    cols: Seq<(Seq<u8>, ValueKind, ColumnStorageType, Option<bool>)>,
    s: Seq<u8>,
) -> Result<TableView, ErrView> {
    if !spec_parse_ok(s) {
        Err(spec_parse_err(s))
    } else {
        let rv = spec_reader_of(s);
        if cols.len() > 0xFFFF || rv.field_count != cols.len() || spec_lookup(
            rv.strings,
            rv.table_name_index,
        ) != Some(name) {
            Err(ErrView::WrongTableSchema)
        } else {
            match spec_read_columns(rv, cols, 0) {
                Err(e) => Err(e),
                Ok(t) => match spec_read_rows(t.2, cols, t.1) {
                    Err(e) => Err(e),
                    Ok(rr) => Ok(
                        TableView {
                            constants: t.0,
                            rows: rr.0,
                            context: spec_ctx_partial(cols, t.1, cols.len() as int),
                        },
                    ),
                },
            }
        }
    }
}

impl Table {
    /// Decodes a table against its description: parses the layout,
    /// checks the table name and field count, reads every column
    /// descriptor with its declared name, kind and storage, then every
    /// row, and records how optional rowed columns were stored.
    #[verifier::rlimit(100)]
    pub fn read(spec: &TableSpec, data: &[u8]) -> (r: Result<Table, Error>)
        ensures
            match r {
                Ok(t) => spec_table_read(spec.name@, spec_cols_view(spec.columns@), data@)
                    == Ok::<TableView, ErrView>(t@),
                Err(e) => spec_table_read(spec.name@, spec_cols_view(spec.columns@), data@)
                    == Err::<TableView, ErrView>(e@),
            },
    {
        let ghost colsv = spec_cols_view(spec.columns@);
        let mut reader = match Reader::new(data) {
            Ok(rd) => rd,
            Err(e) => {
                return Err(e);
            },
        };
        let ghost rv0 = reader@;
        let n = spec.columns.len();
        if n > 0xFFFF {
            return Err(Error::WrongTableSchema);
        }
        let fc = reader.field_count();
        if fc as usize != n {
            return Err(Error::WrongTableSchema);
        }
        let tname = reader.table_name();
        if !crate::bytes::bytes_eq(tname.as_slice(), spec.name.as_slice()) {
            return Err(Error::WrongTableSchema);
        }
        let ghost whole_cols = spec_read_columns(rv0, colsv, 0);
        let mut consts: Vec<Option<Primitive>> = Vec::new();
        let mut incl: Vec<bool> = Vec::new();
        let mut i: usize = 0;
        while i < n
            invariant
                i <= n,
                n <= 0xFFFF,
                n == spec.columns@.len(),
                colsv == spec_cols_view(spec.columns@),
                spec_parse_ok(data@),
                rv0 == spec_reader_of(data@),
                rv0.field_count == n,
                spec_lookup(rv0.strings, rv0.table_name_index) == Some(spec.name@),
                inv(reader@),
                whole_cols == spec_read_columns(rv0, colsv, 0),
                consts@.len() == i,
                incl@.len() == i,
                whole_cols matches Ok(t) ==> {
                    &&& spec_read_columns(reader@, colsv, i as int) matches Ok(t2)
                    &&& t.0 == spec_opt_seq_view(consts@) + t2.0
                    &&& t.1 == incl@ + t2.1
                    &&& t.2 == t2.2
                },
                whole_cols matches Err(e) ==> spec_read_columns(reader@, colsv, i as int)
                    == Err::<(Seq<Option<PrimView>>, Seq<bool>, ReaderView), ErrView>(e),
            decreases n - i,
        {
            let ghost prev_consts = consts@;
            let ghost prev_incl = incl@;
            let c = &spec.columns[i];
            proof {
                assert(colsv[i as int] == c@);
            }
            match c.storage {
                ColumnStorageType::Constant => {
                    let value = if c.optional.is_some() {
                        match reader.read_constant_column_opt(c.name.as_slice(), c.kind) {
                            Ok(v) => v,
                            Err(e) => {
                                return Err(e);
                            },
                        }
                    } else {
                        match reader.read_constant_column(c.name.as_slice(), c.kind) {
                            Ok(v) => Some(v),
                            Err(e) => {
                                return Err(e);
                            },
                        }
                    };
                    consts.push(value);
                    incl.push(true);
                },
                ColumnStorageType::Rowed => {
                    let b = if c.optional.is_some() {
                        match reader.read_rowed_column_opt(c.name.as_slice(), c.kind) {
                            Ok(b) => b,
                            Err(e) => {
                                return Err(e);
                            },
                        }
                    } else {
                        match reader.read_rowed_column(c.name.as_slice(), c.kind) {
                            Ok(_) => true,
                            Err(e) => {
                                return Err(e);
                            },
                        }
                    };
                    consts.push(None);
                    incl.push(b);
                },
            }
            proof {
                assert(spec_opt_seq_view(consts@) =~= spec_opt_seq_view(prev_consts).push(
                    spec_opt_view(consts@.last()),
                ));
                assert(incl@ =~= prev_incl.push(incl@.last()));
                if whole_cols is Ok {
                    let t = whole_cols->Ok_0;
                    let t2 = spec_read_columns(reader@, colsv, i + 1)->Ok_0;
                    assert_seqs_equal!(t.0 == spec_opt_seq_view(consts@) + t2.0);
                    assert_seqs_equal!(t.1 == incl@ + t2.1);
                }
            }
            i = i + 1;
        }
        let ghost rv1 = reader@;
        proof {
            assert(whole_cols == Ok::<(Seq<Option<PrimView>>, Seq<bool>, ReaderView), ErrView>(
                (spec_opt_seq_view(consts@), incl@, rv1),
            )) by {
                if whole_cols is Ok {
                    let t = whole_cols->Ok_0;
                    assert_seqs_equal!(t.0 == spec_opt_seq_view(consts@));
                    assert_seqs_equal!(t.1 == incl@);
                }
            }
        }
        // The row geometry the included columns imply.
        let mut width: u64 = 0;
        let mut i: usize = 0;
        while i < n
            invariant
                i <= n,
                n <= 0xFFFF,
                n == spec.columns@.len(),
                colsv == spec_cols_view(spec.columns@),
                incl@.len() == n,
                width + spec_row_bytes(colsv, incl@, i as int) == spec_row_bytes(
                    colsv,
                    incl@,
                    0,
                ),
                width <= 8 * i,
            decreases n - i,
        {
            let c = &spec.columns[i];
            proof {
                assert(colsv[i as int] == c@);
            }
            if matches!(c.storage, ColumnStorageType::Rowed) && incl[i] {
                width = width + crate::kinds::utf_size_of(c.kind) as u64;
            }
            i = i + 1;
        }
        let ghost whole_rows = spec_read_rows(rv1, colsv, incl@);
        let mut rows: Vec<Vec<Option<Primitive>>> = Vec::new();
        if width == 0 {
            if reader.more_row_data() {
                return Err(Error::MalformedHeader);
            }
        } else {
            while reader.more_row_data()
                invariant
                    width > 0,
                    width == spec_row_bytes(colsv, incl@, 0),
                    n <= 0xFFFF,
                    n == spec.columns@.len(),
                    colsv == spec_cols_view(spec.columns@),
                    spec_parse_ok(data@),
                    rv0 == spec_reader_of(data@),
                    rv0.field_count == n,
                    spec_lookup(rv0.strings, rv0.table_name_index) == Some(spec.name@),
                    inv(reader@),
                    incl@.len() == n,
                    spec_read_columns(rv0, colsv, 0) == Ok::<
                        (Seq<Option<PrimView>>, Seq<bool>, ReaderView),
                        ErrView,
                    >((spec_opt_seq_view(consts@), incl@, rv1)),
                    whole_rows == spec_read_rows(rv1, colsv, incl@),
                    whole_rows matches Ok(rr) ==> {
                        &&& spec_read_rows(reader@, colsv, incl@) matches Ok(rr2)
                        &&& rr.0 == rows@.map_values(
                            |r: Vec<Option<Primitive>>| spec_opt_seq_view(r@),
                        ) + rr2.0
                        &&& rr.1 == rr2.1
                    },
                    whole_rows matches Err(e) ==> spec_read_rows(reader@, colsv, incl@)
                        == Err::<(Seq<Seq<Option<PrimView>>>, ReaderView), ErrView>(e),
                decreases reader@.rows.len() - reader@.row_pos,
            {
                let ghost before = reader@;
                let ghost whole_row = spec_read_row(before, colsv, incl@, 0);
                let ghost whole_rows_here = spec_read_rows(before, colsv, incl@);
                let ghost prev_rows = rows@;
                proof {
                    assert(inv(before));
                    assert(before.row_pos < before.rows.len());
                    assert(spec_row_bytes(colsv, incl@, 0) > 0);
                    lemma_read_row_state(before, colsv, incl@, 0);
                    assert(whole_rows_here == (match whole_row {
                        Err(e) => Err::<(Seq<Seq<Option<PrimView>>>, ReaderView), ErrView>(e),
                        Ok(t) => match spec_read_rows(t.1, colsv, incl@) {
                            Err(e) => Err(e),
                            Ok(rest) => Ok((seq![t.0] + rest.0, rest.1)),
                        },
                    }));
                }
                let mut row_vals: Vec<Option<Primitive>> = Vec::new();
                let mut i: usize = 0;
                while i < n
                    invariant
                        i <= n,
                        n <= 0xFFFF,
                        n == spec.columns@.len(),
                        colsv == spec_cols_view(spec.columns@),
                        spec_parse_ok(data@),
                        rv0 == spec_reader_of(data@),
                        rv0.field_count == n,
                        spec_lookup(rv0.strings, rv0.table_name_index) == Some(spec.name@),
                        inv(reader@),
                        incl@.len() == n,
                        spec_read_columns(rv0, colsv, 0) == Ok::<
                            (Seq<Option<PrimView>>, Seq<bool>, ReaderView),
                            ErrView,
                        >((spec_opt_seq_view(consts@), incl@, rv1)),
                        whole_rows == spec_read_rows(rv1, colsv, incl@),
                        whole_row == spec_read_row(before, colsv, incl@, 0),
                        whole_rows_here == spec_read_rows(before, colsv, incl@),
                        whole_rows_here == (match whole_row {
                            Err(e) => Err::<(Seq<Seq<Option<PrimView>>>, ReaderView), ErrView>(
                                e,
                            ),
                            Ok(t) => match spec_read_rows(t.1, colsv, incl@) {
                                Err(e) => Err(e),
                                Ok(rest) => Ok((seq![t.0] + rest.0, rest.1)),
                            },
                        }),
                        whole_rows matches Ok(rr) ==> {
                            &&& whole_rows_here matches Ok(rr2)
                            &&& rr.0 == prev_rows.map_values(
                                |r: Vec<Option<Primitive>>| spec_opt_seq_view(r@),
                            ) + rr2.0
                            &&& rr.1 == rr2.1
                        },
                        whole_rows matches Err(e) ==> whole_rows_here == Err::<
                            (Seq<Seq<Option<PrimView>>>, ReaderView),
                            ErrView,
                        >(e),
                        prev_rows == rows@,
                        row_vals@.len() == i,
                        whole_row matches Ok(t) ==> {
                            &&& spec_read_row(reader@, colsv, incl@, i as int) matches Ok(t2)
                            &&& t.0 == spec_opt_seq_view(row_vals@) + t2.0
                            &&& t.1 == t2.1
                        },
                        whole_row matches Err(e) ==> spec_read_row(
                            reader@,
                            colsv,
                            incl@,
                            i as int,
                        ) == Err::<(Seq<Option<PrimView>>, ReaderView), ErrView>(e),
                    decreases n - i,
                {
                    let ghost prev_vals = row_vals@;
                    let c = &spec.columns[i];
                    proof {
                        assert(colsv[i as int] == c@);
                    }
                    if matches!(c.storage, ColumnStorageType::Rowed) && incl[i] {
                        match reader.read_value(true, c.kind) {
                            Ok(v) => {
                                row_vals.push(Some(v));
                            },
                            Err(e) => {
                                return Err(e);
                            },
                        }
                    } else {
                        row_vals.push(None);
                    }
                    proof {
                        assert(spec_opt_seq_view(row_vals@) =~= spec_opt_seq_view(
                            prev_vals,
                        ).push(spec_opt_view(row_vals@.last())));
                        if whole_row is Ok {
                            let t = whole_row->Ok_0;
                            let t2 = spec_read_row(reader@, colsv, incl@, i + 1)->Ok_0;
                            assert_seqs_equal!(t.0 == spec_opt_seq_view(row_vals@) + t2.0);
                        }
                    }
                    i = i + 1;
                }
                proof {
                    assert(whole_row == Ok::<(Seq<Option<PrimView>>, ReaderView), ErrView>((
                        spec_opt_seq_view(row_vals@),
                        reader@,
                    ))) by {
                        if whole_row is Ok {
                            let t = whole_row->Ok_0;
                            assert_seqs_equal!(t.0 == spec_opt_seq_view(row_vals@));
                        }
                    }
                    lemma_read_row_state(before, colsv, incl@, 0);
                }
                rows.push(row_vals);
                proof {
                    let ghost f = |r: Vec<Option<Primitive>>| spec_opt_seq_view(r@);
                    assert_seqs_equal!(
                        rows@.map_values(f)
                            == prev_rows.map_values(f).push(spec_opt_seq_view(rows@.last()@))
                    );
                    if whole_rows is Ok {
                        let rr = whole_rows->Ok_0;
                        let rr2 = spec_read_rows(reader@, colsv, incl@)->Ok_0;
                        assert_seqs_equal!(rr.0 == rows@.map_values(f) + rr2.0);
                    }
                }
            }
        }
        proof {
            assert(whole_rows == Ok::<(Seq<Seq<Option<PrimView>>>, ReaderView), ErrView>((
                rows@.map_values(|r: Vec<Option<Primitive>>| spec_opt_seq_view(r@)),
                reader@,
            ))) by {
                if whole_rows is Ok {
                    let rr = whole_rows->Ok_0;
                    let f = |r: Vec<Option<Primitive>>| spec_opt_seq_view(r@);
                    assert_seqs_equal!(rr.0 == rows@.map_values(f));
                }
            }
        }
        // Record how the optional rowed columns were stored.
        let mut context = WriteContext::new();
        let mut i: usize = 0;
        while i < n
            invariant
                i <= n,
                n == spec.columns@.len(),
                colsv == spec_cols_view(spec.columns@),
                incl@.len() == n,
                context@ == spec_ctx_partial(colsv, incl@, i as int),
            decreases n - i,
        {
            let c = &spec.columns[i];
            proof {
                assert(colsv[i as int] == c@);
            }
            if matches!(c.storage, ColumnStorageType::Rowed) && c.optional.is_some() {
                let name = crate::bytes::copy_range(c.name.as_slice(), 0, c.name.len());
                proof {
                    assert(name@ =~= c.name@);
                }
                context.set_inclusion_state(name, incl[i]);
            }
            i = i + 1;
        }
        let table = Table { constants: consts, rows, context };
        proof {
            assert(table@ =~= spec_table_read(spec.name@, colsv, data@)->Ok_0);
        }
        Ok(table)
    }
}

/// A row that writes successfully agrees with the inclusion flags: from
/// column `i` on, every optional rowed column's value presence equals
/// its flag.
pub proof fn lemma_write_row_ok_agrees(
    wv: WriterView,
    cols: Seq<(Seq<u8>, ValueKind, ColumnStorageType, Option<bool>)>,
    incl: Seq<bool>,
    row: Seq<Option<PrimView>>,
    i: int,
)
    requires
        0 <= i <= cols.len(),
        spec_write_row(wv, cols, incl, row, i).0 is Ok,
    ensures
        forall|j: int|
            i <= j < cols.len() && (#[trigger] cols[j]).2 is Rowed && cols[j].3 is Some
                ==> incl[j] == (row[j] is Some),
    decreases cols.len() - i,
{
    if i < cols.len() {
        if cols[i].2 is Rowed {
            if cols[i].3 is Some && incl[i] != (row[i] is Some) {
            } else if incl[i] {
                let st = spec_write_value(wv, true, row[i]->Some_0);
                lemma_write_row_ok_agrees(st->Some_0, cols, incl, row, i + 1);
            } else {
                lemma_write_row_ok_agrees(wv, cols, incl, row, i + 1);
            }
        } else {
            lemma_write_row_ok_agrees(wv, cols, incl, row, i + 1);
        }
    }
}

/// Rows that write successfully all agree with the inclusion flags,
/// from row `k` on.
pub proof fn lemma_write_rows_ok_agree(
    wv: WriterView,
    cols: Seq<(Seq<u8>, ValueKind, ColumnStorageType, Option<bool>)>,
    incl: Seq<bool>,
    rows: Seq<Seq<Option<PrimView>>>,
    k: int,
)
    requires
        0 <= k <= rows.len(),
        spec_write_rows(wv, cols, incl, rows, k).0 is Ok,
    ensures
        forall|m: int, j: int|
            k <= m < rows.len() && 0 <= j < cols.len() && (#[trigger] cols[j]).2 is Rowed
                && cols[j].3 is Some ==> incl[j] == ((#[trigger] rows[m][j]) is Some),
    decreases rows.len() - k,
{
    if k < rows.len() {
        let step = spec_write_row(wv, cols, incl, rows[k], 0);
        lemma_write_row_ok_agrees(wv, cols, incl, rows[k], 0);
        lemma_write_rows_ok_agree(step.1, cols, incl, rows, k + 1);
    }
}

/// An optional rowed column whose rows mix present and absent values
/// can never be written: where some row's presence disagrees with the
/// inclusion the first row (or the write context) establishes, the
/// write fails.
pub proof fn lemma_write_rejects_optional_conflict(
    name: Seq<u8>,
    cols: Seq<(Seq<u8>, ValueKind, ColumnStorageType, Option<bool>)>,
    tv: TableView,
    k: int,
    i: int,
)
    requires
        0 <= k < tv.rows.len(),
        0 <= i < cols.len(),
        cols[i].2 is Rowed,
        cols[i].3 is Some,
        (tv.rows[k][i] is Some) != spec_incl(cols, tv, i),
    ensures
        spec_table_write(name, cols, tv) is Err,
{
    let incl = Seq::new(cols.len(), |j: int| spec_incl(cols, tv, j));
    if cols.len() <= 0xFFFF {
        let s1 = spec_push_columns(spec_writer_init(name), cols, tv.constants, incl, 0);
        if s1.0 is Ok {
            let s2 = spec_write_rows(s1.1, cols, incl, tv.rows, 0);
            if s2.0 is Ok {
                lemma_write_rows_ok_agree(s1.1, cols, incl, tv.rows, 0);
                assert(incl[i] == (tv.rows[k][i] is Some));
                assert(false);
            }
        }
    }
}

} // verus!
