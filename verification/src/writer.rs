//! The table writer: accumulates column descriptors and row values into
//! growing buffers, deduplicates strings, appends blobs, and emits the
//! final binary layout with correct offsets.
//!
//! The string pool always opens with `<NULL>\0` at offset 0 followed by
//! the table name at offset 7, so the header's table-name reference is
//! fixed at 7.

use vstd::prelude::*;
use vstd::seq_lib::*;

use crate::error::{Error, ErrView};
use crate::kinds::{spec_value_tag, ValueKind};
use crate::prim::{spec_encode_prim, spec_prim_kind, Primitive, PrimView};
use crate::text::StringDedup;

verus! {

/// The inclusion state of optional rowed columns, kept beside a decoded
/// table so it can be written back out even when it has no rows to
/// carry that information.
#[derive(Debug)]
pub struct WriteContext {
    entries: Vec<(Vec<u8>, bool)>,
}

/// The recorded inclusion state of a column name: the most recently set
/// entry, if any.
pub open spec fn spec_ctx_find(entries: Seq<(Seq<u8>, bool)>, name: Seq<u8>) -> Option<bool>
    decreases entries.len(),
{
    if entries.len() == 0 {
        None
    } else if entries[0].0 == name {
        Some(entries[0].1)
    } else {
        spec_ctx_find(entries.skip(1), name)
    }
}

/// If the first `i` entries do not hold `name`, the find result is the
/// find result among the remaining entries.
pub proof fn lemma_ctx_find_skip(entries: Seq<(Seq<u8>, bool)>, name: Seq<u8>, i: int)
    requires
        0 <= i <= entries.len(),
        forall|j: int| 0 <= j < i ==> entries[j].0 != name,
    ensures
        spec_ctx_find(entries, name) == spec_ctx_find(entries.skip(i), name),
    decreases i,
{
    if i > 0 {
        assert(entries.skip(1).skip(i - 1) =~= entries.skip(i));
        lemma_ctx_find_skip(entries.skip(1), name, i - 1);
    } else {
        assert(entries.skip(0) =~= entries);
    }
}

impl View for WriteContext {
    type V = Seq<(Seq<u8>, bool)>;

    closed spec fn view(&self) -> Seq<(Seq<u8>, bool)> {
        self.entries@.map_values(|e: (Vec<u8>, bool)| (e.0@, e.1))
    }
}

impl WriteContext {
    /// Creates an empty write context.
    pub fn new() -> (r: WriteContext)
        ensures
            r@ == Seq::<(Seq<u8>, bool)>::empty(),
    {
        let r = WriteContext { entries: Vec::new() };
        proof {
            assert_seqs_equal!(r@ == Seq::<(Seq<u8>, bool)>::empty());
        }
        r
    }

    /// Whether the named column should be written as rowed (`true`) or
    /// as zero (`false`); a column with no recorded state is included.
    pub fn is_included(&self, column_name: &[u8]) -> (r: bool)
        ensures
            r == match spec_ctx_find(self@, column_name@) {
                Some(b) => b,
                None => true,
            },
    {
        let n = self.entries.len();
        let mut i: usize = 0;
        while i < n
            invariant
                i <= n,
                n == self.entries@.len(),
                forall|j: int| 0 <= j < i ==> self@[j].0 != column_name@,
            decreases n - i,
        {
            if crate::bytes::bytes_eq(self.entries[i].0.as_slice(), column_name) {
                proof {
                    lemma_ctx_find_skip(self@, column_name@, i as int);
                    assert(self@.skip(i as int)[0] == self@[i as int]);
                }
                return self.entries[i].1;
            }
            i = i + 1;
        }
        proof {
            lemma_ctx_find_skip(self@, column_name@, n as int);
            assert(self@.skip(n as int) =~= Seq::<(Seq<u8>, bool)>::empty());
        }
        true
    }

    /// Records the inclusion state of a column: `true` for rowed,
    /// `false` for zero.
    pub fn set_inclusion_state(&mut self, column_name: Vec<u8>, included: bool)
        ensures
            final(self)@ == seq![(column_name@, included)] + old(self)@,
    {
        self.entries.insert(0, (column_name, included));
        proof {
            assert_seqs_equal!(
                self@ == seq![(column_name@, included)] + old(self)@
            );
        }
    }
}

/// Spec-level state of a writer: the two growing regions, the string
/// deduplication table, the string and blob pools, and the number of
/// columns pushed.
#[verifier::ext_equal]
pub struct WriterView {
    pub cols: Seq<u8>,
    pub rows: Seq<u8>,
    pub dedup: Seq<(Seq<u8>, u32)>,
    pub sd: Seq<u8>,
    pub blobs: Seq<u8>,
    pub field_count: u16,
}

/// The string-pool entry `<NULL>` that every table's pool opens with.
pub open spec fn spec_null_name() -> Seq<u8> {
    seq![0x3Cu8, 0x4Eu8, 0x55u8, 0x4Cu8, 0x4Cu8, 0x3Eu8]
}

/// The writer state after one value write: the value's buffer appended
/// to the row or column region and the pools grown as the value's
/// encoding demands. `None` when a pool has outgrown the format's
/// 4-byte offsets.
pub open spec fn spec_write_value(wv: WriterView, rowed: bool, v: PrimView) -> Option<
    WriterView,
> {
    match spec_encode_prim(v, wv.dedup, wv.sd, wv.blobs) {
        Some(t) => Some(
            WriterView {
                cols: if rowed { wv.cols } else { wv.cols + t.3 },
                rows: if rowed { wv.rows + t.3 } else { wv.rows },
                dedup: t.0,
                sd: t.1,
                blobs: t.2,
                field_count: wv.field_count,
            },
        ),
        None => None,
    }
}

/// The writer state after pushing a constant column: the flag byte and
/// the name reference appended to the column region and, for a present
/// value, the value's buffer after them. An absent value (the optional
/// case) stores the zero flag and no value.
pub open spec fn spec_push_constant_column(
    wv: WriterView,
    name: Seq<u8>,
    kind: ValueKind,
    value: Option<PrimView>,
) -> (Result<(), ErrView>, WriterView) {
    if value matches Some(p) && spec_prim_kind(p) != kind {
        (Err(ErrView::ValueConversion(spec_prim_kind(value->Some_0), kind)), wv)
    } else {
        let flag = (if value is Some { 0x30u8 } else { 0x10u8 }) | spec_value_tag(kind);
        let wv1 = WriterView { cols: wv.cols + seq![flag], ..wv };
        match spec_write_value(wv1, false, PrimView::STR(name)) {
            None => (Err(ErrView::MalformedHeader), wv1),
            Some(wv2) => match value {
                None => (
                    Ok(()),
                    WriterView {
                        field_count: #[verifier::truncate] ((wv2.field_count + 1) as u16),
                        ..wv2
                    },
                ),
                Some(p) => match spec_write_value(wv2, false, p) {
                    None => (Err(ErrView::MalformedHeader), wv2),
                    Some(wv3) => (
                        Ok(()),
                        WriterView {
                            field_count: #[verifier::truncate] ((wv3.field_count + 1) as u16),
                            ..wv3
                        },
                    ),
                },
            },
        }
    }
}

/// The writer state after pushing a rowed column: the flag byte (rowed,
/// or zero when the column is excluded) and the name reference appended
/// to the column region; no value is stored here.
pub open spec fn spec_push_rowed_column(
    wv: WriterView,
    name: Seq<u8>,
    kind: ValueKind,
    included: bool,
) -> (Result<(), ErrView>, WriterView) {
    let flag = (if included { 0x50u8 } else { 0x10u8 }) | spec_value_tag(kind);
    let wv1 = WriterView { cols: wv.cols + seq![flag], ..wv };
    match spec_write_value(wv1, false, PrimView::STR(name)) {
        None => (Err(ErrView::MalformedHeader), wv1),
        Some(wv2) => (
            Ok(()),
            WriterView {
                field_count: #[verifier::truncate] ((wv2.field_count + 1) as u16),
                ..wv2
            },
        ),
    }
}

/// The number of zero bytes inserted before the blob pool: the pool is
/// pushed to the next 8-byte boundary, a full 8 bytes when the offset
/// is already aligned.
pub open spec fn spec_blob_padding(blob_offset: int) -> int {
    8 - (blob_offset % 8)
}

/// The finished table a writer emits for the given row geometry:
/// magic, total size, the secondary header with its offsets, then the
/// four regions with the blob pool's alignment padding.
pub open spec fn spec_emit(wv: WriterView, row_size: u16, row_count: u32) -> Result<
    Seq<u8>,
    ErrView,
> {
    if wv.rows.len() != row_size * row_count {
        Err(ErrView::MalformedHeader)
    } else {
        let ro = 24 + wv.cols.len();
        let so = ro + wv.rows.len();
        let bo0 = so + wv.sd.len();
        let pad = spec_blob_padding(bo0 as int);
        let bo = bo0 + pad;
        let ts = bo + wv.blobs.len();
        if ts > 0xFFFF_FFFF {
            Err(ErrView::MalformedHeader)
        } else {
            Ok(
                crate::reader::spec_magic() + crate::bytes::spec_u32_to_be(ts as u32)
                    + crate::bytes::spec_u32_to_be(ro as u32)
                    + crate::bytes::spec_u32_to_be(so as u32)
                    + crate::bytes::spec_u32_to_be(bo as u32)
                    + crate::bytes::spec_u32_to_be(7u32)
                    + crate::bytes::spec_u16_to_be(wv.field_count)
                    + crate::bytes::spec_u16_to_be(row_size)
                    + crate::bytes::spec_u32_to_be(row_count) + wv.cols + wv.rows + wv.sd
                    + Seq::new(pad as nat, |j: int| 0u8) + wv.blobs,
            )
        }
    }
}

/// Abstraction layer for writing UTF tables.
#[derive(Debug)]
pub struct Writer {
    column_data: Vec<u8>,
    row_data: Vec<u8>,
    strings: StringDedup,
    string_data: Vec<u8>,
    blobs: Vec<u8>,
    field_count: u16,
}

impl View for Writer {
    type V = WriterView;

    closed spec fn view(&self) -> WriterView {
        WriterView {
            cols: self.column_data@,
            rows: self.row_data@,
            dedup: self.strings@,
            sd: self.string_data@,
            blobs: self.blobs@,
            field_count: self.field_count,
        }
    }
}

impl Writer {
    /// Creates a writer for a table with the given name. The string
    /// pool opens with `<NULL>` at offset 0 and the table name at
    /// offset 7, both already deduplicated.
    pub fn new(table_name: &[u8]) -> (r: Writer)
        ensures
            r@.cols == Seq::<u8>::empty(),
            r@.rows == Seq::<u8>::empty(),
            r@.blobs == Seq::<u8>::empty(),
            r@.field_count == 0,
            r@.sd == spec_null_name() + seq![0u8] + table_name@ + seq![0u8],
            r@.dedup == seq![(spec_null_name(), 0u32), (table_name@, 7u32)],
    {
        let mut strings = StringDedup::new();
        let null_name: Vec<u8> = vec![0x3Cu8, 0x4Eu8, 0x55u8, 0x4Cu8, 0x4Cu8, 0x3Eu8];
        proof {
            assert_seqs_equal!(null_name@ == spec_null_name());
        }
        let mut string_data: Vec<u8> = Vec::new();
        crate::bytes::append_bytes(&mut string_data, null_name.as_slice());
        string_data.push(0u8);
        crate::bytes::append_bytes(&mut string_data, table_name);
        string_data.push(0u8);
        strings.add(null_name, 0);
        let name_copy = crate::bytes::copy_range(table_name, 0, table_name.len());
        proof {
            assert(name_copy@ =~= table_name@);
        }
        strings.add(name_copy, 7);
        let r = Writer {
            column_data: Vec::new(),
            row_data: Vec::new(),
            strings,
            string_data,
            blobs: Vec::new(),
            field_count: 0,
        };
        proof {
            assert_seqs_equal!(r@.sd == spec_null_name() + seq![0u8] + table_name@ + seq![0u8]);
            assert_seqs_equal!(
                r@.dedup == seq![(spec_null_name(), 0u32), (table_name@, 7u32)]
            );
        }
        r
    }

    /// Writes a value directly into the column or row region, growing
    /// the pools as its encoding demands.
    pub fn write_value(&mut self, rowed: bool, value: &Primitive) -> (r: Result<(), Error>)
        ensures
            match spec_write_value(old(self)@, rowed, value@) {
                Some(wv) => r is Ok && final(self)@ == wv,
                None => r matches Err(e) && e@ is MalformedHeader && final(self)@ == old(
                    self,
                )@,
            },
    {
        let buf = match crate::prim::encode_primitive(
            value,
            &mut self.strings,
            &mut self.string_data,
            &mut self.blobs,
        ) {
            Ok(buf) => buf,
            Err(e) => {
                return Err(e);
            },
        };
        if rowed {
            crate::bytes::append_bytes(&mut self.row_data, buf.as_slice());
        } else {
            crate::bytes::append_bytes(&mut self.column_data, buf.as_slice());
        }
        proof {
            assert(self@ =~= spec_write_value(old(self)@, rowed, value@)->Some_0);
        }
        Ok(())
    }

    fn push_constant_column_inner(
        &mut self,
        name: &[u8],
        kind: ValueKind,
        value: Option<&Primitive>,
    ) -> (r: Result<(), Error>)
        requires
            old(self)@.field_count < 0xFFFF,
        ensures
            ({
                let spec_value = match value {
                    Some(p) => Some(p@),
                    None => None::<PrimView>,
                };
                let outcome = spec_push_constant_column(old(self)@, name@, kind, spec_value);
                &&& final(self)@ == outcome.1
                &&& match r {
                    Ok(_) => outcome.0 is Ok,
                    Err(e) => outcome.0 == Err::<(), ErrView>(e@),
                }
            }),
    {
        if let Some(p) = value {
            let found = p.kind();
            if found != kind {
                return Err(Error::ValueConversion(found, kind));
            }
        }
        let storage: u8 = if value.is_some() { 0x30 } else { 0x10 };
        let flag = storage | kind.tag();
        self.column_data.push(flag);
        proof {
            assert(self@.cols =~= old(self)@.cols + seq![flag]);
            assert(self@ =~= (WriterView { cols: old(self)@.cols + seq![flag], ..old(self)@ }));
        }
        let name_value = Primitive::STR(crate::bytes::copy_range(name, 0, name.len()));
        proof {
            assert(name_value@ == PrimView::STR(name@)) by {
                assert(name@.subrange(0, name@.len() as int) =~= name@);
            }
        }
        match self.write_value(false, &name_value) {
            Ok(_) => {},
            Err(e) => {
                return Err(e);
            },
        }
        if let Some(p) = value {
            match self.write_value(false, p) {
                Ok(_) => {},
                Err(e) => {
                    return Err(e);
                },
            }
        }
        self.field_count = self.field_count + 1;
        Ok(())
    }

    /// Adds a constant column holding the given value.
    pub fn push_constant_column(&mut self, name: &[u8], value: &Primitive) -> (r: Result<
        (),
        Error,
    >)
        requires
            old(self)@.field_count < 0xFFFF,
        ensures
            ({
                let outcome = spec_push_constant_column(
                    old(self)@,
                    name@,
                    spec_prim_kind(value@),
                    Some(value@),
                );
                &&& final(self)@ == outcome.1
                &&& match r {
                    Ok(_) => outcome.0 is Ok,
                    Err(e) => outcome.0 == Err::<(), ErrView>(e@),
                }
            }),
    {
        let kind = value.kind();
        self.push_constant_column_inner(name, kind, Some(value))
    }

    /// Adds an optional constant column of the given kind: a present
    /// value is stored as a constant, an absent one as a zero column.
    pub fn push_constant_column_opt(
        &mut self,
        name: &[u8],
        kind: ValueKind,
        value: &Option<Primitive>,
    ) -> (r: Result<(), Error>)
        requires
            old(self)@.field_count < 0xFFFF,
        ensures
            ({
                let outcome = spec_push_constant_column(
                    old(self)@,
                    name@,
                    kind,
                    crate::prim::spec_opt_view(*value),
                );
                &&& final(self)@ == outcome.1
                &&& match r {
                    Ok(_) => outcome.0 is Ok,
                    Err(e) => outcome.0 == Err::<(), ErrView>(e@),
                }
            }),
    {
        match value {
            Some(p) => self.push_constant_column_inner(name, kind, Some(p)),
            None => self.push_constant_column_inner(name, kind, None),
        }
    }

    fn push_rowed_column_inner(
        &mut self,
        name: &[u8],
        kind: ValueKind,
        included: bool,
    ) -> (r: Result<(), Error>)
        requires
            old(self)@.field_count < 0xFFFF,
        ensures
            ({
                let outcome = spec_push_rowed_column(old(self)@, name@, kind, included);
                &&& final(self)@ == outcome.1
                &&& match r {
                    Ok(_) => outcome.0 is Ok,
                    Err(e) => outcome.0 == Err::<(), ErrView>(e@),
                }
            }),
    {
        let storage: u8 = if included { 0x50 } else { 0x10 };
        let flag = storage | kind.tag();
        self.column_data.push(flag);
        proof {
            assert(self@.cols =~= old(self)@.cols + seq![flag]);
            assert(self@ =~= (WriterView { cols: old(self)@.cols + seq![flag], ..old(self)@ }));
        }
        let name_value = Primitive::STR(crate::bytes::copy_range(name, 0, name.len()));
        proof {
            assert(name_value@ == PrimView::STR(name@)) by {
                assert(name@.subrange(0, name@.len() as int) =~= name@);
            }
        }
        match self.write_value(false, &name_value) {
            Ok(_) => {},
            Err(e) => {
                return Err(e);
            },
        }
        self.field_count = self.field_count + 1;
        Ok(())
    }

    /// Adds a rowed column of the given kind; its values arrive later,
    /// one per row, through `write_value`.
    pub fn push_rowed_column(&mut self, name: &[u8], kind: ValueKind) -> (r: Result<(), Error>)
        requires
            old(self)@.field_count < 0xFFFF,
        ensures
            ({
                let outcome = spec_push_rowed_column(old(self)@, name@, kind, true);
                &&& final(self)@ == outcome.1
                &&& match r {
                    Ok(_) => outcome.0 is Ok,
                    Err(e) => outcome.0 == Err::<(), ErrView>(e@),
                }
            }),
    {
        self.push_rowed_column_inner(name, kind, true)
    }

    /// Adds an optional rowed column of the given kind: stored as rowed
    /// when `included`, as a zero column otherwise.
    pub fn push_rowed_column_opt(&mut self, name: &[u8], kind: ValueKind, included: bool) -> (r:
        Result<(), Error>)
        requires
            old(self)@.field_count < 0xFFFF,
        ensures
            ({
                let outcome = spec_push_rowed_column(old(self)@, name@, kind, included);
                &&& final(self)@ == outcome.1
                &&& match r {
                    Ok(_) => outcome.0 is Ok,
                    Err(e) => outcome.0 == Err::<(), ErrView>(e@),
                }
            }),
    {
        self.push_rowed_column_inner(name, kind, included)
    }

    /// Verifies that the accumulated row data is exactly
    /// `row_size * row_count` bytes and emits the final table: headers,
    /// column and row regions, string pool, alignment padding, blob
    /// pool.
    pub fn end(&self, row_size: u16, row_count: u32) -> (r: Result<Vec<u8>, Error>)
        ensures
            match r {
                Ok(out) => spec_emit(self@, row_size, row_count) == Ok::<Seq<u8>, ErrView>(
                    out@,
                ),
                Err(e) => spec_emit(self@, row_size, row_count) == Err::<Seq<u8>, ErrView>(
                    e@,
                ),
            },
    {
        proof {
            assert(row_size * row_count <= 0xFFFF * 0xFFFF_FFFF) by (nonlinear_arith)
                requires
                    0 <= row_size <= 0xFFFF,
                    0 <= row_count <= 0xFFFF_FFFF,
            ;
        }
        if self.row_data.len() as u64 != (row_size as u64) * (row_count as u64) {
            return Err(Error::MalformedHeader);
        }
        let cols_len = self.column_data.len() as u64;
        if cols_len > 0xFFFF_FFFF - 24 {
            return Err(Error::MalformedHeader);
        }
        let ro = 24 + cols_len;
        let so = ro + self.row_data.len() as u64;
        if so > 0xFFFF_FFFF {
            return Err(Error::MalformedHeader);
        }
        if self.string_data.len() as u64 > 0xFFFF_FFFF {
            return Err(Error::MalformedHeader);
        }
        let bo0 = so + self.string_data.len() as u64;
        let pad = 8 - (bo0 % 8);
        let bo = bo0 + pad;
        if self.blobs.len() as u64 > 0xFFFF_FFFF {
            return Err(Error::MalformedHeader);
        }
        let ts = bo + self.blobs.len() as u64;
        if ts > 0xFFFF_FFFF {
            return Err(Error::MalformedHeader);
        }
        let mut out: Vec<u8> = Vec::new();
        out.push(0x40);
        out.push(0x55);
        out.push(0x54);
        out.push(0x46);
        proof {
            assert_seqs_equal!(out@ == crate::reader::spec_magic());
        }
        crate::bytes::push_u32_be(&mut out, ts as u32);
        crate::bytes::push_u32_be(&mut out, ro as u32);
        crate::bytes::push_u32_be(&mut out, so as u32);
        crate::bytes::push_u32_be(&mut out, bo as u32);
        crate::bytes::push_u32_be(&mut out, 7u32);
        crate::bytes::push_u16_be(&mut out, self.field_count);
        crate::bytes::push_u16_be(&mut out, row_size);
        crate::bytes::push_u32_be(&mut out, row_count);
        crate::bytes::append_bytes(&mut out, self.column_data.as_slice());
        crate::bytes::append_bytes(&mut out, self.row_data.as_slice());
        crate::bytes::append_bytes(&mut out, self.string_data.as_slice());
        crate::bytes::push_zeroes(&mut out, pad as usize);
        crate::bytes::append_bytes(&mut out, self.blobs.as_slice());
        proof {
            assert(out@ =~= spec_emit(self@, row_size, row_count)->Ok_0);
        }
        Ok(out)
    }
}

} // verus!
