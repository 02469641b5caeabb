//! The round trip: a table written by the writer is read back by the
//! reader as the same table.
//!
//! The proof follows the codec's own layering. The string pool a writer
//! lays out scans back into exactly its deduplication entries, and each
//! encoded value decodes, against the final pools, to the value that
//! was encoded; on top of that, the column and row folds of the reader
//! retrace the writer's folds step by step.

use vstd::prelude::*;
use vstd::seq_lib::*;

use crate::bytes::{spec_u32_from_be, spec_u32_to_be};
use crate::kinds::{spec_utf_size_of, ColumnStorageType, ValueKind};
use crate::error::ErrView;
use crate::prim::{spec_decode_prim, spec_encode_prim, spec_prim_kind, PrimView};
use crate::reader::{
    spec_advance, spec_read_constant_column, spec_read_rowed_column, spec_read_value,
    ReaderView,
};
use crate::kinds::spec_value_kind_of_tag;
use crate::table::{spec_cols_view, spec_incl, spec_push_columns, spec_read_columns, spec_read_row, spec_read_rows, spec_row_bytes, spec_table_read, spec_table_write, spec_write_row, spec_write_rows, spec_writer_init, wf_table, TableView};
use crate::writer::{spec_blob_padding, spec_emit, spec_push_constant_column, spec_push_rowed_column, spec_write_value};
use crate::text::{
    has_no_nul, is_utf8, spec_dedup_find, spec_entries_no_nul, spec_entries_pool,
    spec_entries_swapped, spec_entries_utf8, spec_offsets_from,
};
use crate::writer::WriterView;

verus! {

/// The writer's string pool is exactly its deduplication entries laid
/// out from the start, with sound offsets.
pub open spec fn dedup_wf(wv: WriterView) -> bool {
    &&& spec_offsets_from(wv.dedup, 0)
    &&& wv.sd == spec_entries_pool(wv.dedup)
}

/// One writer state's pools extend another's: entries and bytes are
/// only ever appended.
pub open spec fn pools_extend(a: WriterView, b: WriterView) -> bool {
    &&& a.dedup.is_prefix_of(b.dedup)
    &&& a.sd.is_prefix_of(b.sd)
    &&& a.blobs.is_prefix_of(b.blobs)
}

/// A found content is a member of the deduplication table, with the
/// offset the find returned.
pub proof fn lemma_dedup_find_mem(entries: Seq<(Seq<u8>, u32)>, s: Seq<u8>)
    requires
        spec_dedup_find(entries, s) is Some,
    ensures
        exists|k: int|
            0 <= k < entries.len() && (#[trigger] entries[k]) == (
                s,
                spec_dedup_find(entries, s)->Some_0,
            ),
    decreases entries.len(),
{
    if entries.len() > 0 {
        if entries[0].0 == s {
            assert(entries[0] == (s, spec_dedup_find(entries, s)->Some_0));
        } else {
            lemma_dedup_find_mem(entries.skip(1), s);
            let k = choose|k: int|
                0 <= k < entries.skip(1).len() && (#[trigger] entries.skip(1)[k]) == (
                    s,
                    spec_dedup_find(entries.skip(1), s)->Some_0,
                );
            assert(entries[k + 1] == entries.skip(1)[k]);
        }
    }
}

/// Encoding a primitive only appends to the pools, and keeps the
/// string pool the layout of the deduplication entries.
pub proof fn lemma_encode_prim_preserves(
    v: PrimView,
    dedup: Seq<(Seq<u8>, u32)>,
    sd: Seq<u8>,
    blobs: Seq<u8>,
)
    requires
        spec_offsets_from(dedup, 0),
        sd == spec_entries_pool(dedup),
    ensures
        spec_encode_prim(v, dedup, sd, blobs) matches Some(t) ==> {
            &&& spec_offsets_from(t.0, 0)
            &&& t.1 == spec_entries_pool(t.0)
            &&& dedup.is_prefix_of(t.0)
            &&& sd.is_prefix_of(t.1)
            &&& blobs.is_prefix_of(t.2)
            &&& t.3.len() == spec_utf_size_of(spec_prim_kind(v))
        },
{
    match v {
        PrimView::STR(s) => {
            if spec_dedup_find(dedup, s) is None && sd.len() <= 0xFFFF_FFFF {
                let e = (s, sd.len() as u32);
                crate::text::lemma_offsets_push(dedup, 0, e);
                crate::text::lemma_entries_pool_push(dedup, e);
                assert(dedup.is_prefix_of(dedup.push(e))) by {
                    assert(dedup.push(e).subrange(0, dedup.len() as int) =~= dedup);
                }
                assert(sd.is_prefix_of(sd + s + seq![0u8])) by {
                    assert((sd + s + seq![0u8]).subrange(0, sd.len() as int) =~= sd);
                }
                assert(sd + s + seq![0u8] == spec_entries_pool(dedup.push(e)));
            }
        },
        PrimView::BLOB(b) => {
            if blobs.len() <= 0xFFFF_FFFF && b.len() <= 0xFFFF_FFFF {
                assert(blobs.is_prefix_of(blobs + b)) by {
                    assert((blobs + b).subrange(0, blobs.len() as int) =~= blobs);
                }
            }
        },
        _ => {
            assert(dedup.is_prefix_of(dedup)) by {
                assert(dedup.subrange(0, dedup.len() as int) =~= dedup);
            }
            assert(sd.is_prefix_of(sd)) by {
                assert(sd.subrange(0, sd.len() as int) =~= sd);
            }
            assert(blobs.is_prefix_of(blobs)) by {
                assert(blobs.subrange(0, blobs.len() as int) =~= blobs);
            }
        },
    }
}

/// An encoded buffer decodes back to its value against any later pool
/// state: the deduplication entries and blob bytes present at encoding
/// time survive every later append.
pub proof fn lemma_encode_prim_recoverable(
    v: PrimView,
    dedup: Seq<(Seq<u8>, u32)>,
    sd: Seq<u8>,
    blobs: Seq<u8>,
    dedup_final: Seq<(Seq<u8>, u32)>,
    blobs_final: Seq<u8>,
)
    requires
        spec_offsets_from(dedup, 0),
        sd == spec_entries_pool(dedup),
        spec_encode_prim(v, dedup, sd, blobs) matches Some(t) && t.0.is_prefix_of(dedup_final)
            && t.2.is_prefix_of(blobs_final),
        spec_offsets_from(dedup_final, 0),
    ensures
        spec_encode_prim(v, dedup, sd, blobs) matches Some(t) ==> spec_decode_prim(
            spec_prim_kind(v),
            t.3,
            spec_entries_swapped(dedup_final),
            blobs_final,
        ) == Some(v),
{
    let t = spec_encode_prim(v, dedup, sd, blobs)->Some_0;
    crate::bytes::lemma_u16_be_roundtrip();
    crate::bytes::lemma_u32_be_roundtrip();
    crate::bytes::lemma_u64_be_roundtrip();
    match v {
        PrimView::STR(s) => {
            let off = spec_u32_from_be(t.3);
            if spec_dedup_find(dedup, s) is Some {
                let found = spec_dedup_find(dedup, s)->Some_0;
                assert(off == found);
                lemma_dedup_find_mem(dedup, s);
                let k = choose|k: int|
                    0 <= k < dedup.len() && (#[trigger] dedup[k]) == (s, found);
                assert(dedup_final[k] == dedup[k]) by {
                    assert(dedup.is_prefix_of(dedup_final));
                    assert(dedup_final.subrange(0, dedup.len() as int)[k] == dedup_final[k]);
                }
                crate::text::lemma_lookup_laid_out(dedup_final, 0, k);
            } else {
                let k = dedup.len() as int;
                assert(t.0[k] == (s, sd.len() as u32));
                assert(off == sd.len() as u32);
                assert(dedup_final[k] == t.0[k]) by {
                    assert(t.0.is_prefix_of(dedup_final));
                    assert(dedup_final.subrange(0, t.0.len() as int)[k] == dedup_final[k]);
                }
                crate::text::lemma_lookup_laid_out(dedup_final, 0, k);
            }
        },
        PrimView::BLOB(b) => {
            let off = blobs.len() as u32;
            let len = b.len() as u32;
            assert(t.3.subrange(0, 4) =~= spec_u32_to_be(off));
            assert(t.3.subrange(4, 8) =~= spec_u32_to_be(len));
            assert(blobs_final.subrange(off as int, off + len) =~= b) by {
                assert(t.2.is_prefix_of(blobs_final));
                assert(forall|m: int|
                    0 <= m < t.2.len() ==> blobs_final.subrange(0, t.2.len() as int)[m]
                        == #[trigger] blobs_final[m]);
                assert(forall|m: int| 0 <= m < b.len() ==> t.2[blobs.len() + m] == b[m]);
            }
        },
        PrimView::I8(x) => {
            assert((#[verifier::truncate] (x as u8)) as i8 == x) by (bit_vector);
            assert(t.3[0] == #[verifier::truncate] (x as u8));
        },
        PrimView::I16(x) => {
            assert((#[verifier::truncate] (x as u16)) as i16 == x) by (bit_vector);
        },
        PrimView::I32(x) => {
            assert((#[verifier::truncate] (x as u32)) as i32 == x) by (bit_vector);
        },
        PrimView::I64(x) => {
            assert((#[verifier::truncate] (x as u64)) as i64 == x) by (bit_vector);
        },
        _ => {},
    }
}

/// Prefixes compose.
pub proof fn lemma_prefix_trans<T>(a: Seq<T>, b: Seq<T>, c: Seq<T>)
    requires
        a.is_prefix_of(b),
        b.is_prefix_of(c),
    ensures
        a.is_prefix_of(c),
{
    assert(c.subrange(0, a.len() as int) =~= a) by {
        assert(forall|m: int|
            0 <= m < b.len() ==> c.subrange(0, b.len() as int)[m] == #[trigger] c[m]);
        assert(forall|m: int|
            0 <= m < a.len() ==> b.subrange(0, a.len() as int)[m] == #[trigger] b[m]);
    }
}

/// A slice of a prefix is the same slice of the longer sequence.
pub proof fn lemma_prefix_seg(a: Seq<u8>, b: Seq<u8>, lo: int, hi: int)
    requires
        a.is_prefix_of(b),
        0 <= lo <= hi <= a.len(),
    ensures
        b.subrange(lo, hi) == a.subrange(lo, hi),
{
    assert(b.subrange(lo, hi) =~= a.subrange(lo, hi)) by {
        assert(forall|m: int|
            0 <= m < a.len() ==> b.subrange(0, a.len() as int)[m] == #[trigger] b[m]);
    }
}

/// The two nibbles of a column flag byte recover the storage tag and
/// the value tag it was built from.
pub proof fn lemma_flag_nibbles(st: u8, tag: u8)
    requires
        st == 0x10 || st == 0x30 || st == 0x50,
        tag <= 0x0B,
    ensures
        (st | tag) & 0x0f == tag,
        (st | tag) & 0xf0 == st,
{
    assert((st | tag) & 0x0f == tag && (st | tag) & 0xf0 == st) by (bit_vector)
        requires
            st == 0x10 || st == 0x30 || st == 0x50,
            tag <= 0x0B,
    ;
}

/// Reading a fixed-width value whose encoded buffer sits at the cursor
/// yields the encoded value and advances past it.
pub proof fn lemma_read_encoded_value(rv: ReaderView, row: bool, kind: ValueKind, v: PrimView)
    requires
        ({
            let b = if row { rv.rows } else { rv.cols };
            let p = if row { rv.row_pos } else { rv.col_pos };
            let w = spec_utf_size_of(kind);
            &&& 0 <= p
            &&& p + w <= b.len()
            &&& spec_decode_prim(kind, b.subrange(p, p + w), rv.strings, rv.blobs) == Some(v)
        }),
    ensures
        spec_read_value(rv, row, kind) == (
            Ok::<PrimView, ErrView>(v),
            spec_advance(rv, row, spec_utf_size_of(kind)),
        ),
{
}

/// The value tag of every kind fits in the low nibble.
pub proof fn lemma_value_tag_bound(kind: ValueKind)
    ensures
        crate::kinds::spec_value_tag(kind) <= 0x0B,
{
}

/// Reading the column descriptors back from the buffer the writer's
/// column fold produced yields exactly the constants and inclusion
/// flags that went in, and leaves the cursor at the end of the region.
#[verifier::rlimit(100)]
#[verifier::spinoff_prover]
pub proof fn lemma_columns_readback(
    cols: Seq<(Seq<u8>, ValueKind, ColumnStorageType, Option<bool>)>,
    consts: Seq<Option<PrimView>>,
    incl: Seq<bool>,
    i: int,
    wv: WriterView,
    wvn: WriterView,
    dedup_final: Seq<(Seq<u8>, u32)>,
    blobs_final: Seq<u8>,
    rv: ReaderView,
)
    requires
        0 <= i <= cols.len(),
        consts.len() == cols.len(),
        incl.len() == cols.len(),
        dedup_wf(wv),
        spec_push_columns(wv, cols, consts, incl, i) == (Ok::<(), ErrView>(()), wvn),
        forall|j: int|
            i <= j < cols.len() && (#[trigger] cols[j]).2 is Constant && cols[j].3 is None
                ==> consts[j] is Some,
        forall|j: int|
            i <= j < cols.len() && (#[trigger] cols[j]).2 is Rowed && cols[j].3 is None
                ==> incl[j],
        wvn.dedup.is_prefix_of(dedup_final),
        spec_offsets_from(dedup_final, 0),
        wvn.blobs.is_prefix_of(blobs_final),
        rv.cols == wvn.cols,
        rv.col_pos == wv.cols.len(),
        rv.strings == spec_entries_swapped(dedup_final),
        rv.blobs == blobs_final,
    ensures
        dedup_wf(wvn),
        pools_extend(wv, wvn),
        wv.cols.is_prefix_of(wvn.cols),
        wvn.rows == wv.rows,
        crate::table::spec_read_columns(rv, cols, i) matches Ok(t) && t.2 == (ReaderView {
            col_pos: wvn.cols.len() as int,
            ..rv
        }) && t.0 == Seq::new(
            (cols.len() - i) as nat,
            |j: int| if cols[i + j].2 is Constant { consts[i + j] } else { None },
        ) && t.1 == Seq::new(
            (cols.len() - i) as nat,
            |j: int| if cols[i + j].2 is Constant { true } else { incl[i + j] },
        ),
    decreases cols.len() - i,
{
    if i >= cols.len() {
        assert(wvn == wv);
        assert(wv.dedup.is_prefix_of(wv.dedup) && wv.sd.is_prefix_of(wv.sd)
            && wv.blobs.is_prefix_of(wv.blobs) && wv.cols.is_prefix_of(wv.cols)) by {
            assert(wv.dedup.subrange(0, wv.dedup.len() as int) =~= wv.dedup);
            assert(wv.sd.subrange(0, wv.sd.len() as int) =~= wv.sd);
            assert(wv.blobs.subrange(0, wv.blobs.len() as int) =~= wv.blobs);
            assert(wv.cols.subrange(0, wv.cols.len() as int) =~= wv.cols);
        }
        let t = crate::table::spec_read_columns(rv, cols, i)->Ok_0;
        assert(t.2 =~= (ReaderView { col_pos: wvn.cols.len() as int, ..rv }));
        assert(t.0 =~= Seq::new(
            (cols.len() - i) as nat,
            |j: int| if cols[i + j].2 is Constant { consts[i + j] } else { None },
        ));
        assert(t.1 =~= Seq::new(
            (cols.len() - i) as nat,
            |j: int| if cols[i + j].2 is Constant { true } else { incl[i + j] },
        ));
    } else {
        let c = cols[i];
        let tag = crate::kinds::spec_value_tag(c.1);
        lemma_value_tag_bound(c.1);
        let p = wv.cols.len() as int;
        // Unfold the writer's step for column i.
        let step = if c.2 is Constant {
            spec_push_constant_column(wv, c.0, c.1, consts[i])
        } else {
            spec_push_rowed_column(wv, c.0, c.1, incl[i])
        };
        assert(step.0 is Ok);
        let wv1 = step.1;
        assert(spec_push_columns(wv1, cols, consts, incl, i + 1) == (Ok::<(), ErrView>(()), wvn));
        // The storage nibble of the flag byte this column wrote.
        let st: u8 = if c.2 is Constant {
            if consts[i] is Some { 0x30 } else { 0x10 }
        } else {
            if incl[i] { 0x50 } else { 0x10 }
        };
        let flag = st | tag;
        lemma_flag_nibbles(st, tag);
        let wv_a = WriterView { cols: wv.cols + seq![flag], ..wv };
        let t1 = spec_encode_prim(PrimView::STR(c.0), wv.dedup, wv.sd, wv.blobs);
        assert(t1 is Some);
        let n1 = t1->Some_0;
        lemma_encode_prim_preserves(PrimView::STR(c.0), wv.dedup, wv.sd, wv.blobs);
        assert(n1.3.len() == 4);
        let wv_b = WriterView {
            cols: wv_a.cols + n1.3,
            dedup: n1.0,
            sd: n1.1,
            blobs: n1.2,
            ..wv_a
        };
        assert(spec_write_value(wv_a, false, PrimView::STR(c.0))->Some_0 =~= wv_b);
        // The state after this whole column, and the value buffer if any.
        if c.2 is Constant && consts[i] is Some {
            let pv = consts[i]->Some_0;
            assert(spec_prim_kind(pv) == c.1);
            let t2 = spec_encode_prim(pv, n1.0, n1.1, n1.2);
            assert(t2 is Some);
            let n2 = t2->Some_0;
            lemma_encode_prim_preserves(pv, n1.0, n1.1, n1.2);
            let wv_c = WriterView {
                cols: wv_b.cols + n2.3,
                dedup: n2.0,
                sd: n2.1,
                blobs: n2.2,
                ..wv_b
            };
            assert(spec_write_value(wv_b, false, pv)->Some_0 =~= wv_c);
            assert(wv1 =~= (WriterView {
                field_count: #[verifier::truncate] ((wv_c.field_count + 1) as u16),
                ..wv_c
            }));
        } else {
            assert(wv1 =~= (WriterView {
                field_count: #[verifier::truncate] ((wv_b.field_count + 1) as u16),
                ..wv_b
            }));
        }
        // Recurse over the remaining columns.
        let rv1 = ReaderView { col_pos: wv1.cols.len() as int, ..rv };
        lemma_columns_readback(
            cols,
            consts,
            incl,
            i + 1,
            wv1,
            wvn,
            dedup_final,
            blobs_final,
            rv1,
        );
        let rest = crate::table::spec_read_columns(rv1, cols, i + 1)->Ok_0;
        // Pool chains down to the final pools.
        assert(wv.dedup.is_prefix_of(wv1.dedup) && wv.sd.is_prefix_of(wv1.sd)
            && wv.blobs.is_prefix_of(wv1.blobs));
        lemma_prefix_trans(wv.dedup, wv1.dedup, wvn.dedup);
        lemma_prefix_trans(wv.sd, wv1.sd, wvn.sd);
        lemma_prefix_trans(wv.blobs, wv1.blobs, wvn.blobs);
        lemma_prefix_trans(wv.dedup, wvn.dedup, dedup_final);
        lemma_prefix_trans(wv.blobs, wvn.blobs, blobs_final);
        assert(n1.0.is_prefix_of(dedup_final)) by {
            lemma_prefix_trans(n1.0, wv1.dedup, wvn.dedup);
            lemma_prefix_trans(n1.0, wvn.dedup, dedup_final);
        }
        assert(n1.2.is_prefix_of(blobs_final)) by {
            lemma_prefix_trans(n1.2, wv1.blobs, wvn.blobs);
            lemma_prefix_trans(n1.2, wvn.blobs, blobs_final);
        }
        // The bytes of this column inside the final region.
        assert(wv.cols.is_prefix_of(wvn.cols)) by {
            lemma_prefix_trans(wv.cols, wv1.cols, wvn.cols);
        }
        assert(rv.cols.subrange(p, p + 1) =~= seq![flag]) by {
            lemma_prefix_seg(wv1.cols, wvn.cols, p, p + 1);
        }
        assert(rv.cols.subrange(p + 1, p + 5) =~= n1.3) by {
            lemma_prefix_seg(wv1.cols, wvn.cols, p + 1, p + 5);
            assert(forall|m: int|
                0 <= m < n1.3.len() ==> wv1.cols[p + 1 + m] == #[trigger] n1.3[m]);
        }
        // Read the flag byte and the name.
        assert(spec_decode_prim(
            ValueKind::U8,
            rv.cols.subrange(p, p + 1),
            rv.strings,
            rv.blobs,
        ) == Some(PrimView::U8(flag)));
        lemma_read_encoded_value(rv, false, ValueKind::U8, PrimView::U8(flag));
        let rv_f = spec_advance(rv, false, 1);
        lemma_encode_prim_recoverable(
            PrimView::STR(c.0),
            wv.dedup,
            wv.sd,
            wv.blobs,
            dedup_final,
            blobs_final,
        );
        assert(spec_decode_prim(ValueKind::STR, n1.3, rv.strings, rv.blobs) == Some(
            PrimView::STR(c.0),
        ));
        lemma_read_encoded_value(rv_f, false, ValueKind::STR, PrimView::STR(c.0));
        let rv_nm = spec_advance(rv_f, false, 4);
        assert(rv_nm.col_pos == p + 5);
        // The descriptor's checks pass: right name, right type nibble.
        if c.2 is Constant {
            if consts[i] is Some {
                let pv = consts[i]->Some_0;
                let n2 = spec_encode_prim(pv, n1.0, n1.1, n1.2)->Some_0;
                let w = spec_utf_size_of(c.1);
                assert(rv.cols.subrange(p + 5, p + 5 + w) =~= n2.3) by {
                    lemma_prefix_seg(wv1.cols, wvn.cols, p + 5, p + 5 + w);
                    assert(forall|m: int|
                        0 <= m < n2.3.len() ==> wv1.cols[p + 5 + m] == #[trigger] n2.3[m]);
                }
                assert(n2.0.is_prefix_of(dedup_final)) by {
                    lemma_prefix_trans(n2.0, wvn.dedup, dedup_final);
                }
                assert(n2.2.is_prefix_of(blobs_final)) by {
                    lemma_prefix_trans(n2.2, wvn.blobs, blobs_final);
                }
                lemma_encode_prim_recoverable(
                    pv,
                    n1.0,
                    n1.1,
                    n1.2,
                    dedup_final,
                    blobs_final,
                );
                lemma_read_encoded_value(rv_nm, false, c.1, pv);
                assert(spec_read_constant_column(rv, c.0, c.1, c.3 is Some) == (
                    Ok::<Option<PrimView>, ErrView>(Some(pv)),
                    rv1,
                )) by {
                    assert(spec_advance(rv_nm, false, w) =~= rv1);
                }
            } else {
                assert(c.3 is Some);
                assert(spec_read_constant_column(rv, c.0, c.1, true) == (
                    Ok::<Option<PrimView>, ErrView>(None),
                    rv1,
                )) by {
                    assert(rv_nm =~= rv1);
                }
            }
        } else {
            if !incl[i] {
                assert(c.3 is Some);
            }
            assert(spec_read_rowed_column(rv, c.0, c.1, c.3 is Some) == (
                Ok::<bool, ErrView>(incl[i]),
                rv1,
            )) by {
                assert(rv_nm =~= rv1);
            }
        }
        // Assemble this column's entry with the rest.
        let t = crate::table::spec_read_columns(rv, cols, i)->Ok_0;
        assert(t.0 =~= Seq::new(
            (cols.len() - i) as nat,
            |j: int| if cols[i + j].2 is Constant { consts[i + j] } else { None },
        ));
        assert(t.1 =~= Seq::new(
            (cols.len() - i) as nat,
            |j: int| if cols[i + j].2 is Constant { true } else { incl[i + j] },
        ));
    }
}

/// The width of a row depends on the inclusion flags only at rowed
/// columns.
pub proof fn lemma_row_bytes_incl_agnostic(
    cols: Seq<(Seq<u8>, ValueKind, ColumnStorageType, Option<bool>)>,
    a: Seq<bool>,
    b: Seq<bool>,
    i: int,
)
    requires
        0 <= i <= cols.len(),
        forall|j: int| 0 <= j < cols.len() && (#[trigger] cols[j]).2 is Rowed ==> a[j] == b[j],
    ensures
        spec_row_bytes(cols, a, i) == spec_row_bytes(cols, b, i),
    decreases cols.len() - i,
{
    if i < cols.len() {
        lemma_row_bytes_incl_agnostic(cols, a, b, i + 1);
    }
}

/// Reading a row consults the inclusion flags only at rowed columns.
pub proof fn lemma_read_row_incl_agnostic(
    rv: ReaderView,
    cols: Seq<(Seq<u8>, ValueKind, ColumnStorageType, Option<bool>)>,
    a: Seq<bool>,
    b: Seq<bool>,
    i: int,
)
    requires
        0 <= i <= cols.len(),
        forall|j: int| 0 <= j < cols.len() && (#[trigger] cols[j]).2 is Rowed ==> a[j] == b[j],
    ensures
        spec_read_row(rv, cols, a, i) == spec_read_row(rv, cols, b, i),
    decreases cols.len() - i,
{
    if i < cols.len() {
        if cols[i].2 is Rowed && a[i] {
            let st = spec_read_value(rv, true, cols[i].1);
            if st.0 is Ok {
                lemma_read_row_incl_agnostic(st.1, cols, a, b, i + 1);
            }
        } else {
            lemma_read_row_incl_agnostic(rv, cols, a, b, i + 1);
        }
    }
}

/// Reading rows consults the inclusion flags only at rowed columns.
pub proof fn lemma_read_rows_incl_agnostic(
    rv: ReaderView,
    cols: Seq<(Seq<u8>, ValueKind, ColumnStorageType, Option<bool>)>,
    a: Seq<bool>,
    b: Seq<bool>,
)
    requires
        crate::reader::inv(rv),
        forall|j: int| 0 <= j < cols.len() && (#[trigger] cols[j]).2 is Rowed ==> a[j] == b[j],
    ensures
        spec_read_rows(rv, cols, a) == spec_read_rows(rv, cols, b),
    decreases rv.rows.len() - rv.row_pos,
{
    lemma_row_bytes_incl_agnostic(cols, a, b, 0);
    if rv.row_pos < rv.rows.len() && spec_row_bytes(cols, a, 0) > 0 {
        lemma_read_row_incl_agnostic(rv, cols, a, b, 0);
        crate::table::lemma_read_row_state(rv, cols, a, 0);
        match spec_read_row(rv, cols, a, 0) {
            Ok(t) => {
                lemma_read_rows_incl_agnostic(t.1, cols, a, b);
            },
            Err(_) => {},
        }
    }
}

/// Writing one row only appends to the row region and the pools, and
/// grows the row region by exactly the row's width.
pub proof fn lemma_write_row_preserves(
    cols: Seq<(Seq<u8>, ValueKind, ColumnStorageType, Option<bool>)>,
    incl: Seq<bool>,
    row: Seq<Option<PrimView>>,
    i: int,
    wv: WriterView,
)
    requires
        0 <= i <= cols.len(),
        dedup_wf(wv),
        spec_write_row(wv, cols, incl, row, i).0 is Ok,
        forall|j: int|
            i <= j < cols.len() && (#[trigger] cols[j]).2 is Rowed && incl[j] && row[j]
                is Some ==> spec_prim_kind(row[j]->Some_0) == cols[j].1,
    ensures
        ({
            let wvn = spec_write_row(wv, cols, incl, row, i).1;
            &&& dedup_wf(wvn)
            &&& pools_extend(wv, wvn)
            &&& wv.rows.is_prefix_of(wvn.rows)
            &&& wvn.cols == wv.cols
            &&& wvn.field_count == wv.field_count
            &&& wvn.rows.len() == wv.rows.len() + spec_row_bytes(cols, incl, i)
        }),
    decreases cols.len() - i,
{
    if i >= cols.len() {
        assert(wv.dedup.is_prefix_of(wv.dedup) && wv.sd.is_prefix_of(wv.sd)
            && wv.blobs.is_prefix_of(wv.blobs) && wv.rows.is_prefix_of(wv.rows)) by {
            assert(wv.dedup.subrange(0, wv.dedup.len() as int) =~= wv.dedup);
            assert(wv.sd.subrange(0, wv.sd.len() as int) =~= wv.sd);
            assert(wv.blobs.subrange(0, wv.blobs.len() as int) =~= wv.blobs);
            assert(wv.rows.subrange(0, wv.rows.len() as int) =~= wv.rows);
        }
    } else if cols[i].2 is Rowed && incl[i] {
        let pv = row[i]->Some_0;
        lemma_encode_prim_preserves(pv, wv.dedup, wv.sd, wv.blobs);
        let wv1 = spec_write_value(wv, true, pv)->Some_0;
        lemma_write_row_preserves(cols, incl, row, i + 1, wv1);
        let wvn = spec_write_row(wv, cols, incl, row, i).1;
        lemma_prefix_trans(wv.dedup, wv1.dedup, wvn.dedup);
        lemma_prefix_trans(wv.sd, wv1.sd, wvn.sd);
        lemma_prefix_trans(wv.blobs, wv1.blobs, wvn.blobs);
        lemma_prefix_trans(wv.rows, wv1.rows, wvn.rows);
    } else {
        lemma_write_row_preserves(cols, incl, row, i + 1, wv);
    }
}

/// Reading one row back from the buffer the writer's row fold produced
/// yields exactly the row that went in, and moves the cursor by the
/// row's width.
#[verifier::rlimit(100)]
pub proof fn lemma_row_readback(
    cols: Seq<(Seq<u8>, ValueKind, ColumnStorageType, Option<bool>)>,
    incl: Seq<bool>,
    row: Seq<Option<PrimView>>,
    i: int,
    wv: WriterView,
    wvn: WriterView,
    rows_final: Seq<u8>,
    dedup_final: Seq<(Seq<u8>, u32)>,
    blobs_final: Seq<u8>,
    rv: ReaderView,
)
    requires
        0 <= i <= cols.len(),
        incl.len() == cols.len(),
        row.len() == cols.len(),
        dedup_wf(wv),
        spec_write_row(wv, cols, incl, row, i) == (Ok::<(), ErrView>(()), wvn),
        forall|j: int|
            i <= j < cols.len() && (#[trigger] cols[j]).2 is Rowed && incl[j] && row[j]
                is Some ==> spec_prim_kind(row[j]->Some_0) == cols[j].1,
        forall|j: int|
            i <= j < cols.len() && !((#[trigger] cols[j]).2 is Rowed && incl[j]) ==> row[j]
                is None,
        wvn.dedup.is_prefix_of(dedup_final),
        spec_offsets_from(dedup_final, 0),
        wvn.blobs.is_prefix_of(blobs_final),
        wvn.rows.is_prefix_of(rows_final),
        rv.rows == rows_final,
        rv.row_pos == wv.rows.len(),
        rv.strings == spec_entries_swapped(dedup_final),
        rv.blobs == blobs_final,
    ensures
        dedup_wf(wvn),
        pools_extend(wv, wvn),
        wv.rows.is_prefix_of(wvn.rows),
        wvn.cols == wv.cols,
        wvn.rows.len() == wv.rows.len() + spec_row_bytes(cols, incl, i),
        spec_read_row(rv, cols, incl, i) == Ok::<(Seq<Option<PrimView>>, ReaderView), ErrView>(
            (row.skip(i), ReaderView { row_pos: wvn.rows.len() as int, ..rv }),
        ),
    decreases cols.len() - i,
{
    if i >= cols.len() {
        assert(wvn == wv);
        assert(wv.dedup.is_prefix_of(wv.dedup) && wv.sd.is_prefix_of(wv.sd)
            && wv.blobs.is_prefix_of(wv.blobs) && wv.rows.is_prefix_of(wv.rows)) by {
            assert(wv.dedup.subrange(0, wv.dedup.len() as int) =~= wv.dedup);
            assert(wv.sd.subrange(0, wv.sd.len() as int) =~= wv.sd);
            assert(wv.blobs.subrange(0, wv.blobs.len() as int) =~= wv.blobs);
            assert(wv.rows.subrange(0, wv.rows.len() as int) =~= wv.rows);
        }
        assert(row.skip(i) =~= Seq::<Option<PrimView>>::empty());
        assert(rv =~= (ReaderView { row_pos: wvn.rows.len() as int, ..rv }));
    } else {
        let c = cols[i];
        let p = wv.rows.len() as int;
        if c.2 is Rowed && incl[i] {
            let pv = row[i]->Some_0;
            assert(row[i] is Some);
            let t1 = spec_encode_prim(pv, wv.dedup, wv.sd, wv.blobs);
            assert(t1 is Some);
            let n1 = t1->Some_0;
            lemma_encode_prim_preserves(pv, wv.dedup, wv.sd, wv.blobs);
            let w = spec_utf_size_of(c.1);
            assert(n1.3.len() == w);
            let wv1 = WriterView {
                rows: wv.rows + n1.3,
                dedup: n1.0,
                sd: n1.1,
                blobs: n1.2,
                ..wv
            };
            assert(spec_write_value(wv, true, pv)->Some_0 =~= wv1);
            assert(spec_write_row(wv1, cols, incl, row, i + 1) == (
                Ok::<(), ErrView>(()),
                wvn,
            ));
            let rv1 = ReaderView { row_pos: wv1.rows.len() as int, ..rv };
            lemma_row_readback(
                cols,
                incl,
                row,
                i + 1,
                wv1,
                wvn,
                rows_final,
                dedup_final,
                blobs_final,
                rv1,
            );
            lemma_prefix_trans(wv.dedup, wv1.dedup, wvn.dedup);
            lemma_prefix_trans(wv.sd, wv1.sd, wvn.sd);
            lemma_prefix_trans(wv.blobs, wv1.blobs, wvn.blobs);
            lemma_prefix_trans(wv.rows, wv1.rows, wvn.rows);
            assert(n1.0.is_prefix_of(dedup_final)) by {
                lemma_prefix_trans(n1.0, wvn.dedup, dedup_final);
            }
            assert(n1.2.is_prefix_of(blobs_final)) by {
                lemma_prefix_trans(n1.2, wvn.blobs, blobs_final);
            }
            assert(wv1.rows.is_prefix_of(rows_final)) by {
                lemma_prefix_trans(wv1.rows, wvn.rows, rows_final);
            }
            assert(rv.rows.subrange(p, p + w) =~= n1.3) by {
                lemma_prefix_seg(wv1.rows, rows_final, p, p + w);
                assert(forall|m: int|
                    0 <= m < n1.3.len() ==> wv1.rows[p + m] == #[trigger] n1.3[m]);
            }
            lemma_encode_prim_recoverable(
                pv,
                wv.dedup,
                wv.sd,
                wv.blobs,
                dedup_final,
                blobs_final,
            );
            lemma_read_encoded_value(rv, true, c.1, pv);
            assert(spec_advance(rv, true, w) =~= rv1);
            assert(row.skip(i) =~= seq![row[i]] + row.skip(i + 1));
        } else {
            assert(row[i] is None);
            lemma_row_readback(
                cols,
                incl,
                row,
                i + 1,
                wv,
                wvn,
                rows_final,
                dedup_final,
                blobs_final,
                rv,
            );
            assert(row.skip(i) =~= seq![row[i]] + row.skip(i + 1));
        }
    }
}

/// Reading the rows back from the buffer the writer's rows fold
/// produced yields exactly the rows that went in.
#[verifier::rlimit(100)]
pub proof fn lemma_rows_readback(
    cols: Seq<(Seq<u8>, ValueKind, ColumnStorageType, Option<bool>)>,
    incl: Seq<bool>,
    rows: Seq<Seq<Option<PrimView>>>,
    k: int,
    wv: WriterView,
    wvn: WriterView,
    dedup_final: Seq<(Seq<u8>, u32)>,
    blobs_final: Seq<u8>,
    rv: ReaderView,
)
    requires
        0 <= k <= rows.len(),
        incl.len() == cols.len(),
        dedup_wf(wv),
        spec_write_rows(wv, cols, incl, rows, k) == (Ok::<(), ErrView>(()), wvn),
        forall|m: int| k <= m < rows.len() ==> (#[trigger] rows[m]).len() == cols.len(),
        forall|m: int, j: int|
            k <= m < rows.len() && 0 <= j < cols.len() && (#[trigger] cols[j]).2 is Rowed
                && incl[j] && (#[trigger] rows[m][j]) is Some ==> spec_prim_kind(
                rows[m][j]->Some_0,
            ) == cols[j].1,
        forall|m: int, j: int|
            k <= m < rows.len() && 0 <= j < cols.len() && !((#[trigger] cols[j]).2 is Rowed
                && incl[j]) ==> (#[trigger] rows[m][j]) is None,
        k < rows.len() ==> spec_row_bytes(cols, incl, 0) > 0,
        wvn.dedup.is_prefix_of(dedup_final),
        spec_offsets_from(dedup_final, 0),
        wvn.blobs.is_prefix_of(blobs_final),
        rv.rows == wvn.rows,
        rv.row_pos == wv.rows.len(),
        rv.strings == spec_entries_swapped(dedup_final),
        rv.blobs == blobs_final,
        crate::text::spec_lookup(rv.strings, rv.table_name_index) is Some,
        0 <= rv.col_pos <= rv.cols.len(),
    ensures
        dedup_wf(wvn),
        pools_extend(wv, wvn),
        wv.rows.is_prefix_of(wvn.rows),
        wvn.cols == wv.cols,
        spec_read_rows(rv, cols, incl) == Ok::<
            (Seq<Seq<Option<PrimView>>>, ReaderView),
            ErrView,
        >((rows.skip(k), ReaderView { row_pos: wvn.rows.len() as int, ..rv })),
    decreases rows.len() - k,
{
    if k >= rows.len() {
        assert(wvn == wv);
        assert(wv.dedup.is_prefix_of(wv.dedup) && wv.sd.is_prefix_of(wv.sd)
            && wv.blobs.is_prefix_of(wv.blobs) && wv.rows.is_prefix_of(wv.rows)) by {
            assert(wv.dedup.subrange(0, wv.dedup.len() as int) =~= wv.dedup);
            assert(wv.sd.subrange(0, wv.sd.len() as int) =~= wv.sd);
            assert(wv.blobs.subrange(0, wv.blobs.len() as int) =~= wv.blobs);
            assert(wv.rows.subrange(0, wv.rows.len() as int) =~= wv.rows);
        }
        assert(rows.skip(k) =~= Seq::<Seq<Option<PrimView>>>::empty());
        assert(rv.row_pos >= rv.rows.len());
        assert(rv =~= (ReaderView { row_pos: wvn.rows.len() as int, ..rv }));
    } else {
        let step = spec_write_row(wv, cols, incl, rows[k], 0);
        assert(step.0 is Ok);
        let wv1 = step.1;
        assert(step.0->Ok_0 == ());
        assert(step.0 == Ok::<(), ErrView>(()));
        assert(step == (Ok::<(), ErrView>(()), wv1));
        assert(spec_write_rows(wv1, cols, incl, rows, k + 1) == (Ok::<(), ErrView>(()), wvn));
        lemma_write_row_preserves(cols, incl, rows[k], 0, wv);
        let rv1 = ReaderView { row_pos: wv1.rows.len() as int, ..rv };
        lemma_rows_readback(
            cols,
            incl,
            rows,
            k + 1,
            wv1,
            wvn,
            dedup_final,
            blobs_final,
            rv1,
        );
        lemma_row_readback(
            cols,
            incl,
            rows[k],
            0,
            wv,
            wv1,
            wvn.rows,
            dedup_final,
            blobs_final,
            rv,
        );
        lemma_prefix_trans(wv.dedup, wv1.dedup, wvn.dedup);
        lemma_prefix_trans(wv.sd, wv1.sd, wvn.sd);
        lemma_prefix_trans(wv.blobs, wv1.blobs, wvn.blobs);
        lemma_prefix_trans(wv.rows, wv1.rows, wvn.rows);
        assert(rv.row_pos < rv.rows.len()) by {
            assert(wv1.rows.len() == wv.rows.len() + spec_row_bytes(cols, incl, 0));
            assert(wv1.rows.is_prefix_of(wvn.rows));
        }
        assert(spec_read_row(rv, cols, incl, 0) == Ok::<
            (Seq<Option<PrimView>>, ReaderView),
            ErrView,
        >((rows[k].skip(0), rv1)));
        assert(rows[k].skip(0) =~= rows[k]);
        assert(rows.skip(k) =~= seq![rows[k]] + rows.skip(k + 1));
    }
}

/// A sequence of plain ASCII bytes is valid UTF-8.
pub proof fn lemma_ascii_utf8(s: Seq<u8>)
    requires
        forall|j: int| 0 <= j < s.len() ==> s[j] < 0x80,
    ensures
        is_utf8(s),
    decreases s.len(),
{
    if s.len() > 0 {
        lemma_ascii_utf8(s.skip(1));
    }
}

/// The deduplication entries with `pad` empty entries appended, each
/// occupying one NUL byte at the end of the pool: the layout of the
/// zero padding before the blob pool.
pub open spec fn spec_with_pads(entries: Seq<(Seq<u8>, u32)>, pad: nat) -> Seq<(Seq<u8>, u32)>
    decreases pad,
{
    if pad == 0 {
        entries
    } else {
        spec_with_pads(
            entries.push((Seq::empty(), spec_entries_pool(entries).len() as u32)),
            (pad - 1) as nat,
        )
    }
}

/// Appending empty padding entries keeps the layout sound, appends
/// exactly the zero bytes to the pool, and preserves the entries'
/// validity.
pub proof fn lemma_with_pads(entries: Seq<(Seq<u8>, u32)>, pad: nat)
    requires
        spec_offsets_from(entries, 0),
        spec_entries_pool(entries).len() + pad <= 0xFFFF_FFFF,
        spec_entries_no_nul(entries),
        spec_entries_utf8(entries),
    ensures
        ({
            let r = spec_with_pads(entries, pad);
            &&& spec_offsets_from(r, 0)
            &&& spec_entries_pool(r) == spec_entries_pool(entries) + Seq::new(
                pad,
                |j: int| 0u8,
            )
            &&& entries.is_prefix_of(r)
            &&& spec_entries_no_nul(r)
            &&& spec_entries_utf8(r)
            &&& r.len() == entries.len() + pad
        }),
    decreases pad,
{
    if pad == 0 {
        assert(entries.is_prefix_of(entries)) by {
            assert(entries.subrange(0, entries.len() as int) =~= entries);
        }
        assert(spec_entries_pool(entries) =~= spec_entries_pool(entries) + Seq::new(
            0nat,
            |j: int| 0u8,
        ));
    } else {
        let e = (Seq::<u8>::empty(), spec_entries_pool(entries).len() as u32);
        let next = entries.push(e);
        crate::text::lemma_offsets_push(entries, 0, e);
        crate::text::lemma_entries_pool_push(entries, e);
        assert(spec_entries_pool(next) =~= spec_entries_pool(entries) + seq![0u8]);
        assert(spec_entries_no_nul(next)) by {
            assert(forall|k: int|
                0 <= k < entries.len() ==> next[k] == #[trigger] entries[k]);
            assert(next[entries.len() as int] == e);
        }
        assert(spec_entries_utf8(next)) by {
            assert(forall|k: int|
                0 <= k < entries.len() ==> next[k] == #[trigger] entries[k]);
            assert(next[entries.len() as int] == e);
            assert(is_utf8(Seq::<u8>::empty()));
        }
        lemma_with_pads(next, (pad - 1) as nat);
        let r = spec_with_pads(entries, pad);
        assert(entries.is_prefix_of(next)) by {
            assert(next.subrange(0, entries.len() as int) =~= entries);
        }
        lemma_prefix_trans(entries, next, r);
        assert(spec_entries_pool(r) =~= spec_entries_pool(entries) + Seq::new(
            pad,
            |j: int| 0u8,
        ));
    }
}

/// Encoding a value pushes at most the value's own string content into
/// the deduplication entries, so their validity is preserved.
pub proof fn lemma_encode_prim_entries(
    v: PrimView,
    dedup: Seq<(Seq<u8>, u32)>,
    sd: Seq<u8>,
    blobs: Seq<u8>,
)
    requires
        spec_entries_no_nul(dedup),
        spec_entries_utf8(dedup),
        v matches PrimView::STR(c) ==> has_no_nul(c) && is_utf8(c),
    ensures
        spec_encode_prim(v, dedup, sd, blobs) matches Some(t) ==> spec_entries_no_nul(t.0)
            && spec_entries_utf8(t.0),
{
    if spec_encode_prim(v, dedup, sd, blobs) is Some {
        let t = spec_encode_prim(v, dedup, sd, blobs)->Some_0;
        match v {
            PrimView::STR(c) => {
                if spec_dedup_find(dedup, c) is None && sd.len() <= 0xFFFF_FFFF {
                    let next = dedup.push((c, sd.len() as u32));
                    assert(forall|k: int|
                        0 <= k < dedup.len() ==> next[k] == #[trigger] dedup[k]);
                    assert(next[dedup.len() as int] == (c, sd.len() as u32));
                    assert(spec_entries_no_nul(next));
                    assert(spec_entries_utf8(next));
                }
            },
            _ => {},
        }
    }
}

/// The columns fold pushes only column names and string constants into
/// the deduplication entries, and counts one field per column.
pub proof fn lemma_push_columns_facts(
    cols: Seq<(Seq<u8>, ValueKind, ColumnStorageType, Option<bool>)>,
    consts: Seq<Option<PrimView>>,
    incl: Seq<bool>,
    i: int,
    wv: WriterView,
)
    requires
        0 <= i <= cols.len(),
        consts.len() == cols.len(),
        spec_push_columns(wv, cols, consts, incl, i).0 is Ok,
        spec_entries_no_nul(wv.dedup),
        spec_entries_utf8(wv.dedup),
        forall|j: int|
            i <= j < cols.len() ==> has_no_nul((#[trigger] cols[j]).0) && is_utf8(cols[j].0),
        forall|j: int|
            i <= j < cols.len() ==> ((#[trigger] consts[j]) matches Some(PrimView::STR(c))
                ==> has_no_nul(c) && is_utf8(c)),
        wv.field_count + (cols.len() - i) <= 0xFFFF,
    ensures
        ({
            let wvn = spec_push_columns(wv, cols, consts, incl, i).1;
            &&& spec_entries_no_nul(wvn.dedup)
            &&& spec_entries_utf8(wvn.dedup)
            &&& wvn.field_count == wv.field_count + (cols.len() - i)
            &&& wvn.rows == wv.rows
        }),
    decreases cols.len() - i,
{
    if i < cols.len() {
        let c = cols[i];
        let step = if c.2 is Constant {
            spec_push_constant_column(wv, c.0, c.1, consts[i])
        } else {
            spec_push_rowed_column(wv, c.0, c.1, incl[i])
        };
        assert(step.0 is Ok);
        let wv1 = step.1;
        // The name encode, and for a present constant the value encode.
        let t1 = spec_encode_prim(PrimView::STR(c.0), wv.dedup, wv.sd, wv.blobs);
        assert(t1 is Some);
        let n1 = t1->Some_0;
        lemma_encode_prim_entries(PrimView::STR(c.0), wv.dedup, wv.sd, wv.blobs);
        if c.2 is Constant && consts[i] is Some {
            let pv = consts[i]->Some_0;
            lemma_encode_prim_entries(pv, n1.0, n1.1, n1.2);
        }
        assert(wv1.field_count == wv.field_count + 1);
        lemma_push_columns_facts(cols, consts, incl, i + 1, wv1);
    }
}

/// The row folds push only string row values into the deduplication
/// entries.
pub proof fn lemma_write_row_entries(
    cols: Seq<(Seq<u8>, ValueKind, ColumnStorageType, Option<bool>)>,
    incl: Seq<bool>,
    row: Seq<Option<PrimView>>,
    i: int,
    wv: WriterView,
)
    requires
        0 <= i <= cols.len(),
        spec_write_row(wv, cols, incl, row, i).0 is Ok,
        spec_entries_no_nul(wv.dedup),
        spec_entries_utf8(wv.dedup),
        forall|j: int|
            i <= j < cols.len() ==> ((#[trigger] row[j]) matches Some(PrimView::STR(c))
                ==> has_no_nul(c) && is_utf8(c)),
    ensures
        ({
            let wvn = spec_write_row(wv, cols, incl, row, i).1;
            &&& spec_entries_no_nul(wvn.dedup)
            &&& spec_entries_utf8(wvn.dedup)
        }),
    decreases cols.len() - i,
{
    if i < cols.len() {
        if cols[i].2 is Rowed && incl[i] {
            let pv = row[i]->Some_0;
            lemma_encode_prim_entries(pv, wv.dedup, wv.sd, wv.blobs);
            let wv1 = spec_write_value(wv, true, pv)->Some_0;
            lemma_write_row_entries(cols, incl, row, i + 1, wv1);
        } else {
            lemma_write_row_entries(cols, incl, row, i + 1, wv);
        }
    }
}

/// All rows together push only string row values into the
/// deduplication entries.
pub proof fn lemma_write_rows_entries(
    cols: Seq<(Seq<u8>, ValueKind, ColumnStorageType, Option<bool>)>,
    incl: Seq<bool>,
    rows: Seq<Seq<Option<PrimView>>>,
    k: int,
    wv: WriterView,
)
    requires
        0 <= k <= rows.len(),
        spec_write_rows(wv, cols, incl, rows, k).0 is Ok,
        spec_entries_no_nul(wv.dedup),
        spec_entries_utf8(wv.dedup),
        forall|m: int, j: int|
            k <= m < rows.len() && 0 <= j < cols.len() ==> ((#[trigger] rows[m][j]) matches Some(
                PrimView::STR(c),
            ) ==> has_no_nul(c) && is_utf8(c)),
    ensures
        ({
            let wvn = spec_write_rows(wv, cols, incl, rows, k).1;
            &&& spec_entries_no_nul(wvn.dedup)
            &&& spec_entries_utf8(wvn.dedup)
        }),
    decreases rows.len() - k,
{
    if k < rows.len() {
        let step = spec_write_row(wv, cols, incl, rows[k], 0);
        assert(step.0 is Ok);
        lemma_write_row_entries(cols, incl, rows[k], 0, wv);
        lemma_write_rows_entries(cols, incl, rows, k + 1, step.1);
    }
}

/// The table a writer emits parses: the header decodes to the offsets
/// the emit computed, the four regions come back as the writer's
/// buffers, and the string pool (with its padding, which scans as empty
/// entries) recovers the deduplication entries.
#[verifier::rlimit(100)]
#[verifier::spinoff_prover]
pub proof fn lemma_emit_parses(wv: WriterView, row_size: u16, row_count: u32)
    requires
        dedup_wf(wv),
        spec_entries_no_nul(wv.dedup),
        spec_entries_utf8(wv.dedup),
        wv.dedup.len() >= 2,
        wv.dedup[1].1 == 7,
        spec_emit(wv, row_size, row_count) is Ok,
    ensures
        ({
            let bytes = spec_emit(wv, row_size, row_count)->Ok_0;
            let pad = spec_blob_padding(24 + wv.cols.len() + wv.rows.len() + wv.sd.len() as int);
            let dedup_final = spec_with_pads(wv.dedup, pad as nat);
            &&& crate::reader::spec_parse_ok(bytes)
            &&& wv.dedup.is_prefix_of(dedup_final)
            &&& spec_offsets_from(dedup_final, 0)
            &&& spec_entries_no_nul(dedup_final)
            &&& spec_entries_utf8(dedup_final)
            &&& crate::reader::spec_reader_of(bytes) == (ReaderView {
                cols: wv.cols,
                col_pos: 0,
                rows: wv.rows,
                row_pos: 0,
                strings: spec_entries_swapped(dedup_final),
                blobs: wv.blobs,
                table_name_index: 7,
                field_count: wv.field_count,
            })
        }),
{
    let bytes = spec_emit(wv, row_size, row_count)->Ok_0;
    let ro = 24 + wv.cols.len() as int;
    let so = ro + wv.rows.len();
    let bo0 = so + wv.sd.len();
    let pad = spec_blob_padding(bo0);
    let bo = bo0 + pad;
    let ts = bo + wv.blobs.len();
    assert(1 <= pad <= 8);
    assert(ts <= 0xFFFF_FFFF);
    crate::bytes::lemma_u16_be_roundtrip();
    crate::bytes::lemma_u32_be_roundtrip();
    let zr = Seq::new(pad as nat, |j: int| 0u8);
    assert(bytes.len() == 8 + ts);
    // Header fields decode to what the emit computed.
    assert(bytes.subrange(0, 4) =~= crate::reader::spec_magic());
    assert(bytes.subrange(4, 8) =~= crate::bytes::spec_u32_to_be(ts as u32));
    assert(bytes.subrange(8, 12) =~= crate::bytes::spec_u32_to_be(ro as u32));
    assert(bytes.subrange(12, 16) =~= crate::bytes::spec_u32_to_be(so as u32));
    assert(bytes.subrange(16, 20) =~= crate::bytes::spec_u32_to_be(bo as u32));
    assert(bytes.subrange(20, 24) =~= crate::bytes::spec_u32_to_be(7u32));
    assert(bytes.subrange(24, 26) =~= crate::bytes::spec_u16_to_be(wv.field_count));
    assert(bytes.subrange(26, 28) =~= crate::bytes::spec_u16_to_be(row_size));
    assert(bytes.subrange(28, 32) =~= crate::bytes::spec_u32_to_be(row_count));
    assert(crate::reader::spec_table_size(bytes) == ts);
    assert(crate::reader::spec_row_offset(bytes) == ro);
    assert(crate::reader::spec_string_offset(bytes) == so);
    assert(crate::reader::spec_blob_offset(bytes) == bo);
    assert(crate::reader::spec_table_name_ref(bytes) == 7);
    assert(crate::reader::spec_field_count(bytes) == wv.field_count);
    assert(crate::reader::spec_row_size(bytes) == row_size);
    assert(crate::reader::spec_row_count(bytes) == row_count);
    // The region layout invariants hold by construction.
    assert(crate::reader::spec_layout_ok(bytes));
    // The regions come back as the writer's buffers.
    assert(bytes.subrange(32, 8 + ro) =~= wv.cols);
    assert(bytes.subrange(8 + ro, 8 + so) =~= wv.rows);
    assert(bytes.subrange(8 + so, 8 + bo) =~= wv.sd + zr);
    assert(bytes.subrange(8 + bo, 8 + ts) =~= wv.blobs);
    assert(crate::reader::spec_string_region(bytes) == wv.sd + zr);
    // The padded pool is the layout of the entries plus empty padding
    // entries, and scans back into exactly those.
    lemma_with_pads(wv.dedup, pad as nat);
    let dedup_final = spec_with_pads(wv.dedup, pad as nat);
    let region = wv.sd + zr;
    assert(region == spec_entries_pool(dedup_final));
    assert(region.subrange(0, region.len() as int) =~= region);
    crate::text::lemma_scan_pool_of_entries(region, dedup_final, 0);
    assert(crate::text::spec_pool_entries(region) == spec_entries_swapped(dedup_final));
    assert(crate::text::spec_pool_all_utf8(region)) by {
        let entries = crate::text::spec_pool_entries(region);
        assert forall|k: int| 0 <= k < entries.len() implies is_utf8(
            #[trigger] entries[k].1,
        ) by {
            assert(entries[k] == spec_entries_swapped(dedup_final)[k]);
            assert(entries[k].1 == dedup_final[k].0);
        }
    }
    // The table name reference resolves: the entry at index 1 sits at
    // offset 7.
    assert(dedup_final[1] == wv.dedup[1]) by {
        assert(dedup_final.subrange(0, wv.dedup.len() as int)[1] == dedup_final[1]);
    }
    crate::text::lemma_lookup_laid_out(dedup_final, 0, 1);
    assert(crate::text::spec_lookup(spec_entries_swapped(dedup_final), 7) is Some);
    assert(crate::reader::spec_parse_ok(bytes));
    assert(crate::reader::spec_reader_of(bytes) =~= (ReaderView {
        cols: wv.cols,
        col_pos: 0,
        rows: wv.rows,
        row_pos: 0,
        strings: spec_entries_swapped(dedup_final),
        blobs: wv.blobs,
        table_name_index: 7,
        field_count: wv.field_count,
    }));
}

/// The columns fold only appends to every buffer and pool.
pub proof fn lemma_push_columns_preserves(
    cols: Seq<(Seq<u8>, ValueKind, ColumnStorageType, Option<bool>)>,
    consts: Seq<Option<PrimView>>,
    incl: Seq<bool>,
    i: int,
    wv: WriterView,
)
    requires
        0 <= i <= cols.len(),
        consts.len() == cols.len(),
        dedup_wf(wv),
        spec_push_columns(wv, cols, consts, incl, i).0 is Ok,
    ensures
        ({
            let wvn = spec_push_columns(wv, cols, consts, incl, i).1;
            &&& dedup_wf(wvn)
            &&& pools_extend(wv, wvn)
            &&& wv.cols.is_prefix_of(wvn.cols)
            &&& wvn.rows == wv.rows
        }),
    decreases cols.len() - i,
{
    if i >= cols.len() {
        assert(wv.dedup.is_prefix_of(wv.dedup) && wv.sd.is_prefix_of(wv.sd)
            && wv.blobs.is_prefix_of(wv.blobs) && wv.cols.is_prefix_of(wv.cols)) by {
            assert(wv.dedup.subrange(0, wv.dedup.len() as int) =~= wv.dedup);
            assert(wv.sd.subrange(0, wv.sd.len() as int) =~= wv.sd);
            assert(wv.blobs.subrange(0, wv.blobs.len() as int) =~= wv.blobs);
            assert(wv.cols.subrange(0, wv.cols.len() as int) =~= wv.cols);
        }
    } else {
        let c = cols[i];
        let step = if c.2 is Constant {
            spec_push_constant_column(wv, c.0, c.1, consts[i])
        } else {
            spec_push_rowed_column(wv, c.0, c.1, incl[i])
        };
        assert(step.0 is Ok);
        let wv1 = step.1;
        lemma_encode_prim_preserves(PrimView::STR(c.0), wv.dedup, wv.sd, wv.blobs);
        let n1 = spec_encode_prim(PrimView::STR(c.0), wv.dedup, wv.sd, wv.blobs)->Some_0;
        if c.2 is Constant && consts[i] is Some {
            lemma_encode_prim_preserves(consts[i]->Some_0, n1.0, n1.1, n1.2);
        }
        assert(dedup_wf(wv1));
        assert(wv.cols.is_prefix_of(wv1.cols)) by {
            assert(wv1.cols.subrange(0, wv.cols.len() as int) =~= wv.cols);
        }
        lemma_push_columns_preserves(cols, consts, incl, i + 1, wv1);
        let wvn = spec_push_columns(wv, cols, consts, incl, i).1;
        lemma_prefix_trans(wv.dedup, wv1.dedup, wvn.dedup);
        lemma_prefix_trans(wv.sd, wv1.sd, wvn.sd);
        lemma_prefix_trans(wv.blobs, wv1.blobs, wvn.blobs);
        lemma_prefix_trans(wv.cols, wv1.cols, wvn.cols);
    }
}

/// The rows fold only appends to every buffer and pool, and leaves the
/// column region alone.
pub proof fn lemma_write_rows_preserves(
    cols: Seq<(Seq<u8>, ValueKind, ColumnStorageType, Option<bool>)>,
    incl: Seq<bool>,
    rows: Seq<Seq<Option<PrimView>>>,
    k: int,
    wv: WriterView,
)
    requires
        0 <= k <= rows.len(),
        dedup_wf(wv),
        spec_write_rows(wv, cols, incl, rows, k).0 is Ok,
        forall|m: int, j: int|
            k <= m < rows.len() && 0 <= j < cols.len() && (#[trigger] cols[j]).2 is Rowed
                && incl[j] && (#[trigger] rows[m][j]) is Some ==> spec_prim_kind(
                rows[m][j]->Some_0,
            ) == cols[j].1,
    ensures
        ({
            let wvn = spec_write_rows(wv, cols, incl, rows, k).1;
            &&& dedup_wf(wvn)
            &&& pools_extend(wv, wvn)
            &&& wv.rows.is_prefix_of(wvn.rows)
            &&& wvn.cols == wv.cols
            &&& wvn.field_count == wv.field_count
        }),
    decreases rows.len() - k,
{
    if k >= rows.len() {
        assert(wv.dedup.is_prefix_of(wv.dedup) && wv.sd.is_prefix_of(wv.sd)
            && wv.blobs.is_prefix_of(wv.blobs) && wv.rows.is_prefix_of(wv.rows)) by {
            assert(wv.dedup.subrange(0, wv.dedup.len() as int) =~= wv.dedup);
            assert(wv.sd.subrange(0, wv.sd.len() as int) =~= wv.sd);
            assert(wv.blobs.subrange(0, wv.blobs.len() as int) =~= wv.blobs);
            assert(wv.rows.subrange(0, wv.rows.len() as int) =~= wv.rows);
        }
    } else {
        let step = spec_write_row(wv, cols, incl, rows[k], 0);
        assert(step.0 is Ok);
        lemma_write_row_preserves(cols, incl, rows[k], 0, wv);
        lemma_write_rows_preserves(cols, incl, rows, k + 1, step.1);
        let wvn = spec_write_rows(wv, cols, incl, rows, k).1;
        lemma_prefix_trans(wv.dedup, step.1.dedup, wvn.dedup);
        lemma_prefix_trans(wv.sd, step.1.sd, wvn.sd);
        lemma_prefix_trans(wv.blobs, step.1.blobs, wvn.blobs);
        lemma_prefix_trans(wv.rows, step.1.rows, wvn.rows);
    }
}

/// Round trip: any table that serializes at all deserializes, against
/// the same description, back to the very same constants and rows.
///
/// The hypotheses are the data model's validity conditions: the table
/// fits its description shape-wise and kind-wise, entries at positions
/// their column does not store stay absent, the table name, the column
/// names and every stored string are NUL-free UTF-8, and a table with
/// rows stores at least one byte per row.
#[verifier::rlimit(100)]
#[verifier::spinoff_prover]
pub proof fn lemma_table_write_read_roundtrip(
    name: Seq<u8>,
    cols: Seq<(Seq<u8>, ValueKind, ColumnStorageType, Option<bool>)>,
    tv: TableView,
)
    requires
        wf_table(cols, tv),
        forall|j: int|
            0 <= j < cols.len() && !((#[trigger] cols[j]).2 is Constant) ==> tv.constants[j]
                is None,
        forall|k: int, j: int|
            0 <= k < tv.rows.len() && 0 <= j < cols.len() && !((#[trigger] cols[j]).2
                is Rowed) ==> (#[trigger] tv.rows[k][j]) is None,
        forall|j: int|
            0 <= j < cols.len() ==> ((#[trigger] tv.constants[j]) matches Some(p)
                ==> spec_prim_kind(p) == cols[j].1),
        forall|k: int, j: int|
            0 <= k < tv.rows.len() && 0 <= j < cols.len() ==> ((#[trigger] tv.rows[k][j])
                matches Some(p) ==> spec_prim_kind(p) == cols[j].1),
        has_no_nul(name),
        is_utf8(name),
        forall|j: int|
            0 <= j < cols.len() ==> has_no_nul((#[trigger] cols[j]).0) && is_utf8(cols[j].0),
        forall|j: int|
            0 <= j < cols.len() ==> ((#[trigger] tv.constants[j]) matches Some(
                PrimView::STR(c),
            ) ==> has_no_nul(c) && is_utf8(c)),
        forall|k: int, j: int|
            0 <= k < tv.rows.len() && 0 <= j < cols.len() ==> ((#[trigger] tv.rows[k][j])
                matches Some(PrimView::STR(c)) ==> has_no_nul(c) && is_utf8(c)),
        tv.rows.len() > 0 ==> spec_row_bytes(
            cols,
            Seq::new(cols.len(), |i: int| spec_incl(cols, tv, i)),
            0,
        ) > 0,
    ensures
        spec_table_write(name, cols, tv) matches Ok(bytes) ==> (spec_table_read(
            name,
            cols,
            bytes,
        ) matches Ok(tv2) && tv2.constants == tv.constants && tv2.rows == tv.rows),
{
    if spec_table_write(name, cols, tv) is Ok {
        let bytes = spec_table_write(name, cols, tv)->Ok_0;
        let incl = Seq::new(cols.len(), |i: int| spec_incl(cols, tv, i));
        assert(cols.len() <= 0xFFFF);
        let wv0 = spec_writer_init(name);
        let s1 = spec_push_columns(wv0, cols, tv.constants, incl, 0);
        assert(s1.0 is Ok);
        let wv1 = s1.1;
        let s2 = spec_write_rows(wv1, cols, incl, tv.rows, 0);
        assert(s2.0 is Ok);
        let wv2 = s2.1;
        let w = spec_row_bytes(cols, incl, 0);
        assert(w <= 0xFFFF && tv.rows.len() <= 0xFFFF_FFFF);
        assert(spec_emit(wv2, w as u16, tv.rows.len() as u32) == Ok::<Seq<u8>, ErrView>(
            bytes,
        ));
        // The fresh writer's pool is well laid out.
        assert(wv0.dedup[0] == (crate::writer::spec_null_name(), 0u32));
        assert(wv0.dedup[1] == (name, 7u32));
        assert(wv0.dedup.skip(1) =~= seq![(name, 7u32)]);
        assert(wv0.dedup.skip(1).skip(1) =~= Seq::<(Seq<u8>, u32)>::empty());
        assert(spec_offsets_from(wv0.dedup, 0)) by {
            assert(crate::writer::spec_null_name().len() == 6);
            assert(spec_offsets_from(wv0.dedup.skip(1).skip(1), 8 + name.len() as int));
            assert(spec_offsets_from(wv0.dedup.skip(1), 7));
        }
        assert(wv0.sd == spec_entries_pool(wv0.dedup)) by {
            assert(spec_entries_pool(wv0.dedup.skip(1).skip(1)) =~= Seq::<u8>::empty());
            assert(spec_entries_pool(wv0.dedup.skip(1)) =~= name + seq![0u8]);
            assert(spec_entries_pool(wv0.dedup) =~= crate::writer::spec_null_name()
                + seq![0u8] + (name + seq![0u8]));
            assert(wv0.sd =~= crate::writer::spec_null_name() + seq![0u8] + (name
                + seq![0u8]));
        }
        assert(spec_entries_no_nul(wv0.dedup)) by {
            assert(forall|j: int|
                0 <= j < 6 ==> crate::writer::spec_null_name()[j] != 0);
            assert(has_no_nul(wv0.dedup[0].0));
            assert(has_no_nul(wv0.dedup[1].0));
        }
        assert(spec_entries_utf8(wv0.dedup)) by {
            lemma_ascii_utf8(crate::writer::spec_null_name());
            assert(is_utf8(wv0.dedup[0].0));
            assert(is_utf8(wv0.dedup[1].0));
        }
        // Structural facts along the folds.
        lemma_push_columns_preserves(cols, tv.constants, incl, 0, wv0);
        lemma_push_columns_facts(cols, tv.constants, incl, 0, wv0);
        assert(wv1.field_count == cols.len());
        assert(wv1.rows == wv0.rows);
        crate::table::lemma_write_rows_ok_agree(wv1, cols, incl, tv.rows, 0);
        assert(forall|m: int, j: int|
            0 <= m < tv.rows.len() && 0 <= j < cols.len() && !((#[trigger] cols[j]).2
                is Rowed && incl[j]) ==> (#[trigger] tv.rows[m][j]) is None) by {
            assert(forall|j: int|
                0 <= j < cols.len() && (#[trigger] cols[j]).2 is Rowed && cols[j].3 is None
                    ==> incl[j]);
        }
        lemma_write_rows_preserves(cols, incl, tv.rows, 0, wv1);
        lemma_write_rows_entries(cols, incl, tv.rows, 0, wv1);
        assert(wv2.cols == wv1.cols);
        assert(wv2.field_count == cols.len());
        // The emitted bytes parse back into the writer's regions.
        assert(wv2.dedup.len() >= 2 && wv2.dedup[1] == (name, 7u32)) by {
            assert(wv0.dedup.is_prefix_of(wv1.dedup) && wv1.dedup.is_prefix_of(wv2.dedup));
            lemma_prefix_trans(wv0.dedup, wv1.dedup, wv2.dedup);
            assert(wv2.dedup.subrange(0, wv0.dedup.len() as int)[1] == wv2.dedup[1]);
        }
        lemma_emit_parses(wv2, w as u16, tv.rows.len() as u32);
        let pad = spec_blob_padding(24 + wv2.cols.len() + wv2.rows.len() + wv2.sd.len() as int);
        let dedup_final = spec_with_pads(wv2.dedup, pad as nat);
        let rv0 = crate::reader::spec_reader_of(bytes);
        assert(rv0.cols == wv1.cols && rv0.rows == wv2.rows && rv0.blobs == wv2.blobs);
        assert(rv0.strings == spec_entries_swapped(dedup_final));
        // The schema checks of the read pass.
        assert(dedup_final[1] == (name, 7u32)) by {
            assert(wv2.dedup.is_prefix_of(dedup_final));
            assert(dedup_final.subrange(0, wv2.dedup.len() as int)[1] == dedup_final[1]);
        }
        crate::text::lemma_lookup_laid_out(dedup_final, 0, 1);
        assert(crate::text::spec_lookup(rv0.strings, rv0.table_name_index) == Some(name));
        assert(rv0.field_count == cols.len());
        // Read the columns back.
        assert(wv1.dedup.is_prefix_of(dedup_final)) by {
            lemma_prefix_trans(wv1.dedup, wv2.dedup, dedup_final);
        }
        assert(s1 == (Ok::<(), ErrView>(()), wv1)) by {
            assert(s1.0->Ok_0 == ());
        }
        lemma_columns_readback(
            cols,
            tv.constants,
            incl,
            0,
            wv0,
            wv1,
            dedup_final,
            wv2.blobs,
            rv0,
        );
        let t = spec_read_columns(rv0, cols, 0)->Ok_0;
        assert(t.0 == tv.constants) by {
            assert forall|j: int| 0 <= j < cols.len() implies t.0[j] == tv.constants[j] by {
                if !(cols[j].2 is Constant) {
                    assert(tv.constants[j] is None);
                }
            }
            assert(t.0 =~= tv.constants);
        }
        // Read the rows back.
        let rv1 = t.2;
        assert(rv1 == (ReaderView { col_pos: wv1.cols.len() as int, ..rv0 }));
        assert(crate::reader::inv(rv1));
        assert(forall|j: int|
            0 <= j < cols.len() && (#[trigger] cols[j]).2 is Rowed ==> t.1[j] == incl[j]);
        lemma_read_rows_incl_agnostic(rv1, cols, t.1, incl);
        assert(s2 == (Ok::<(), ErrView>(()), wv2)) by {
            assert(s2.0->Ok_0 == ());
        }
        lemma_rows_readback(
            cols,
            incl,
            tv.rows,
            0,
            wv1,
            wv2,
            dedup_final,
            wv2.blobs,
            rv1,
        );
        assert(spec_read_rows(rv1, cols, incl) matches Ok(rr) && rr.0 == tv.rows) by {
            assert(tv.rows.skip(0) =~= tv.rows);
        }
        let tv2 = spec_table_read(name, cols, bytes)->Ok_0;
        assert(tv2.constants == tv.constants && tv2.rows == tv.rows);
    }
}

/// Reading a packet assembled from a tag, a reserved value and a
/// readable table payload (masked or not) yields the packet with that
/// table.
#[verifier::rlimit(100)]
#[verifier::spinoff_prover]
pub proof fn lemma_read_packet_of_parts(
    name: Seq<u8>,
    cols: Seq<(Seq<u8>, ValueKind, ColumnStorageType, Option<bool>)>,
    prefix: Seq<u8>,
    unknown_value: u32,
    body: Seq<u8>,
    encrypted: bool,
    tv2: TableView,
)
    requires
        prefix.len() == 4,
        32 <= body.len() <= 0x1_0000_0010,
        body.subrange(0, 4) == crate::reader::spec_magic(),
        spec_table_read(name, cols, body) == Ok::<TableView, ErrView>(tv2),
    ensures
        ({
            let header = prefix + crate::bytes::spec_u32_to_le(unknown_value)
                + crate::bytes::spec_u64_to_le(body.len() as u64);
            let payload = if encrypted { crate::cipher::spec_masked(body) } else { body };
            crate::packet::spec_read_packet(name, cols, prefix, header + payload) == Ok::<
                crate::packet::PacketView,
                ErrView,
            >(
                crate::packet::PacketView { prefix, encrypted, unknown_value, table: tv2 },
            )
        }),
{
    crate::bytes::lemma_u64_le_roundtrip();
    crate::bytes::lemma_u32_le_roundtrip();
    let header = prefix + crate::bytes::spec_u32_to_le(unknown_value)
        + crate::bytes::spec_u64_to_le(body.len() as u64);
    let payload = if encrypted { crate::cipher::spec_masked(body) } else { body };
    let bytes = header + payload;
    assert(header.len() == 16);
    assert(bytes.subrange(0, 4) =~= prefix);
    assert(bytes.subrange(4, 8) =~= crate::bytes::spec_u32_to_le(unknown_value));
    assert(bytes.subrange(8, 16) =~= crate::bytes::spec_u64_to_le(body.len() as u64));
    let size = crate::bytes::spec_u64_from_le(bytes.subrange(8, 16));
    assert(size == body.len());
    assert(bytes.subrange(16, 16 + size as int) =~= payload);
    if encrypted {
        crate::packet::lemma_masked_magic_is_guard(body);
        crate::cipher::lemma_cipher_self_inverse(body);
        assert(payload.subrange(0, 4) != crate::reader::spec_magic());
        assert(crate::bytes::spec_u32_from_le(payload.subrange(0, 4))
            == crate::cipher::spec_cipher_guard());
        assert(crate::cipher::spec_masked(payload) == body);
    } else {
        assert(payload.subrange(0, 4) == crate::reader::spec_magic());
    }
}

/// What a successful table write looks like from outside: the bytes
/// open with the magic and are the total table size plus the two
/// leading header fields.
pub proof fn lemma_table_write_shape(
    name: Seq<u8>,
    cols: Seq<(Seq<u8>, ValueKind, ColumnStorageType, Option<bool>)>,
    tv: TableView,
)
    requires
        spec_table_write(name, cols, tv) is Ok,
    ensures
        ({
            let bytes = spec_table_write(name, cols, tv)->Ok_0;
            &&& 40 <= bytes.len() <= 0x1_0000_0007
            &&& bytes.subrange(0, 4) == crate::reader::spec_magic()
        }),
{
    let bytes = spec_table_write(name, cols, tv)->Ok_0;
    let incl = Seq::new(cols.len(), |i: int| spec_incl(cols, tv, i));
    let s1 = spec_push_columns(spec_writer_init(name), cols, tv.constants, incl, 0);
    let s2 = spec_write_rows(s1.1, cols, incl, tv.rows, 0);
    let wv = s2.1;
    let w = spec_row_bytes(cols, incl, 0);
    assert(spec_emit(wv, w as u16, tv.rows.len() as u32) == Ok::<Seq<u8>, ErrView>(bytes));
    let ro = 24 + wv.cols.len() as int;
    let so = ro + wv.rows.len();
    let bo0 = so + wv.sd.len();
    let pad = spec_blob_padding(bo0);
    let ts = bo0 + pad + wv.blobs.len();
    assert(1 <= pad <= 8);
    assert(ts <= 0xFFFF_FFFF);
    assert(bytes.len() == 8 + ts);
    assert(bytes.subrange(0, 4) =~= crate::reader::spec_magic());
}

/// Round trip through the envelope: a packet that writes at all reads
/// back, with the same tag, reserved value and encryption flag, and
/// with the same table constants and rows — masked or not.
#[verifier::rlimit(100)]
#[verifier::spinoff_prover]
pub proof fn lemma_packet_write_read_roundtrip(
    name: Seq<u8>,
    cols: Seq<(Seq<u8>, ValueKind, ColumnStorageType, Option<bool>)>,
    pv: crate::packet::PacketView,
)
    requires
        pv.prefix.len() == 4,
        wf_table(cols, pv.table),
        forall|j: int|
            0 <= j < cols.len() && !((#[trigger] cols[j]).2 is Constant)
                ==> pv.table.constants[j] is None,
        forall|k: int, j: int|
            0 <= k < pv.table.rows.len() && 0 <= j < cols.len() && !((#[trigger] cols[j]).2
                is Rowed) ==> (#[trigger] pv.table.rows[k][j]) is None,
        forall|j: int|
            0 <= j < cols.len() ==> ((#[trigger] pv.table.constants[j]) matches Some(p)
                ==> spec_prim_kind(p) == cols[j].1),
        forall|k: int, j: int|
            0 <= k < pv.table.rows.len() && 0 <= j < cols.len() ==> ((
            #[trigger] pv.table.rows[k][j]) matches Some(p) ==> spec_prim_kind(p)
                == cols[j].1),
        has_no_nul(name),
        is_utf8(name),
        forall|j: int|
            0 <= j < cols.len() ==> has_no_nul((#[trigger] cols[j]).0) && is_utf8(cols[j].0),
        forall|j: int|
            0 <= j < cols.len() ==> ((#[trigger] pv.table.constants[j]) matches Some(
                PrimView::STR(c),
            ) ==> has_no_nul(c) && is_utf8(c)),
        forall|k: int, j: int|
            0 <= k < pv.table.rows.len() && 0 <= j < cols.len() ==> ((
            #[trigger] pv.table.rows[k][j]) matches Some(PrimView::STR(c)) ==> has_no_nul(c)
                && is_utf8(c)),
        pv.table.rows.len() > 0 ==> spec_row_bytes(
            cols,
            Seq::new(cols.len(), |i: int| spec_incl(cols, pv.table, i)),
            0,
        ) > 0,
    ensures
        crate::packet::spec_write_packet(name, cols, pv) matches Ok(bytes)
            ==> (crate::packet::spec_read_packet(name, cols, pv.prefix, bytes) matches Ok(
            pv2,
        ) && pv2.prefix == pv.prefix && pv2.encrypted == pv.encrypted && pv2.unknown_value
            == pv.unknown_value && pv2.table.constants == pv.table.constants
            && pv2.table.rows == pv.table.rows),
{
    if crate::packet::spec_write_packet(name, cols, pv) is Ok {
        let body = spec_table_write(name, cols, pv.table)->Ok_0;
        lemma_table_write_read_roundtrip(name, cols, pv.table);
        let tv2 = spec_table_read(name, cols, body)->Ok_0;
        lemma_table_write_shape(name, cols, pv.table);
        lemma_read_packet_of_parts(
            name,
            cols,
            pv.prefix,
            pv.unknown_value,
            body,
            pv.encrypted,
            tv2,
        );
    }
}

/// A decode of a fixed-width buffer yields a value of the kind that
/// was asked for.
pub proof fn lemma_decode_prim_kind(
    kind: ValueKind,
    buf: Seq<u8>,
    strings: Seq<(u32, Seq<u8>)>,
    blobs: Seq<u8>,
)
    ensures
        spec_decode_prim(kind, buf, strings, blobs) matches Some(v) ==> spec_prim_kind(v)
            == kind,
{
}

/// The constants and inclusion flags a column read produces have the
/// right shape: one entry per remaining column, values only at
/// constant columns and of the declared kind, and absence only where
/// the column is optional.
pub proof fn lemma_read_columns_shape(
    rv: ReaderView,
    cols: Seq<(Seq<u8>, ValueKind, ColumnStorageType, Option<bool>)>,
    i: int,
)
    requires
        0 <= i <= cols.len(),
    ensures
        spec_read_columns(rv, cols, i) matches Ok(t) ==> {
            &&& t.0.len() == cols.len() - i
            &&& t.1.len() == cols.len() - i
            &&& forall|j: int|
                0 <= j < t.0.len() ==> ((#[trigger] t.0[j]) matches Some(p)
                    ==> cols[i + j].2 is Constant && spec_prim_kind(p) == cols[i + j].1)
            &&& forall|j: int|
                0 <= j < t.0.len() && cols[i + j].2 is Constant && cols[i + j].3 is None
                    ==> (#[trigger] t.0[j]) is Some
            &&& forall|j: int|
                0 <= j < t.1.len() && cols[i + j].2 is Rowed && cols[i + j].3 is None
                    ==> (#[trigger] t.1[j])
        },
    decreases cols.len() - i,
{
    if i < cols.len() && spec_read_columns(rv, cols, i) is Ok {
        let c = cols[i];
        if c.2 is Constant {
            let st = spec_read_constant_column(rv, c.0, c.1, c.3 is Some);
            let step1 = spec_read_value(rv, false, ValueKind::U8);
            let step2 = spec_read_value(step1.1, false, ValueKind::STR);
            if st.0 matches Ok(v) && v is Some {
                let step3 = spec_read_value(step2.1, false, c.1);
                lemma_decode_prim_kind(
                    c.1,
                    (if false { step2.1.rows } else { step2.1.cols }).subrange(
                        step2.1.col_pos,
                        step2.1.col_pos + spec_utf_size_of(c.1),
                    ),
                    step2.1.strings,
                    step2.1.blobs,
                );
            }
            lemma_read_columns_shape(st.1, cols, i + 1);
        } else {
            let st = spec_read_rowed_column(rv, c.0, c.1, c.3 is Some);
            lemma_read_columns_shape(st.1, cols, i + 1);
        }
    }
}

/// The values a row read produces have the right shape: one entry per
/// remaining column, present exactly at included rowed columns, and of
/// the declared kind.
pub proof fn lemma_read_row_shape(
    rv: ReaderView,
    cols: Seq<(Seq<u8>, ValueKind, ColumnStorageType, Option<bool>)>,
    incl: Seq<bool>,
    i: int,
)
    requires
        0 <= i <= cols.len(),
    ensures
        spec_read_row(rv, cols, incl, i) matches Ok(t) ==> {
            &&& t.0.len() == cols.len() - i
            &&& forall|j: int|
                0 <= j < t.0.len() ==> ((#[trigger] t.0[j]) is Some <==> (cols[i + j].2
                    is Rowed && incl[i + j]))
            &&& forall|j: int|
                0 <= j < t.0.len() ==> ((#[trigger] t.0[j]) matches Some(p)
                    ==> spec_prim_kind(p) == cols[i + j].1)
        },
    decreases cols.len() - i,
{
    if i < cols.len() && spec_read_row(rv, cols, incl, i) is Ok {
        if cols[i].2 is Rowed && incl[i] {
            let st = spec_read_value(rv, true, cols[i].1);
            lemma_decode_prim_kind(
                cols[i].1,
                rv.rows.subrange(rv.row_pos, rv.row_pos + spec_utf_size_of(cols[i].1)),
                rv.strings,
                rv.blobs,
            );
            lemma_read_row_shape(st.1, cols, incl, i + 1);
        } else {
            lemma_read_row_shape(rv, cols, incl, i + 1);
        }
    }
}

/// All rows a read produces have the right shape.
pub proof fn lemma_read_rows_shape(
    rv: ReaderView,
    cols: Seq<(Seq<u8>, ValueKind, ColumnStorageType, Option<bool>)>,
    incl: Seq<bool>,
)
    requires
        crate::reader::inv(rv),
    ensures
        spec_read_rows(rv, cols, incl) matches Ok(t) ==> forall|k: int|
            0 <= k < t.0.len() ==> {
                &&& (#[trigger] t.0[k]).len() == cols.len()
                &&& forall|j: int|
                    0 <= j < cols.len() ==> (t.0[k][j] is Some <==> ((#[trigger] cols[j]).2
                        is Rowed && incl[j]))
                &&& forall|j: int|
                    0 <= j < cols.len() ==> ((#[trigger] t.0[k][j]) matches Some(p)
                        ==> spec_prim_kind(p) == cols[j].1)
            },
    decreases rv.rows.len() - rv.row_pos,
{
    if rv.row_pos < rv.rows.len() && spec_row_bytes(cols, incl, 0) > 0 && spec_read_rows(
        rv,
        cols,
        incl,
    ) is Ok {
        lemma_read_row_shape(rv, cols, incl, 0);
        crate::table::lemma_read_row_state(rv, cols, incl, 0);
        let st = spec_read_row(rv, cols, incl, 0)->Ok_0;
        lemma_read_rows_shape(st.1, cols, incl);
        let t = spec_read_rows(rv, cols, incl)->Ok_0;
        let rest = spec_read_rows(st.1, cols, incl)->Ok_0;
        assert(forall|k: int| 1 <= k < t.0.len() ==> t.0[k] == #[trigger] rest.0[k - 1]);
        assert(t.0[0] == st.0);
    }
}

/// A decoded table fits its description and is in canonical shape:
/// everything the round-trip law asks of a table, short of the string
/// validity that the pool itself guarantees.
#[verifier::rlimit(100)]
#[verifier::spinoff_prover]
pub proof fn lemma_table_read_wf(
    name: Seq<u8>,
    cols: Seq<(Seq<u8>, ValueKind, ColumnStorageType, Option<bool>)>,
    s: Seq<u8>,
)
    ensures
        spec_table_read(name, cols, s) matches Ok(tv) ==> {
            &&& wf_table(cols, tv)
            &&& forall|j: int|
                0 <= j < cols.len() && !((#[trigger] cols[j]).2 is Constant)
                    ==> tv.constants[j] is None
            &&& forall|k: int, j: int|
                0 <= k < tv.rows.len() && 0 <= j < cols.len() && !((#[trigger] cols[j]).2
                    is Rowed) ==> (#[trigger] tv.rows[k][j]) is None
            &&& forall|j: int|
                0 <= j < cols.len() ==> ((#[trigger] tv.constants[j]) matches Some(p)
                    ==> spec_prim_kind(p) == cols[j].1)
            &&& forall|k: int, j: int|
                0 <= k < tv.rows.len() && 0 <= j < cols.len() ==> ((
                #[trigger] tv.rows[k][j]) matches Some(p) ==> spec_prim_kind(p)
                    == cols[j].1)
        },
{
    if spec_table_read(name, cols, s) is Ok {
        let rv = crate::reader::spec_reader_of(s);
        let t = spec_read_columns(rv, cols, 0)->Ok_0;
        lemma_read_columns_shape(rv, cols, 0);
        assert(crate::reader::inv(t.2)) by {
            lemma_read_columns_state(rv, cols, 0);
        }
        lemma_read_rows_shape(t.2, cols, t.1);
    }
}

/// Reading columns keeps the reader well formed and only moves the
/// column cursor.
pub proof fn lemma_read_columns_state(
    rv: ReaderView,
    cols: Seq<(Seq<u8>, ValueKind, ColumnStorageType, Option<bool>)>,
    i: int,
)
    requires
        0 <= i <= cols.len(),
        crate::reader::inv(rv),
    ensures
        spec_read_columns(rv, cols, i) matches Ok(t) ==> crate::reader::inv(t.2) && t.2
            == (ReaderView { col_pos: t.2.col_pos, ..rv }),
    decreases cols.len() - i,
{
    if i >= cols.len() {
        if spec_read_columns(rv, cols, i) is Ok {
            assert(rv =~= (ReaderView { col_pos: rv.col_pos, ..rv }));
        }
    } else if spec_read_columns(rv, cols, i) is Ok {
        let c = cols[i];
        let st1 = if c.2 is Constant {
            spec_read_constant_column(rv, c.0, c.1, c.3 is Some).1
        } else {
            spec_read_rowed_column(rv, c.0, c.1, c.3 is Some).1
        };
        assert(crate::reader::inv(st1) && st1 == (ReaderView { col_pos: st1.col_pos, ..rv }))
            by {
            assert(st1 =~= (ReaderView { col_pos: st1.col_pos, ..rv }));
        }
        lemma_read_columns_state(st1, cols, i + 1);
        if spec_read_columns(st1, cols, i + 1) is Ok {
            let t2 = spec_read_columns(st1, cols, i + 1)->Ok_0;
            assert(t2.2 =~= (ReaderView { col_pos: t2.2.col_pos, ..rv }));
        }
    }
}

/// Reading the written column descriptors against a description that
/// expects a different name for column `i` (and agrees up to there)
/// fails with the wrong-column-name error naming the actual and the
/// expected name.
#[verifier::rlimit(100)]
#[verifier::spinoff_prover]
pub proof fn lemma_columns_readback_mismatch(
    cols: Seq<(Seq<u8>, ValueKind, ColumnStorageType, Option<bool>)>,
    cols2: Seq<(Seq<u8>, ValueKind, ColumnStorageType, Option<bool>)>,
    consts: Seq<Option<PrimView>>,
    incl: Seq<bool>,
    i: int,
    j: int,
    wv: WriterView,
    wvn: WriterView,
    dedup_final: Seq<(Seq<u8>, u32)>,
    blobs_final: Seq<u8>,
    rv: ReaderView,
)
    requires
        0 <= j <= i < cols.len(),
        cols2.len() == cols.len(),
        forall|m: int| 0 <= m < i ==> #[trigger] cols2[m] == cols[m],
        cols2[i].0 != cols[i].0,
        cols2[i].1 == cols[i].1,
        cols2[i].2 == cols[i].2,
        cols2[i].3 == cols[i].3,
        consts.len() == cols.len(),
        incl.len() == cols.len(),
        dedup_wf(wv),
        spec_push_columns(wv, cols, consts, incl, j) == (Ok::<(), ErrView>(()), wvn),
        forall|m: int|
            j <= m < cols.len() && (#[trigger] cols[m]).2 is Constant && cols[m].3 is None
                ==> consts[m] is Some,
        forall|m: int|
            j <= m < cols.len() && (#[trigger] cols[m]).2 is Rowed && cols[m].3 is None
                ==> incl[m],
        wvn.dedup.is_prefix_of(dedup_final),
        spec_offsets_from(dedup_final, 0),
        wvn.blobs.is_prefix_of(blobs_final),
        rv.cols == wvn.cols,
        rv.col_pos == wv.cols.len(),
        rv.strings == spec_entries_swapped(dedup_final),
        rv.blobs == blobs_final,
    ensures
        spec_read_columns(rv, cols2, j) == Err::<
            (Seq<Option<PrimView>>, Seq<bool>, ReaderView),
            ErrView,
        >(ErrView::WrongColumnName(cols[i].0, cols2[i].0)),
    decreases cols.len() - j,
{
    let c = cols[j];
    let tag = crate::kinds::spec_value_tag(c.1);
    lemma_value_tag_bound(c.1);
    let p = wv.cols.len() as int;
    // Unfold the writer's step for column j of the true description.
    let step = if c.2 is Constant {
        spec_push_constant_column(wv, c.0, c.1, consts[j])
    } else {
        spec_push_rowed_column(wv, c.0, c.1, incl[j])
    };
    assert(step.0 is Ok);
    let wv1 = step.1;
    assert(spec_push_columns(wv1, cols, consts, incl, j + 1) == (Ok::<(), ErrView>(()), wvn));
    let st: u8 = if c.2 is Constant {
        if consts[j] is Some { 0x30 } else { 0x10 }
    } else {
        if incl[j] { 0x50 } else { 0x10 }
    };
    let flag = st | tag;
    lemma_flag_nibbles(st, tag);
    let wv_a = WriterView { cols: wv.cols + seq![flag], ..wv };
    let t1 = spec_encode_prim(PrimView::STR(c.0), wv.dedup, wv.sd, wv.blobs);
    assert(t1 is Some);
    let n1 = t1->Some_0;
    lemma_encode_prim_preserves(PrimView::STR(c.0), wv.dedup, wv.sd, wv.blobs);
    assert(n1.3.len() == 4);
    let wv_b = WriterView {
        cols: wv_a.cols + n1.3,
        dedup: n1.0,
        sd: n1.1,
        blobs: n1.2,
        ..wv_a
    };
    assert(spec_write_value(wv_a, false, PrimView::STR(c.0))->Some_0 =~= wv_b);
    if c.2 is Constant && consts[j] is Some {
        let pv = consts[j]->Some_0;
        assert(spec_prim_kind(pv) == c.1);
        let t2 = spec_encode_prim(pv, n1.0, n1.1, n1.2);
        assert(t2 is Some);
        let n2 = t2->Some_0;
        lemma_encode_prim_preserves(pv, n1.0, n1.1, n1.2);
        let wv_c = WriterView {
            cols: wv_b.cols + n2.3,
            dedup: n2.0,
            sd: n2.1,
            blobs: n2.2,
            ..wv_b
        };
        assert(spec_write_value(wv_b, false, pv)->Some_0 =~= wv_c);
        assert(wv1 =~= (WriterView {
            field_count: #[verifier::truncate] ((wv_c.field_count + 1) as u16),
            ..wv_c
        }));
    } else {
        assert(wv1 =~= (WriterView {
            field_count: #[verifier::truncate] ((wv_b.field_count + 1) as u16),
            ..wv_b
        }));
    }
    // Pool and buffer chains.
    assert(wv.dedup.is_prefix_of(wv1.dedup) && wv.sd.is_prefix_of(wv1.sd)
        && wv.blobs.is_prefix_of(wv1.blobs));
    lemma_push_columns_preserves(cols, consts, incl, j + 1, wv1);
    assert(n1.0.is_prefix_of(dedup_final)) by {
        lemma_prefix_trans(n1.0, wv1.dedup, wvn.dedup);
        lemma_prefix_trans(n1.0, wvn.dedup, dedup_final);
    }
    assert(n1.2.is_prefix_of(blobs_final)) by {
        lemma_prefix_trans(n1.2, wv1.blobs, wvn.blobs);
        lemma_prefix_trans(n1.2, wvn.blobs, blobs_final);
    }
    assert(rv.cols.subrange(p, p + 1) =~= seq![flag]) by {
        lemma_prefix_seg(wv1.cols, wvn.cols, p, p + 1);
    }
    assert(rv.cols.subrange(p + 1, p + 5) =~= n1.3) by {
        lemma_prefix_seg(wv1.cols, wvn.cols, p + 1, p + 5);
        assert(forall|m: int|
            0 <= m < n1.3.len() ==> wv1.cols[p + 1 + m] == #[trigger] n1.3[m]);
    }
    // The flag and the actual name read back.
    assert(spec_decode_prim(
        ValueKind::U8,
        rv.cols.subrange(p, p + 1),
        rv.strings,
        rv.blobs,
    ) == Some(PrimView::U8(flag)));
    lemma_read_encoded_value(rv, false, ValueKind::U8, PrimView::U8(flag));
    let rv_f = spec_advance(rv, false, 1);
    lemma_encode_prim_recoverable(
        PrimView::STR(c.0),
        wv.dedup,
        wv.sd,
        wv.blobs,
        dedup_final,
        blobs_final,
    );
    assert(spec_decode_prim(ValueKind::STR, n1.3, rv.strings, rv.blobs) == Some(
        PrimView::STR(c.0),
    ));
    lemma_read_encoded_value(rv_f, false, ValueKind::STR, PrimView::STR(c.0));
    let rv_nm = spec_advance(rv_f, false, 4);
    if j == i {
        // The expected name differs from the one in the buffer: the
        // read stops here, whatever the storage form.
        assert(cols2[i].0 != c.0);
        if cols2[i].2 is Constant {
            assert(spec_read_constant_column(rv, cols2[i].0, cols2[i].1, cols2[i].3 is Some).0
                == Err::<Option<PrimView>, ErrView>(ErrView::WrongColumnName(
                c.0,
                cols2[i].0,
            )));
        } else {
            assert(spec_read_rowed_column(rv, cols2[i].0, cols2[i].1, cols2[i].3 is Some).0
                == Err::<bool, ErrView>(ErrView::WrongColumnName(c.0, cols2[i].0)));
        }
    } else {
        // This column still matches: it reads back, and the failure
        // comes from a later column.
        assert(cols2[j] == cols[j]);
        let rv1 = ReaderView { col_pos: wv1.cols.len() as int, ..rv };
        if c.2 is Constant {
            if consts[j] is Some {
                let pv = consts[j]->Some_0;
                let n2 = spec_encode_prim(pv, n1.0, n1.1, n1.2)->Some_0;
                let w = spec_utf_size_of(c.1);
                assert(rv.cols.subrange(p + 5, p + 5 + w) =~= n2.3) by {
                    lemma_prefix_seg(wv1.cols, wvn.cols, p + 5, p + 5 + w);
                    assert(forall|m: int|
                        0 <= m < n2.3.len() ==> wv1.cols[p + 5 + m] == #[trigger] n2.3[m]);
                }
                assert(n2.0.is_prefix_of(dedup_final)) by {
                    lemma_prefix_trans(n2.0, wvn.dedup, dedup_final);
                }
                assert(n2.2.is_prefix_of(blobs_final)) by {
                    lemma_prefix_trans(n2.2, wvn.blobs, blobs_final);
                }
                lemma_encode_prim_recoverable(
                    pv,
                    n1.0,
                    n1.1,
                    n1.2,
                    dedup_final,
                    blobs_final,
                );
                lemma_read_encoded_value(rv_nm, false, c.1, pv);
                assert(spec_read_constant_column(rv, c.0, c.1, c.3 is Some) == (
                    Ok::<Option<PrimView>, ErrView>(Some(pv)),
                    rv1,
                )) by {
                    assert(spec_advance(rv_nm, false, w) =~= rv1);
                }
            } else {
                assert(c.3 is Some);
                assert(spec_read_constant_column(rv, c.0, c.1, true) == (
                    Ok::<Option<PrimView>, ErrView>(None),
                    rv1,
                )) by {
                    assert(rv_nm =~= rv1);
                }
            }
        } else {
            if !incl[j] {
                assert(c.3 is Some);
            }
            assert(spec_read_rowed_column(rv, c.0, c.1, c.3 is Some) == (
                Ok::<bool, ErrView>(incl[j]),
                rv1,
            )) by {
                assert(rv_nm =~= rv1);
            }
        }
        lemma_columns_readback_mismatch(
            cols,
            cols2,
            consts,
            incl,
            i,
            j + 1,
            wv1,
            wvn,
            dedup_final,
            blobs_final,
            rv1,
        );
    }
}

/// A written table read back against a description that expects a
/// different name for one column (and agrees before it) fails with the
/// wrong-column-name error naming the actual and the expected name.
#[verifier::rlimit(100)]
#[verifier::spinoff_prover]
pub proof fn lemma_read_with_mismatched_name(
    name: Seq<u8>,
    cols: Seq<(Seq<u8>, ValueKind, ColumnStorageType, Option<bool>)>,
    cols2: Seq<(Seq<u8>, ValueKind, ColumnStorageType, Option<bool>)>,
    tv: TableView,
    i: int,
)
    requires
        0 <= i < cols.len(),
        cols2.len() == cols.len(),
        forall|m: int| 0 <= m < i ==> #[trigger] cols2[m] == cols[m],
        cols2[i].0 != cols[i].0,
        cols2[i].1 == cols[i].1,
        cols2[i].2 == cols[i].2,
        cols2[i].3 == cols[i].3,
        wf_table(cols, tv),
        forall|j: int|
            0 <= j < cols.len() ==> has_no_nul((#[trigger] cols[j]).0) && is_utf8(cols[j].0),
        forall|j: int|
            0 <= j < cols.len() ==> ((#[trigger] tv.constants[j]) matches Some(
                PrimView::STR(c),
            ) ==> has_no_nul(c) && is_utf8(c)),
        forall|k: int, j: int|
            0 <= k < tv.rows.len() && 0 <= j < cols.len() ==> ((#[trigger] tv.rows[k][j])
                matches Some(PrimView::STR(c)) ==> has_no_nul(c) && is_utf8(c)),
        forall|k: int, j: int|
            0 <= k < tv.rows.len() && 0 <= j < cols.len() ==> ((#[trigger] tv.rows[k][j])
                matches Some(p) ==> spec_prim_kind(p) == cols[j].1),
        has_no_nul(name),
        is_utf8(name),
    ensures
        spec_table_write(name, cols, tv) matches Ok(bytes) ==> spec_table_read(
            name,
            cols2,
            bytes,
        ) == Err::<TableView, ErrView>(ErrView::WrongColumnName(cols[i].0, cols2[i].0)),
{
    if spec_table_write(name, cols, tv) is Ok {
        let bytes = spec_table_write(name, cols, tv)->Ok_0;
        let incl = Seq::new(cols.len(), |m: int| spec_incl(cols, tv, m));
        assert(cols.len() <= 0xFFFF);
        let wv0 = spec_writer_init(name);
        let s1 = spec_push_columns(wv0, cols, tv.constants, incl, 0);
        assert(s1.0 is Ok);
        let wv1 = s1.1;
        let s2 = spec_write_rows(wv1, cols, incl, tv.rows, 0);
        assert(s2.0 is Ok);
        let wv2 = s2.1;
        let w = spec_row_bytes(cols, incl, 0);
        assert(spec_emit(wv2, w as u16, tv.rows.len() as u32) == Ok::<Seq<u8>, ErrView>(
            bytes,
        ));
        // The fresh writer's pool is well laid out (as in the round
        // trip).
        assert(wv0.dedup[0] == (crate::writer::spec_null_name(), 0u32));
        assert(wv0.dedup[1] == (name, 7u32));
        assert(wv0.dedup.skip(1) =~= seq![(name, 7u32)]);
        assert(wv0.dedup.skip(1).skip(1) =~= Seq::<(Seq<u8>, u32)>::empty());
        assert(spec_offsets_from(wv0.dedup, 0)) by {
            assert(crate::writer::spec_null_name().len() == 6);
            assert(spec_offsets_from(wv0.dedup.skip(1).skip(1), 8 + name.len() as int));
            assert(spec_offsets_from(wv0.dedup.skip(1), 7));
        }
        assert(wv0.sd == spec_entries_pool(wv0.dedup)) by {
            assert(spec_entries_pool(wv0.dedup.skip(1).skip(1)) =~= Seq::<u8>::empty());
            assert(spec_entries_pool(wv0.dedup.skip(1)) =~= name + seq![0u8]);
            assert(spec_entries_pool(wv0.dedup) =~= crate::writer::spec_null_name()
                + seq![0u8] + (name + seq![0u8]));
            assert(wv0.sd =~= crate::writer::spec_null_name() + seq![0u8] + (name
                + seq![0u8]));
        }
        assert(spec_entries_no_nul(wv0.dedup)) by {
            assert(forall|j: int|
                0 <= j < 6 ==> crate::writer::spec_null_name()[j] != 0);
            assert(has_no_nul(wv0.dedup[0].0));
            assert(has_no_nul(wv0.dedup[1].0));
        }
        assert(spec_entries_utf8(wv0.dedup)) by {
            lemma_ascii_utf8(crate::writer::spec_null_name());
            assert(is_utf8(wv0.dedup[0].0));
            assert(is_utf8(wv0.dedup[1].0));
        }
        lemma_push_columns_preserves(cols, tv.constants, incl, 0, wv0);
        lemma_push_columns_facts(cols, tv.constants, incl, 0, wv0);
        lemma_write_rows_preserves(cols, incl, tv.rows, 0, wv1);
        lemma_write_rows_entries(cols, incl, tv.rows, 0, wv1);
        assert(wv2.dedup.len() >= 2 && wv2.dedup[1] == (name, 7u32)) by {
            lemma_prefix_trans(wv0.dedup, wv1.dedup, wv2.dedup);
            assert(wv2.dedup.subrange(0, wv0.dedup.len() as int)[1] == wv2.dedup[1]);
        }
        lemma_emit_parses(wv2, w as u16, tv.rows.len() as u32);
        let pad = spec_blob_padding(24 + wv2.cols.len() + wv2.rows.len() + wv2.sd.len() as int);
        let dedup_final = spec_with_pads(wv2.dedup, pad as nat);
        let rv0 = crate::reader::spec_reader_of(bytes);
        assert(dedup_final[1] == (name, 7u32)) by {
            assert(wv2.dedup.is_prefix_of(dedup_final));
            assert(dedup_final.subrange(0, wv2.dedup.len() as int)[1] == dedup_final[1]);
        }
        crate::text::lemma_lookup_laid_out(dedup_final, 0, 1);
        assert(crate::text::spec_lookup(rv0.strings, rv0.table_name_index) == Some(name));
        assert(rv0.field_count == cols2.len());
        assert(wv1.dedup.is_prefix_of(dedup_final)) by {
            lemma_prefix_trans(wv1.dedup, wv2.dedup, dedup_final);
        }
        assert(s1 == (Ok::<(), ErrView>(()), wv1)) by {
            assert(s1.0->Ok_0 == ());
        }
        lemma_columns_readback_mismatch(
            cols,
            cols2,
            tv.constants,
            incl,
            i,
            0,
            wv0,
            wv1,
            dedup_final,
            wv2.blobs,
            rv0,
        );
    }
}

} // verus!
