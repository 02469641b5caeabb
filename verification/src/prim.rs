//! The primitive values a table can store, and how each is decoded from
//! and encoded into its fixed-width on-disk buffer.
//!
//! Numbers travel big-endian. A string value travels as a 4-byte offset
//! into the string pool; writing deduplicates against content already in
//! the pool. A blob travels as a packed (offset, length) pair of 4-byte
//! fields into the blob pool; writing always appends.

use vstd::prelude::*;
use vstd::seq_lib::*;

use crate::bytes::{
    spec_u16_from_be, spec_u16_to_be, spec_u32_from_be, spec_u32_to_be,
};
use crate::error::Error;
use crate::kinds::{spec_utf_size_of, ValueKind};
use crate::text::{spec_dedup_find, spec_lookup, StringDedup, StringTable};

verus! {

/// A decoded primitive value.
///
/// `F32` carries the raw 4-byte big-endian bit pattern of the stored
/// value; the codec round-trips it without interpreting it.
#[derive(Debug, Clone, PartialEq)]
pub enum Primitive {
    U8(u8),
    I8(i8),
    U16(u16),
    I16(i16),
    U32(u32),
    I32(i32),
    U64(u64),
    I64(i64),
    F32(u32),
    STR(Vec<u8>),
    BLOB(Vec<u8>),
}

/// Spec-level mirror of `Primitive`, with byte strings as sequences.
pub enum PrimView {
    U8(u8),
    I8(i8),
    U16(u16),
    I16(i16),
    U32(u32),
    I32(i32),
    U64(u64),
    I64(i64),
    F32(u32),
    STR(Seq<u8>),
    BLOB(Seq<u8>),
}

impl View for Primitive {
    type V = PrimView;

    open spec fn view(&self) -> PrimView {
        match self {
            Primitive::U8(x) => PrimView::U8(*x),
            Primitive::I8(x) => PrimView::I8(*x),
            Primitive::U16(x) => PrimView::U16(*x),
            Primitive::I16(x) => PrimView::I16(*x),
            Primitive::U32(x) => PrimView::U32(*x),
            Primitive::I32(x) => PrimView::I32(*x),
            Primitive::U64(x) => PrimView::U64(*x),
            Primitive::I64(x) => PrimView::I64(*x),
            Primitive::F32(x) => PrimView::F32(*x),
            Primitive::STR(s) => PrimView::STR(s@),
            Primitive::BLOB(b) => PrimView::BLOB(b@),
        }
    }
}

/// The value kind of a primitive value.
pub open spec fn spec_prim_kind(v: PrimView) -> ValueKind {
    match v {
        PrimView::U8(_) => ValueKind::U8,
        PrimView::I8(_) => ValueKind::I8,
        PrimView::U16(_) => ValueKind::U16,
        PrimView::I16(_) => ValueKind::I16,
        PrimView::U32(_) => ValueKind::U32,
        PrimView::I32(_) => ValueKind::I32,
        PrimView::U64(_) => ValueKind::U64,
        PrimView::I64(_) => ValueKind::I64,
        PrimView::F32(_) => ValueKind::F32,
        PrimView::STR(_) => ValueKind::STR,
        PrimView::BLOB(_) => ValueKind::BLOB,
    }
}

impl Primitive {
    /// The value kind of this primitive.
    pub fn kind(&self) -> (k: ValueKind)
        ensures
            k == spec_prim_kind(self@),
    {
        match self {
            Primitive::U8(_) => ValueKind::U8,
            Primitive::I8(_) => ValueKind::I8,
            Primitive::U16(_) => ValueKind::U16,
            Primitive::I16(_) => ValueKind::I16,
            Primitive::U32(_) => ValueKind::U32,
            Primitive::I32(_) => ValueKind::I32,
            Primitive::U64(_) => ValueKind::U64,
            Primitive::I64(_) => ValueKind::I64,
            Primitive::F32(_) => ValueKind::F32,
            Primitive::STR(_) => ValueKind::STR,
            Primitive::BLOB(_) => ValueKind::BLOB,
        }
    }

    /// The default value of a kind: zero for numbers, empty for strings
    /// and blobs.
    pub fn default_of(kind: ValueKind) -> (r: Primitive)
        ensures
            spec_prim_kind(r@) == kind,
            r@ == spec_default_of(kind),
    {
        let r = match kind {
            ValueKind::U8 => Primitive::U8(0),
            ValueKind::I8 => Primitive::I8(0),
            ValueKind::U16 => Primitive::U16(0),
            ValueKind::I16 => Primitive::I16(0),
            ValueKind::U32 => Primitive::U32(0),
            ValueKind::I32 => Primitive::I32(0),
            ValueKind::U64 => Primitive::U64(0),
            ValueKind::I64 => Primitive::I64(0),
            ValueKind::F32 => Primitive::F32(0),
            ValueKind::STR => Primitive::STR(Vec::new()),
            ValueKind::BLOB => Primitive::BLOB(Vec::new()),
        };
        r
    }

    /// The stored number, where this is a byte value.
    pub fn unwrap_u8(self) -> (r: u8)
        requires
            self@ is U8,
        ensures
            self@ == PrimView::U8(r),
    {
        match self {
            Primitive::U8(x) => x,
            _ => {
                proof {
                    assert(false);
                }
                0
            },
        }
    }

    /// The stored bytes, where this is a string value.
    pub fn unwrap_str(self) -> (r: Vec<u8>)
        requires
            self@ is STR,
        ensures
            self@ == PrimView::STR(r@),
    {
        match self {
            Primitive::STR(s) => s,
            _ => {
                proof {
                    assert(false);
                }
                Vec::new()
            },
        }
    }

    /// The stored bytes, where this is a string value; the wrong-kind
    /// error otherwise.
    pub fn str_bytes(&self) -> (r: Result<&Vec<u8>, Error>)
        ensures
            match r {
                Ok(v) => self@ matches PrimView::STR(s) && v@ == s,
                Err(e) => !(self@ is STR) && e@ == crate::error::ErrView::ValueConversion(
                    spec_prim_kind(self@),
                    ValueKind::STR,
                ),
            },
    {
        match self {
            Primitive::STR(s) => Ok(s),
            _ => Err(Error::ValueConversion(self.kind(), ValueKind::STR)),
        }
    }

    /// The stored bytes, where this is a blob value; the wrong-kind
    /// error otherwise.
    pub fn blob_bytes(&self) -> (r: Result<&Vec<u8>, Error>)
        ensures
            match r {
                Ok(v) => self@ matches PrimView::BLOB(b) && v@ == b,
                Err(e) => !(self@ is BLOB) && e@ == crate::error::ErrView::ValueConversion(
                    spec_prim_kind(self@),
                    ValueKind::BLOB,
                ),
            },
    {
        match self {
            Primitive::BLOB(b) => Ok(b),
            _ => Err(Error::ValueConversion(self.kind(), ValueKind::BLOB)),
        }
    }

    /// The stored bytes of a blob value of exactly `len` bytes, the
    /// wrong-size error for a blob of another length, and the wrong-kind
    /// error for any other value. This is the fixed-size byte-array view
    /// of a blob column.
    pub fn blob_sized(&self, len: usize) -> (r: Result<Vec<u8>, Error>)
        ensures
            match r {
                Ok(v) => self@ matches PrimView::BLOB(b) && b.len() == len && v@ == b,
                Err(e) => match self@ {
                    PrimView::BLOB(b) => b.len() != len && e@
                        == crate::error::ErrView::BlobWrongSize,
                    _ => e@ == crate::error::ErrView::ValueConversion(
                        spec_prim_kind(self@),
                        ValueKind::BLOB,
                    ),
                },
            },
    {
        match self {
            Primitive::BLOB(b) => {
                if b.len() == len {
                    Ok(crate::bytes::copy_range(b.as_slice(), 0, len))
                } else {
                    Err(Error::BlobWrongSize)
                }
            },
            _ => Err(Error::ValueConversion(self.kind(), ValueKind::BLOB)),
        }
    }
}

/// The view of an optional primitive.
pub open spec fn spec_opt_view(v: Option<Primitive>) -> Option<PrimView> {
    match v {
        Some(p) => Some(p@),
        None => None,
    }
}

/// The default value of a kind.
pub open spec fn spec_default_of(kind: ValueKind) -> PrimView {
    match kind {
        ValueKind::U8 => PrimView::U8(0),
        ValueKind::I8 => PrimView::I8(0),
        ValueKind::U16 => PrimView::U16(0),
        ValueKind::I16 => PrimView::I16(0),
        ValueKind::U32 => PrimView::U32(0),
        ValueKind::I32 => PrimView::I32(0),
        ValueKind::U64 => PrimView::U64(0),
        ValueKind::I64 => PrimView::I64(0),
        ValueKind::F32 => PrimView::F32(0),
        ValueKind::STR => PrimView::STR(Seq::empty()),
        ValueKind::BLOB => PrimView::BLOB(Seq::empty()),
    }
}

/// The primitive denoted by a fixed-width buffer of the given kind,
/// against the given pools: `None` when a string offset resolves to no
/// pool entry or a blob range runs past the end of the blob pool.
pub open spec fn spec_decode_prim(
    kind: ValueKind,
    buf: Seq<u8>,
    strings: Seq<(u32, Seq<u8>)>,
    blobs: Seq<u8>,
) -> Option<PrimView>
    recommends
        buf.len() == spec_utf_size_of(kind),
{
    match kind {
        ValueKind::U8 => Some(PrimView::U8(buf[0])),
        ValueKind::I8 => Some(PrimView::I8(#[verifier::truncate] (buf[0] as i8))),
        ValueKind::U16 => Some(PrimView::U16(spec_u16_from_be(buf))),
        ValueKind::I16 => Some(PrimView::I16(#[verifier::truncate] (spec_u16_from_be(buf) as i16))),
        ValueKind::U32 => Some(PrimView::U32(spec_u32_from_be(buf))),
        ValueKind::I32 => Some(PrimView::I32(#[verifier::truncate] (spec_u32_from_be(buf) as i32))),
        ValueKind::U64 => Some(PrimView::U64(crate::bytes::spec_u64_from_be(buf))),
        ValueKind::I64 => Some(PrimView::I64(#[verifier::truncate] (crate::bytes::spec_u64_from_be(buf) as i64))),
        ValueKind::F32 => Some(PrimView::F32(spec_u32_from_be(buf))),
        ValueKind::STR => match spec_lookup(strings, spec_u32_from_be(buf)) {
            Some(s) => Some(PrimView::STR(s)),
            None => None,
        },
        ValueKind::BLOB => {
            let off = spec_u32_from_be(buf.subrange(0, 4));
            let len = spec_u32_from_be(buf.subrange(4, 8));
            if off + len > blobs.len() {
                None
            } else {
                Some(PrimView::BLOB(blobs.subrange(off as int, off + len)))
            }
        },
    }
}

/// Decodes one fixed-width buffer of the given kind against the pools.
///
/// Returns `None` exactly when the buffer's reference into a pool does
/// not resolve: a string offset at which no entry starts, or a blob
/// range whose end lies past the end of the blob pool.
pub fn decode_primitive(
    kind: ValueKind,
    buf: &[u8],
    strings: &StringTable,
    blobs: &Vec<u8>,
) -> (r: Option<Primitive>)
    requires
        buf@.len() == spec_utf_size_of(kind),
    ensures
        match r {
            Some(v) => spec_decode_prim(kind, buf@, strings@, blobs@) == Some(v@),
            None => spec_decode_prim(kind, buf@, strings@, blobs@) is None,
        },
{
    proof {
        assert(buf@.subrange(0, buf@.len() as int) =~= buf@);
    }
    match kind {
        ValueKind::U8 => Some(Primitive::U8(buf[0])),
        ValueKind::I8 => Some(Primitive::I8(#[verifier::truncate] (buf[0] as i8))),
        ValueKind::U16 => {
            let x = crate::bytes::u16_from_be_at(buf, 0);
            Some(Primitive::U16(x))
        },
        ValueKind::I16 => {
            let x = crate::bytes::u16_from_be_at(buf, 0);
            Some(Primitive::I16(#[verifier::truncate] (x as i16)))
        },
        ValueKind::U32 => {
            let x = crate::bytes::u32_from_be_at(buf, 0);
            Some(Primitive::U32(x))
        },
        ValueKind::I32 => {
            let x = crate::bytes::u32_from_be_at(buf, 0);
            Some(Primitive::I32(#[verifier::truncate] (x as i32)))
        },
        ValueKind::U64 => {
            let x = crate::bytes::u64_from_be_at(buf, 0);
            Some(Primitive::U64(x))
        },
        ValueKind::I64 => {
            let x = crate::bytes::u64_from_be_at(buf, 0);
            Some(Primitive::I64(#[verifier::truncate] (x as i64)))
        },
        ValueKind::F32 => {
            let x = crate::bytes::u32_from_be_at(buf, 0);
            Some(Primitive::F32(x))
        },
        ValueKind::STR => {
            let off = crate::bytes::u32_from_be_at(buf, 0);
            match strings.find(off) {
                Some(s) => Some(Primitive::STR(s)),
                None => None,
            }
        },
        ValueKind::BLOB => {
            let off = crate::bytes::u32_from_be_at(buf, 0);
            let len = crate::bytes::u32_from_be_at(buf, 4);
            let end: u64 = off as u64 + len as u64;
            if end > blobs.len() as u64 {
                None
            } else {
                let content = crate::bytes::copy_range(
                    blobs.as_slice(),
                    off as usize,
                    len as usize,
                );
                Some(Primitive::BLOB(content))
            }
        },
    }
}

/// The pool state and buffer after encoding one primitive: the new
/// deduplication table, string pool bytes and blob pool bytes, and the
/// fixed-width buffer to store. `None` when a pool has outgrown the
/// 4-byte offset fields of the format.
pub open spec fn spec_encode_prim(
    v: PrimView,
    dedup: Seq<(Seq<u8>, u32)>,
    sd: Seq<u8>,
    blobs: Seq<u8>,
) -> Option<(Seq<(Seq<u8>, u32)>, Seq<u8>, Seq<u8>, Seq<u8>)> {
    match v {
        PrimView::U8(x) => Some((dedup, sd, blobs, seq![x])),
        PrimView::I8(x) => Some((dedup, sd, blobs, seq![#[verifier::truncate] (x as u8)])),
        PrimView::U16(x) => Some((dedup, sd, blobs, spec_u16_to_be(x))),
        PrimView::I16(x) => Some((dedup, sd, blobs, spec_u16_to_be(#[verifier::truncate] (x as u16)))),
        PrimView::U32(x) => Some((dedup, sd, blobs, spec_u32_to_be(x))),
        PrimView::I32(x) => Some((dedup, sd, blobs, spec_u32_to_be(#[verifier::truncate] (x as u32)))),
        PrimView::U64(x) => Some((dedup, sd, blobs, crate::bytes::spec_u64_to_be(x))),
        PrimView::I64(x) => Some((dedup, sd, blobs, crate::bytes::spec_u64_to_be(#[verifier::truncate] (x as u64)))),
        PrimView::F32(x) => Some((dedup, sd, blobs, spec_u32_to_be(x))),
        PrimView::STR(s) => match spec_dedup_find(dedup, s) {
            Some(off) => Some((dedup, sd, blobs, spec_u32_to_be(off))),
            None => if sd.len() <= 0xFFFF_FFFF {
                Some((
                    dedup.push((s, sd.len() as u32)),
                    sd + s + seq![0u8],
                    blobs,
                    spec_u32_to_be(sd.len() as u32),
                ))
            } else {
                None
            },
        },
        PrimView::BLOB(b) => if blobs.len() <= 0xFFFF_FFFF && b.len() <= 0xFFFF_FFFF {
            Some((
                dedup,
                sd,
                blobs + b,
                spec_u32_to_be(blobs.len() as u32) + spec_u32_to_be(b.len() as u32),
            ))
        } else {
            None
        },
    }
}

/// Encodes one primitive into its fixed-width buffer, updating the
/// pools: a string is deduplicated against the pool (reusing the offset
/// it was first written at), a blob is always appended.
///
/// Fails with `MalformedHeader` exactly when a pool has outgrown the
/// 4-byte offset fields of the format.
pub fn encode_primitive(
    v: &Primitive,
    dedup: &mut StringDedup,
    string_data: &mut Vec<u8>,
    blobs: &mut Vec<u8>,
) -> (r: Result<Vec<u8>, Error>)
    ensures
        match spec_encode_prim(v@, old(dedup)@, old(string_data)@, old(blobs)@) {
            Some(t) => r matches Ok(buf) && final(dedup)@ == t.0 && final(string_data)@ == t.1
                && final(blobs)@ == t.2 && buf@ == t.3,
            None => r matches Err(e) && e@ is MalformedHeader && final(dedup)@ == old(dedup)@
                && final(string_data)@ == old(string_data)@ && final(blobs)@ == old(blobs)@,
        },
        r matches Ok(buf) ==> buf@.len() == spec_utf_size_of(spec_prim_kind(v@)),
{
    let mut out: Vec<u8> = Vec::new();
    match v {
        Primitive::U8(x) => {
            out.push(*x);
            proof {
                assert_seqs_equal!(out@ == seq![*x]);
            }
            Ok(out)
        },
        Primitive::I8(x) => {
            out.push(#[verifier::truncate] (*x as u8));
            proof {
                assert_seqs_equal!(out@ == seq![#[verifier::truncate] (*x as u8)]);
            }
            Ok(out)
        },
        Primitive::U16(x) => {
            crate::bytes::push_u16_be(&mut out, *x);
            proof {
                assert(out@ =~= spec_u16_to_be(*x));
            }
            Ok(out)
        },
        Primitive::I16(x) => {
            crate::bytes::push_u16_be(&mut out, #[verifier::truncate] (*x as u16));
            proof {
                assert(out@ =~= spec_u16_to_be(#[verifier::truncate] (*x as u16)));
            }
            Ok(out)
        },
        Primitive::U32(x) => {
            crate::bytes::push_u32_be(&mut out, *x);
            proof {
                assert(out@ =~= spec_u32_to_be(*x));
            }
            Ok(out)
        },
        Primitive::I32(x) => {
            crate::bytes::push_u32_be(&mut out, #[verifier::truncate] (*x as u32));
            proof {
                assert(out@ =~= spec_u32_to_be(#[verifier::truncate] (*x as u32)));
            }
            Ok(out)
        },
        Primitive::U64(x) => {
            crate::bytes::push_u64_be(&mut out, *x);
            proof {
                assert(out@ =~= crate::bytes::spec_u64_to_be(*x));
            }
            Ok(out)
        },
        Primitive::I64(x) => {
            crate::bytes::push_u64_be(&mut out, #[verifier::truncate] (*x as u64));
            proof {
                assert(out@ =~= crate::bytes::spec_u64_to_be(#[verifier::truncate] (*x as u64)));
            }
            Ok(out)
        },
        Primitive::F32(x) => {
            crate::bytes::push_u32_be(&mut out, *x);
            proof {
                assert(out@ =~= spec_u32_to_be(*x));
            }
            Ok(out)
        },
        Primitive::STR(s) => {
            match dedup.find(s.as_slice()) {
                Some(off) => {
                    crate::bytes::push_u32_be(&mut out, off);
                    proof {
                        assert(out@ =~= spec_u32_to_be(off));
                    }
                    Ok(out)
                },
                None => {
                    if string_data.len() > 0xFFFF_FFFFusize {
                        return Err(Error::MalformedHeader);
                    }
                    let position = string_data.len() as u32;
                    let content = crate::bytes::copy_range(s.as_slice(), 0, s.len());
                    crate::bytes::append_bytes(string_data, s.as_slice());
                    string_data.push(0u8);
                    dedup.add(content, position);
                    crate::bytes::push_u32_be(&mut out, position);
                    proof {
                        assert(out@ =~= spec_u32_to_be(position));
                        assert(content@ =~= s@);
                        assert_seqs_equal!(
                            string_data@ == old(string_data)@ + s@ + seq![0u8]
                        );
                    }
                    Ok(out)
                },
            }
        },
        Primitive::BLOB(b) => {
            if blobs.len() > 0xFFFF_FFFFusize || b.len() > 0xFFFF_FFFFusize {
                return Err(Error::MalformedHeader);
            }
            let off = blobs.len() as u32;
            let len = b.len() as u32;
            crate::bytes::append_bytes(blobs, b.as_slice());
            crate::bytes::push_u32_be(&mut out, off);
            crate::bytes::push_u32_be(&mut out, len);
            proof {
                assert(out@ =~= spec_u32_to_be(off) + spec_u32_to_be(len));
            }
            Ok(out)
        },
    }
}

/// Encoding then decoding a numeric primitive gives the value back,
/// whatever the pools: the number round-trips through its big-endian
/// buffer.
pub proof fn lemma_numeric_roundtrip(
    v: PrimView,
    dedup: Seq<(Seq<u8>, u32)>,
    sd: Seq<u8>,
    blobs: Seq<u8>,
    strings: Seq<(u32, Seq<u8>)>,
    blobs2: Seq<u8>,
)
    requires
        !(v is STR),
        !(v is BLOB),
    ensures
        spec_encode_prim(v, dedup, sd, blobs) matches Some(t) && spec_decode_prim(
            spec_prim_kind(v),
            t.3,
            strings,
            blobs2,
        ) == Some(v),
{
    crate::bytes::lemma_u16_be_roundtrip();
    crate::bytes::lemma_u32_be_roundtrip();
    crate::bytes::lemma_u64_be_roundtrip();
    match v {
        PrimView::I8(x) => {
            assert((x as u8) as i8 == x) by (bit_vector);
        },
        PrimView::I16(x) => {
            assert((x as u16) as i16 == x) by (bit_vector);
        },
        PrimView::I32(x) => {
            assert((x as u32) as i32 == x) by (bit_vector);
        },
        PrimView::I64(x) => {
            assert((x as u64) as i64 == x) by (bit_vector);
        },
        _ => {},
    }
}

/// A blob reference whose range runs past the end of the blob pool
/// never decodes: the decode is refused, whatever the pools hold.
pub proof fn lemma_blob_out_of_range(buf: Seq<u8>, strings: Seq<(u32, Seq<u8>)>, blobs: Seq<u8>)
    requires
        buf.len() == 8,
        spec_u32_from_be(buf.subrange(0, 4)) + spec_u32_from_be(buf.subrange(4, 8)) > blobs.len(),
    ensures
        spec_decode_prim(ValueKind::BLOB, buf, strings, blobs) is None,
{
}

} // verus!
