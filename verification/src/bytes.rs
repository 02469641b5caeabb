//! Big-endian byte encoding of the fixed-width integers of the table
//! format, and small byte-buffer helpers.
//!
//! Everything on the wire is big-endian except the packet envelope, which
//! uses little-endian fields.

use vstd::prelude::*;
use vstd::seq_lib::*;

verus! {

/// The value of a 2-byte big-endian sequence.
pub open spec fn spec_u16_from_be(s: Seq<u8>) -> u16
    recommends
        s.len() == 2,
{
    (s[0] as u16) << 8 | (s[1] as u16)
}

/// The 2-byte big-endian encoding of a `u16`.
pub open spec fn spec_u16_to_be(x: u16) -> Seq<u8> {
    seq![((x >> 8) & 0xff) as u8, (x & 0xff) as u8]
}

/// The value of a 4-byte big-endian sequence.
pub open spec fn spec_u32_from_be(s: Seq<u8>) -> u32
    recommends
        s.len() == 4,
{
    (s[0] as u32) << 24 | (s[1] as u32) << 16 | (s[2] as u32) << 8 | (s[3] as u32)
}

/// The 4-byte big-endian encoding of a `u32`.
pub open spec fn spec_u32_to_be(x: u32) -> Seq<u8> {
    seq![
        ((x >> 24) & 0xff) as u8,
        ((x >> 16) & 0xff) as u8,
        ((x >> 8) & 0xff) as u8,
        (x & 0xff) as u8,
    ]
}

/// The value of an 8-byte big-endian sequence.
pub open spec fn spec_u64_from_be(s: Seq<u8>) -> u64
    recommends
        s.len() == 8,
{
    (s[0] as u64) << 56 | (s[1] as u64) << 48 | (s[2] as u64) << 40 | (s[3] as u64) << 32
        | (s[4] as u64) << 24 | (s[5] as u64) << 16 | (s[6] as u64) << 8 | (s[7] as u64)
}

/// The 8-byte big-endian encoding of a `u64`.
pub open spec fn spec_u64_to_be(x: u64) -> Seq<u8> {
    seq![
        ((x >> 56) & 0xff) as u8,
        ((x >> 48) & 0xff) as u8,
        ((x >> 40) & 0xff) as u8,
        ((x >> 32) & 0xff) as u8,
        ((x >> 24) & 0xff) as u8,
        ((x >> 16) & 0xff) as u8,
        ((x >> 8) & 0xff) as u8,
        (x & 0xff) as u8,
    ]
}

/// Big-endian encode and decode of a `u16` are mutually inverse.
pub proof fn lemma_u16_be_roundtrip()
    ensures
        forall|x: u16| spec_u16_from_be(#[trigger] spec_u16_to_be(x)) == x,
        forall|s: Seq<u8>|
            s.len() == 2 ==> spec_u16_to_be(#[trigger] spec_u16_from_be(s)) == s,
{
    assert forall|x: u16| spec_u16_from_be(#[trigger] spec_u16_to_be(x)) == x by {
        assert((((x >> 8) & 0xff) as u8 as u16) << 8 | ((x & 0xff) as u8 as u16) == x)
            by (bit_vector);
    }
    assert forall|s: Seq<u8>| s.len() == 2 implies spec_u16_to_be(
        #[trigger] spec_u16_from_be(s),
    ) == s by {
        let s0 = s[0];
        let s1 = s[1];
        let x = spec_u16_from_be(s);
        assert(((((s0 as u16) << 8 | (s1 as u16)) >> 8) & 0xff) as u8 == s0) by (bit_vector);
        assert((((s0 as u16) << 8 | (s1 as u16)) & 0xff) as u8 == s1) by (bit_vector);
        assert_seqs_equal!(spec_u16_to_be(x) == s);
    }
}

/// Big-endian encode and decode of a `u32` are mutually inverse.
pub proof fn lemma_u32_be_roundtrip()
    ensures
        forall|x: u32| spec_u32_from_be(#[trigger] spec_u32_to_be(x)) == x,
        forall|s: Seq<u8>|
            s.len() == 4 ==> spec_u32_to_be(#[trigger] spec_u32_from_be(s)) == s,
{
    assert forall|x: u32| spec_u32_from_be(#[trigger] spec_u32_to_be(x)) == x by {
        assert((((x >> 24) & 0xff) as u8 as u32) << 24 | (((x >> 16) & 0xff) as u8 as u32) << 16
            | (((x >> 8) & 0xff) as u8 as u32) << 8 | ((x & 0xff) as u8 as u32) == x)
            by (bit_vector);
    }
    assert forall|s: Seq<u8>| s.len() == 4 implies spec_u32_to_be(
        #[trigger] spec_u32_from_be(s),
    ) == s by {
        let s0 = s[0];
        let s1 = s[1];
        let s2 = s[2];
        let s3 = s[3];
        let x = spec_u32_from_be(s);
        assert(x == (s0 as u32) << 24 | (s1 as u32) << 16 | (s2 as u32) << 8 | (s3 as u32));
        assert(((((s0 as u32) << 24 | (s1 as u32) << 16 | (s2 as u32) << 8 | (s3 as u32)) >> 24)
            & 0xff) as u8 == s0) by (bit_vector);
        assert(((((s0 as u32) << 24 | (s1 as u32) << 16 | (s2 as u32) << 8 | (s3 as u32)) >> 16)
            & 0xff) as u8 == s1) by (bit_vector);
        assert(((((s0 as u32) << 24 | (s1 as u32) << 16 | (s2 as u32) << 8 | (s3 as u32)) >> 8)
            & 0xff) as u8 == s2) by (bit_vector);
        assert((((s0 as u32) << 24 | (s1 as u32) << 16 | (s2 as u32) << 8 | (s3 as u32))
            & 0xff) as u8 == s3) by (bit_vector);
        assert_seqs_equal!(spec_u32_to_be(x) == s);
    }
}

/// Big-endian encode and decode of a `u64` are mutually inverse.
pub proof fn lemma_u64_be_roundtrip()
    ensures
        forall|x: u64| spec_u64_from_be(#[trigger] spec_u64_to_be(x)) == x,
        forall|s: Seq<u8>|
            s.len() == 8 ==> spec_u64_to_be(#[trigger] spec_u64_from_be(s)) == s,
{
    assert forall|x: u64| spec_u64_from_be(#[trigger] spec_u64_to_be(x)) == x by {
        assert((((x >> 56) & 0xff) as u8 as u64) << 56 | (((x >> 48) & 0xff) as u8 as u64) << 48
            | (((x >> 40) & 0xff) as u8 as u64) << 40 | (((x >> 32) & 0xff) as u8 as u64) << 32
            | (((x >> 24) & 0xff) as u8 as u64) << 24 | (((x >> 16) & 0xff) as u8 as u64) << 16
            | (((x >> 8) & 0xff) as u8 as u64) << 8 | ((x & 0xff) as u8 as u64) == x)
            by (bit_vector);
    }
    assert forall|s: Seq<u8>| s.len() == 8 implies spec_u64_to_be(
        #[trigger] spec_u64_from_be(s),
    ) == s by {
        let s0 = s[0];
        let s1 = s[1];
        let s2 = s[2];
        let s3 = s[3];
        let s4 = s[4];
        let s5 = s[5];
        let s6 = s[6];
        let s7 = s[7];
        let x = spec_u64_from_be(s);
        assert(x == (s0 as u64) << 56 | (s1 as u64) << 48 | (s2 as u64) << 40 | (s3 as u64) << 32
            | (s4 as u64) << 24 | (s5 as u64) << 16 | (s6 as u64) << 8 | (s7 as u64));
        let y = (s0 as u64) << 56 | (s1 as u64) << 48 | (s2 as u64) << 40 | (s3 as u64) << 32
            | (s4 as u64) << 24 | (s5 as u64) << 16 | (s6 as u64) << 8 | (s7 as u64);
        assert(((y >> 56) & 0xff) as u8 == s0 && ((y >> 48) & 0xff) as u8 == s1
            && ((y >> 40) & 0xff) as u8 == s2 && ((y >> 32) & 0xff) as u8 == s3
            && ((y >> 24) & 0xff) as u8 == s4 && ((y >> 16) & 0xff) as u8 == s5
            && ((y >> 8) & 0xff) as u8 == s6 && (y & 0xff) as u8 == s7) by (bit_vector)
            requires
                y == (s0 as u64) << 56 | (s1 as u64) << 48 | (s2 as u64) << 40
                    | (s3 as u64) << 32 | (s4 as u64) << 24 | (s5 as u64) << 16
                    | (s6 as u64) << 8 | (s7 as u64),
        ;
        assert_seqs_equal!(spec_u64_to_be(x) == s);
    }
}

/// Reads the 2-byte big-endian integer at offset `i`.
pub fn u16_from_be_at(s: &[u8], i: usize) -> (x: u16)
    requires
        i + 2 <= s@.len(),
    ensures
        x == spec_u16_from_be(s@.subrange(i as int, i as int + 2)),
{
    let b0 = s[i];
    let b1 = s[i + 1];
    ((b0 as u16) << 8) | (b1 as u16)
}

/// Reads the 4-byte big-endian integer at offset `i`.
pub fn u32_from_be_at(s: &[u8], i: usize) -> (x: u32)
    requires
        i + 4 <= s@.len(),
    ensures
        x == spec_u32_from_be(s@.subrange(i as int, i as int + 4)),
{
    let b0 = s[i];
    let b1 = s[i + 1];
    let b2 = s[i + 2];
    let b3 = s[i + 3];
    ((b0 as u32) << 24) | ((b1 as u32) << 16) | ((b2 as u32) << 8) | (b3 as u32)
}

/// Reads the 8-byte big-endian integer at offset `i`.
pub fn u64_from_be_at(s: &[u8], i: usize) -> (x: u64)
    requires
        i + 8 <= s@.len(),
    ensures
        x == spec_u64_from_be(s@.subrange(i as int, i as int + 8)),
{
    let b0 = s[i];
    let b1 = s[i + 1];
    let b2 = s[i + 2];
    let b3 = s[i + 3];
    let b4 = s[i + 4];
    let b5 = s[i + 5];
    let b6 = s[i + 6];
    let b7 = s[i + 7];
    ((b0 as u64) << 56) | ((b1 as u64) << 48) | ((b2 as u64) << 40) | ((b3 as u64) << 32)
        | ((b4 as u64) << 24) | ((b5 as u64) << 16) | ((b6 as u64) << 8) | (b7 as u64)
}

/// Appends the 2-byte big-endian encoding of `x`.
pub fn push_u16_be(out: &mut Vec<u8>, x: u16)
    ensures
        final(out)@ == old(out)@ + spec_u16_to_be(x),
{
    out.push(((x >> 8) & 0xff) as u8);
    out.push((x & 0xff) as u8);
    proof {
        assert_seqs_equal!(out@ == old(out)@ + spec_u16_to_be(x));
    }
}

/// Appends the 4-byte big-endian encoding of `x`.
pub fn push_u32_be(out: &mut Vec<u8>, x: u32)
    ensures
        final(out)@ == old(out)@ + spec_u32_to_be(x),
{
    out.push(((x >> 24) & 0xff) as u8);
    out.push(((x >> 16) & 0xff) as u8);
    out.push(((x >> 8) & 0xff) as u8);
    out.push((x & 0xff) as u8);
    proof {
        assert_seqs_equal!(out@ == old(out)@ + spec_u32_to_be(x));
    }
}

/// Appends the 8-byte big-endian encoding of `x`.
pub fn push_u64_be(out: &mut Vec<u8>, x: u64)
    ensures
        final(out)@ == old(out)@ + spec_u64_to_be(x),
{
    out.push(((x >> 56) & 0xff) as u8);
    out.push(((x >> 48) & 0xff) as u8);
    out.push(((x >> 40) & 0xff) as u8);
    out.push(((x >> 32) & 0xff) as u8);
    out.push(((x >> 24) & 0xff) as u8);
    out.push(((x >> 16) & 0xff) as u8);
    out.push(((x >> 8) & 0xff) as u8);
    out.push((x & 0xff) as u8);
    proof {
        assert_seqs_equal!(out@ == old(out)@ + spec_u64_to_be(x));
    }
}

/// Appends all of `src` to `dst`.
pub fn append_bytes(dst: &mut Vec<u8>, src: &[u8])
    ensures
        final(dst)@ == old(dst)@ + src@,
{
    let mut i: usize = 0;
    while i < src.len()
        invariant
            i <= src@.len(),
            dst@ == old(dst)@ + src@.subrange(0, i as int),
        decreases src@.len() - i,
    {
        dst.push(src[i]);
        i = i + 1;
        proof {
            assert_seqs_equal!(dst@ == old(dst)@ + src@.subrange(0, i as int));
        }
    }
    proof {
        assert_seqs_equal!(src@.subrange(0, src@.len() as int) == src@);
    }
}

/// Copies `len` bytes of `src` starting at `start` into a fresh buffer.
pub fn copy_range(src: &[u8], start: usize, len: usize) -> (r: Vec<u8>)
    requires
        start + len <= src@.len(),
    ensures
        r@ == src@.subrange(start as int, start as int + len as int),
{
    let n = src.len();
    let mut out: Vec<u8> = Vec::new();
    let mut i: usize = 0;
    while i < len
        invariant
            i <= len,
            start + len <= n,
            n == src@.len(),
            out@ == src@.subrange(start as int, start as int + i as int),
        decreases len - i,
    {
        out.push(src[start + i]);
        i = i + 1;
        proof {
            assert_seqs_equal!(out@ == src@.subrange(start as int, start as int + i as int));
        }
    }
    out
}

/// Appends `n` zero bytes.
pub fn push_zeroes(out: &mut Vec<u8>, n: usize)
    ensures
        final(out)@ == old(out)@ + Seq::new(n as nat, |j: int| 0u8),
{
    let mut i: usize = 0;
    while i < n
        invariant
            i <= n,
            out@ == old(out)@ + Seq::new(i as nat, |j: int| 0u8),
        decreases n - i,
    {
        out.push(0u8);
        i = i + 1;
        proof {
            assert_seqs_equal!(out@ == old(out)@ + Seq::new(i as nat, |j: int| 0u8));
        }
    }
}

/// Whether two byte vectors hold the same bytes.
pub fn bytes_eq(a: &[u8], b: &[u8]) -> (r: bool)
    ensures
        r == (a@ == b@),
{
    if a.len() != b.len() {
        proof {
            assert(a@ != b@);
        }
        return false;
    }
    let n = a.len();
    let mut i: usize = 0;
    while i < n
        invariant
            i <= n,
            n == a@.len() == b@.len(),
            forall|j: int| 0 <= j < i ==> a@[j] == b@[j],
        decreases n - i,
    {
        if a[i] != b[i] {
            return false;
        }
        i = i + 1;
    }
    proof {
        assert_seqs_equal!(a@ == b@);
    }
    true
}

/// The value of a 4-byte little-endian sequence.
pub open spec fn spec_u32_from_le(s: Seq<u8>) -> u32
    recommends
        s.len() == 4,
{
    (s[0] as u32) | (s[1] as u32) << 8 | (s[2] as u32) << 16 | (s[3] as u32) << 24
}

/// The 4-byte little-endian encoding of a `u32`.
pub open spec fn spec_u32_to_le(x: u32) -> Seq<u8> {
    seq![
        (x & 0xff) as u8,
        ((x >> 8) & 0xff) as u8,
        ((x >> 16) & 0xff) as u8,
        ((x >> 24) & 0xff) as u8,
    ]
}

/// The value of an 8-byte little-endian sequence.
pub open spec fn spec_u64_from_le(s: Seq<u8>) -> u64
    recommends
        s.len() == 8,
{
    (s[0] as u64) | (s[1] as u64) << 8 | (s[2] as u64) << 16 | (s[3] as u64) << 24
        | (s[4] as u64) << 32 | (s[5] as u64) << 40 | (s[6] as u64) << 48 | (s[7] as u64) << 56
}

/// The 8-byte little-endian encoding of a `u64`.
pub open spec fn spec_u64_to_le(x: u64) -> Seq<u8> {
    seq![
        (x & 0xff) as u8,
        ((x >> 8) & 0xff) as u8,
        ((x >> 16) & 0xff) as u8,
        ((x >> 24) & 0xff) as u8,
        ((x >> 32) & 0xff) as u8,
        ((x >> 40) & 0xff) as u8,
        ((x >> 48) & 0xff) as u8,
        ((x >> 56) & 0xff) as u8,
    ]
}

/// Little-endian encode and decode of a `u32` are mutually inverse.
pub proof fn lemma_u32_le_roundtrip()
    ensures
        forall|x: u32| spec_u32_from_le(#[trigger] spec_u32_to_le(x)) == x,
        forall|s: Seq<u8>|
            s.len() == 4 ==> spec_u32_to_le(#[trigger] spec_u32_from_le(s)) == s,
{
    assert forall|x: u32| spec_u32_from_le(#[trigger] spec_u32_to_le(x)) == x by {
        assert(((x & 0xff) as u8 as u32) | (((x >> 8) & 0xff) as u8 as u32) << 8
            | (((x >> 16) & 0xff) as u8 as u32) << 16 | (((x >> 24) & 0xff) as u8 as u32) << 24
            == x) by (bit_vector);
    }
    assert forall|s: Seq<u8>| s.len() == 4 implies spec_u32_to_le(
        #[trigger] spec_u32_from_le(s),
    ) == s by {
        let s0 = s[0];
        let s1 = s[1];
        let s2 = s[2];
        let s3 = s[3];
        let x = spec_u32_from_le(s);
        assert(x == (s0 as u32) | (s1 as u32) << 8 | (s2 as u32) << 16 | (s3 as u32) << 24);
        assert((((s0 as u32) | (s1 as u32) << 8 | (s2 as u32) << 16 | (s3 as u32) << 24)
            & 0xff) as u8 == s0) by (bit_vector);
        assert(((((s0 as u32) | (s1 as u32) << 8 | (s2 as u32) << 16 | (s3 as u32) << 24) >> 8)
            & 0xff) as u8 == s1) by (bit_vector);
        assert(((((s0 as u32) | (s1 as u32) << 8 | (s2 as u32) << 16 | (s3 as u32) << 24) >> 16)
            & 0xff) as u8 == s2) by (bit_vector);
        assert(((((s0 as u32) | (s1 as u32) << 8 | (s2 as u32) << 16 | (s3 as u32) << 24) >> 24)
            & 0xff) as u8 == s3) by (bit_vector);
        assert_seqs_equal!(spec_u32_to_le(x) == s);
    }
}

/// Reads the 4-byte little-endian integer at offset `i`.
pub fn u32_from_le_at(s: &[u8], i: usize) -> (x: u32)
    requires
        i + 4 <= s@.len(),
    ensures
        x == spec_u32_from_le(s@.subrange(i as int, i as int + 4)),
{
    let b0 = s[i];
    let b1 = s[i + 1];
    let b2 = s[i + 2];
    let b3 = s[i + 3];
    (b0 as u32) | ((b1 as u32) << 8) | ((b2 as u32) << 16) | ((b3 as u32) << 24)
}

/// Reads the 8-byte little-endian integer at offset `i`.
pub fn u64_from_le_at(s: &[u8], i: usize) -> (x: u64)
    requires
        i + 8 <= s@.len(),
    ensures
        x == spec_u64_from_le(s@.subrange(i as int, i as int + 8)),
{
    let b0 = s[i];
    let b1 = s[i + 1];
    let b2 = s[i + 2];
    let b3 = s[i + 3];
    let b4 = s[i + 4];
    let b5 = s[i + 5];
    let b6 = s[i + 6];
    let b7 = s[i + 7];
    (b0 as u64) | ((b1 as u64) << 8) | ((b2 as u64) << 16) | ((b3 as u64) << 24)
        | ((b4 as u64) << 32) | ((b5 as u64) << 40) | ((b6 as u64) << 48) | ((b7 as u64) << 56)
}

/// Appends the 4-byte little-endian encoding of `x`.
pub fn push_u32_le(out: &mut Vec<u8>, x: u32)
    ensures
        final(out)@ == old(out)@ + spec_u32_to_le(x),
{
    out.push((x & 0xff) as u8);
    out.push(((x >> 8) & 0xff) as u8);
    out.push(((x >> 16) & 0xff) as u8);
    out.push(((x >> 24) & 0xff) as u8);
    proof {
        assert_seqs_equal!(out@ == old(out)@ + spec_u32_to_le(x));
    }
}

/// Appends the 8-byte little-endian encoding of `x`.
pub fn push_u64_le(out: &mut Vec<u8>, x: u64)
    ensures
        final(out)@ == old(out)@ + spec_u64_to_le(x),
{
    out.push((x & 0xff) as u8);
    out.push(((x >> 8) & 0xff) as u8);
    out.push(((x >> 16) & 0xff) as u8);
    out.push(((x >> 24) & 0xff) as u8);
    out.push(((x >> 32) & 0xff) as u8);
    out.push(((x >> 40) & 0xff) as u8);
    out.push(((x >> 48) & 0xff) as u8);
    out.push(((x >> 56) & 0xff) as u8);
    proof {
        assert_seqs_equal!(out@ == old(out)@ + spec_u64_to_le(x));
    }
}

/// Little-endian encode and decode of a `u64` are mutually inverse.
pub proof fn lemma_u64_le_roundtrip()
    ensures
        forall|x: u64| spec_u64_from_le(#[trigger] spec_u64_to_le(x)) == x,
{
    assert forall|x: u64| spec_u64_from_le(#[trigger] spec_u64_to_le(x)) == x by {
        assert(((x & 0xff) as u8 as u64) | (((x >> 8) & 0xff) as u8 as u64) << 8
            | (((x >> 16) & 0xff) as u8 as u64) << 16 | (((x >> 24) & 0xff) as u8 as u64) << 24
            | (((x >> 32) & 0xff) as u8 as u64) << 32 | (((x >> 40) & 0xff) as u8 as u64) << 40
            | (((x >> 48) & 0xff) as u8 as u64) << 48 | (((x >> 56) & 0xff) as u8 as u64) << 56
            == x) by (bit_vector);
    }
}

} // verus!
