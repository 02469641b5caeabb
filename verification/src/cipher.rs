//! The packet cipher: a positional XOR of the payload against a fixed
//! 64-byte repeating mask.
//!
//! The transform is its own inverse, so encryption and decryption share
//! one definition. Two implementations are provided: a byte-at-a-time
//! one and a faster one that walks whole 64-byte blocks and falls back to
//! the byte path for the remainder. Both meet the same exact contract, so
//! their outputs are byte-identical on every input.

use vstd::prelude::*;
use vstd::seq_lib::*;
use vstd::arithmetic::div_mod::lemma_mod_multiples_vanish;

verus! {

/// The fixed 64-byte mask.
pub open spec fn mask_seq() -> Seq<u8> {
    seq![
        95u8, 203u8, 167u8, 179u8, 175u8, 91u8, 119u8, 195u8, 255u8, 235u8, 71u8, 211u8,
        79u8, 123u8, 23u8, 227u8, 159u8, 11u8, 231u8, 243u8, 239u8, 155u8, 183u8, 3u8,
        63u8, 43u8, 135u8, 19u8, 143u8, 187u8, 87u8, 35u8, 223u8, 75u8, 39u8, 51u8,
        47u8, 219u8, 247u8, 67u8, 127u8, 107u8, 199u8, 83u8, 207u8, 251u8, 151u8, 99u8,
        31u8, 139u8, 103u8, 115u8, 111u8, 27u8, 55u8, 131u8, 191u8, 171u8, 7u8, 147u8,
        15u8, 59u8, 215u8, 163u8,
    ]
}

/// The little-endian guard value that marks a masked payload.
pub open spec fn spec_cipher_guard() -> u32 {
    0xF5F39E1Fu32
}

/// The masked form of a byte sequence: byte `i` is XORed with mask byte
/// `i % 64`.
pub open spec fn spec_masked(s: Seq<u8>) -> Seq<u8> {
    Seq::new(s.len(), |i: int| s[i] ^ mask_seq()[i % 64])
}

/// Applying the mask twice gives the input back: the cipher is its own
/// inverse, for any buffer length.
pub proof fn lemma_cipher_self_inverse(s: Seq<u8>)
    ensures
        spec_masked(spec_masked(s)) == s,
{
    assert(forall|a: u8, b: u8| (a ^ b) ^ b == a) by (bit_vector);
    assert_seqs_equal!(spec_masked(spec_masked(s)) == s);
}

/// The fixed mask as a 64-byte buffer.
fn cipher_mask() -> (r: Vec<u8>)
    ensures
        r@ == mask_seq(),
{
    let m: Vec<u8> = vec![
        95u8, 203u8, 167u8, 179u8, 175u8, 91u8, 119u8, 195u8, 255u8, 235u8, 71u8, 211u8,
        79u8, 123u8, 23u8, 227u8, 159u8, 11u8, 231u8, 243u8, 239u8, 155u8, 183u8, 3u8,
        63u8, 43u8, 135u8, 19u8, 143u8, 187u8, 87u8, 35u8, 223u8, 75u8, 39u8, 51u8,
        47u8, 219u8, 247u8, 67u8, 127u8, 107u8, 199u8, 83u8, 207u8, 251u8, 151u8, 99u8,
        31u8, 139u8, 103u8, 115u8, 111u8, 27u8, 55u8, 131u8, 191u8, 171u8, 7u8, 147u8,
        15u8, 59u8, 215u8, 163u8,
    ];
    proof {
        assert_seqs_equal!(m@ == mask_seq());
    }
    m
}

/// Whether a packet payload carries the cipher guard, i.e. is
/// recognizable ciphertext.
pub fn can_decrypt(src: &[u8]) -> (r: bool)
    requires
        src@.len() >= 4,
    ensures
        r == (crate::bytes::spec_u32_from_le(src@.subrange(0, 4)) == spec_cipher_guard()),
{
    let word = crate::bytes::u32_from_le_at(src, 0);
    word == 0xF5F39E1Fu32
}

/// Byte-at-a-time application of the mask.
pub fn decrypt_fallback(src: &[u8]) -> (r: Vec<u8>)
    ensures
        r@ == spec_masked(src@),
{
    let mask = cipher_mask();
    let mut out: Vec<u8> = Vec::new();
    let n = src.len();
    let mut i: usize = 0;
    while i < n
        invariant
            i <= n,
            n == src@.len(),
            mask@ == mask_seq(),
            out@.len() == i,
            forall|j: int| 0 <= j < i ==> out@[j] == (src@[j] ^ mask_seq()[j % 64]),
        decreases n - i,
    {
        out.push(src[i] ^ mask[i % 64]);
        i = i + 1;
    }
    proof {
        assert_seqs_equal!(out@ == spec_masked(src@));
    }
    out
}

/// Block-at-a-time application of the mask: whole 64-byte blocks are
/// processed in an inner loop, and the remainder byte by byte. Produces
/// exactly the bytes of `decrypt_fallback`.
pub fn decrypt(src: &[u8]) -> (r: Vec<u8>)
    ensures
        r@ == spec_masked(src@),
{
    let mask = cipher_mask();
    let mut out: Vec<u8> = Vec::new();
    let n = src.len();
    let mut i: usize = 0;
    while n - i >= 64
        invariant
            i <= n,
            n == src@.len(),
            i % 64 == 0,
            mask@ == mask_seq(),
            out@.len() == i,
            forall|j: int| 0 <= j < i ==> out@[j] == (src@[j] ^ mask_seq()[j % 64]),
        decreases n - i,
    {
        let mut k: usize = 0;
        while k < 64
            invariant
                k <= 64,
                i + 64 <= n,
                n == src@.len(),
                i % 64 == 0,
                mask@ == mask_seq(),
                out@.len() == i + k,
                forall|j: int| 0 <= j < i + k ==> out@[j] == (src@[j] ^ mask_seq()[j % 64]),
            decreases 64 - k,
        {
            out.push(src[i + k] ^ mask[k]);
            proof {
                lemma_mod_multiples_vanish(i as int / 64, k as int, 64);
                assert((i + k) % 64 == k as int % 64);
            }
            k = k + 1;
        }
        i = i + 64;
    }
    while i < n
        invariant
            i <= n,
            n == src@.len(),
            mask@ == mask_seq(),
            out@.len() == i,
            forall|j: int| 0 <= j < i ==> out@[j] == (src@[j] ^ mask_seq()[j % 64]),
        decreases n - i,
    {
        out.push(src[i] ^ mask[i % 64]);
        i = i + 1;
    }
    proof {
        assert_seqs_equal!(out@ == spec_masked(src@));
    }
    out
}

/// Applies the mask for writing. The transform is self-inverse, so this
/// is the same operation as `decrypt`.
pub fn encrypt(src: &[u8]) -> (r: Vec<u8>)
    ensures
        r@ == spec_masked(src@),
{
    decrypt(src)
}

} // verus!
