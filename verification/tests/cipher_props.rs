//! The cipher: self-inverse on every length, and both implementations
//! byte-identical.

use criware_utf::cipher::{can_decrypt, decrypt, decrypt_fallback, encrypt};

fn sample_buffer(len: usize, seed: u8) -> Vec<u8> {
    let mut buf = Vec::with_capacity(len);
    let mut x: u8 = seed;
    for i in 0..len {
        x = x.wrapping_mul(31).wrapping_add(i as u8).wrapping_add(7);
        buf.push(x);
    }
    buf
}

#[test]
fn cipher_is_self_inverse_for_all_small_lengths() {
    for len in 0..300usize {
        let buf = sample_buffer(len, 3);
        let enc = encrypt(buf.as_slice());
        assert_eq!(enc.len(), len);
        let dec = decrypt(enc.as_slice());
        assert_eq!(dec, buf);
        let twice = encrypt(enc.as_slice());
        assert_eq!(twice, buf);
    }
}

#[test]
fn cipher_is_self_inverse_beyond_1024() {
    for len in [512usize, 1023, 1024, 1025, 1100, 2048] {
        let buf = sample_buffer(len, 9);
        let dec = decrypt(decrypt(buf.as_slice()).as_slice());
        assert_eq!(dec, buf);
    }
}

#[test]
fn block_and_byte_paths_are_identical() {
    for len in 0..200usize {
        let buf = sample_buffer(len, 5);
        assert_eq!(decrypt(buf.as_slice()), decrypt_fallback(buf.as_slice()));
    }
    for len in [63usize, 64, 65, 127, 128, 129, 1023, 1024, 1025] {
        let buf = sample_buffer(len, 11);
        assert_eq!(decrypt(buf.as_slice()), decrypt_fallback(buf.as_slice()));
    }
}

#[test]
fn cipher_actually_changes_bytes() {
    let buf = vec![0u8; 64];
    let enc = encrypt(buf.as_slice());
    // XOR with the mask of an all-zero buffer reproduces the mask, whose
    // first byte is 95.
    assert_eq!(enc[0], 95);
    assert_ne!(enc, buf);
}

#[test]
fn guard_word_is_recognized() {
    assert!(can_decrypt(&[0x1F, 0x9E, 0xF3, 0xF5, 0, 0]));
    assert!(!can_decrypt(&[0x40, 0x55, 0x54, 0x46]));
    assert!(!can_decrypt(&[0xF5, 0xF3, 0x9E, 0x1F]));
}

#[test]
fn masked_table_magic_is_the_guard() {
    // The first four bytes of a masked table are exactly the guard word,
    // which is how a ciphertext payload is recognized.
    let magic = vec![0x40u8, 0x55, 0x54, 0x46, 0, 0, 0, 0];
    let masked = encrypt(magic.as_slice());
    assert!(can_decrypt(masked.as_slice()));
}
