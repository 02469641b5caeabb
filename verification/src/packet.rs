//! The packet envelope: a 4-byte caller-supplied tag, a reserved value
//! preserved verbatim, the payload length, and the payload itself — a
//! whole table, optionally masked by the cipher.
//!
//! A payload that opens with the table magic is plaintext. Any other
//! payload must open with the cipher guard word, and its unmasked form
//! must open with the magic; everything else is refused outright.

use vstd::prelude::*;
use vstd::seq_lib::*;

use crate::cipher::{spec_cipher_guard, spec_masked};
use crate::error::{EofAt, Error, ErrView};
use crate::reader::spec_magic;
use crate::table::{
    spec_cols_view, spec_table_read, spec_table_write, wf_table, Table, TableSpec, TableView,
};

verus! {

/// Spec-level state of a packet.
#[verifier::ext_equal]
pub struct PacketView {
    pub prefix: Seq<u8>,
    pub encrypted: bool,
    pub unknown_value: u32,
    pub table: TableView,
}

/// The packet a read of `s` produces, for the given expected tag and
/// table description.
pub open spec fn spec_read_packet(
    name: Seq<u8>,
    cols: Seq<(Seq<u8>, crate::kinds::ValueKind, crate::kinds::ColumnStorageType, Option<bool>)>,
    prefix: Seq<u8>,
    s: Seq<u8>,
) -> Result<PacketView, ErrView> {
    if s.len() < 16 {
        Err(ErrView::EOF(EofAt::PacketHeader))
    } else if s.subrange(0, 4) != prefix {
        Err(ErrView::WrongTableSchema)
    } else {
        let unknown_value = crate::bytes::spec_u32_from_le(s.subrange(4, 8));
        let size = crate::bytes::spec_u64_from_le(s.subrange(8, 16));
        if size < 32 {
            Err(ErrView::MalformedHeader)
        } else if s.len() - 16 < size {
            Err(ErrView::EOF(EofAt::PacketPayload))
        } else {
            let payload = s.subrange(16, 16 + size);
            if payload.subrange(0, 4) == spec_magic() {
                match spec_table_read(name, cols, payload) {
                    Ok(t) => Ok(
                        PacketView { prefix, encrypted: false, unknown_value, table: t },
                    ),
                    Err(e) => Err(e),
                }
            } else if crate::bytes::spec_u32_from_le(payload.subrange(0, 4))
                != spec_cipher_guard() {
                Err(ErrView::DecryptionError)
            } else {
                let dec = spec_masked(payload);
                if dec.subrange(0, 4) == spec_magic() {
                    match spec_table_read(name, cols, dec) {
                        Ok(t) => Ok(
                            PacketView { prefix, encrypted: true, unknown_value, table: t },
                        ),
                        Err(e) => Err(e),
                    }
                } else {
                    Err(ErrView::DecryptionError)
                }
            }
        }
    }
}

/// The bytes a packet writes: the tag, the reserved value, the payload
/// length, and the table bytes, masked when the packet is marked
/// encrypted.
pub open spec fn spec_write_packet(
    name: Seq<u8>,
    cols: Seq<(Seq<u8>, crate::kinds::ValueKind, crate::kinds::ColumnStorageType, Option<bool>)>,
    pv: PacketView,
) -> Result<Seq<u8>, ErrView> {
    match spec_table_write(name, cols, pv.table) {
        Err(e) => Err(e),
        Ok(body) => Ok(
            pv.prefix + crate::bytes::spec_u32_to_le(pv.unknown_value)
                + crate::bytes::spec_u64_to_le(body.len() as u64) + (if pv.encrypted {
                spec_masked(body)
            } else {
                body
            }),
        ),
    }
}

/// Packed, encryptable UTF table.
#[derive(Debug)]
pub struct Packet {
    prefix: [u8; 4],
    encrypted: bool,
    unknown_value: u32,
    /// The table the packet carries.
    pub table: Table,
}

impl View for Packet {
    type V = PacketView;

    closed spec fn view(&self) -> PacketView {
        PacketView {
            prefix: self.prefix@,
            encrypted: self.encrypted,
            unknown_value: self.unknown_value,
            table: self.table@,
        }
    }
}

impl Packet {
    /// Creates a packet with the given tag around a fresh default table
    /// for the description.
    pub fn new(spec: &TableSpec, prefix: &[u8; 4]) -> (r: Packet)
        ensures
            r@.prefix == prefix@,
            !r@.encrypted,
            r@.unknown_value == 0,
            wf_table(spec_cols_view(spec.columns@), r@.table),
            r@.table.rows.len() == 0,
            r@.table.constants.len() == spec.columns@.len(),
    {
        Self::from_table(Table::new(spec), prefix)
    }

    /// Wraps an existing table in a packet with the given tag,
    /// unencrypted.
    pub fn from_table(table: Table, prefix: &[u8; 4]) -> (r: Packet)
        ensures
            r@.prefix == prefix@,
            !r@.encrypted,
            r@.unknown_value == 0,
            r@.table == table@,
    {
        Packet { prefix: *prefix, encrypted: false, unknown_value: 0, table }
    }

    /// Whether the packet writes its table masked.
    pub fn is_encrypted(&self) -> (r: bool)
        ensures
            r == self@.encrypted,
    {
        self.encrypted
    }

    /// Makes the packet write its table in the clear.
    pub fn disable_encryption(&mut self)
        ensures
            final(self)@ == (PacketView { encrypted: false, ..old(self)@ }),
    {
        self.encrypted = false;
    }

    /// Makes the packet mask its table when written.
    pub fn enable_encryption(&mut self)
        ensures
            final(self)@ == (PacketView { encrypted: true, ..old(self)@ }),
    {
        self.encrypted = true;
    }

    /// Reads a packet, verifying its 4-byte tag, deciding from the
    /// payload's opening bytes whether it is plaintext or masked, and
    /// decoding the table against the description.
    pub fn read_packet(spec: &TableSpec, data: &[u8], prefix: &[u8; 4]) -> (r: Result<
        Packet,
        Error,
    >)
        ensures
            match r {
                Ok(p) => spec_read_packet(spec.name@, spec_cols_view(spec.columns@), prefix@, data@)
                    == Ok::<PacketView, ErrView>(p@),
                Err(e) => spec_read_packet(
                    spec.name@,
                    spec_cols_view(spec.columns@),
                    prefix@,
                    data@,
                ) == Err::<PacketView, ErrView>(e@),
            },
    {
        if data.len() < 16 {
            return Err(Error::EOF(EofAt::PacketHeader));
        }
        if !(data[0] == prefix[0] && data[1] == prefix[1] && data[2] == prefix[2] && data[3]
            == prefix[3]) {
            proof {
                assert(data@.subrange(0, 4) != prefix@);
            }
            return Err(Error::WrongTableSchema);
        }
        proof {
            assert(data@.subrange(0, 4) =~= prefix@);
        }
        let unknown_value = crate::bytes::u32_from_le_at(data, 4);
        let size = crate::bytes::u64_from_le_at(data, 8);
        if size < 32 {
            return Err(Error::MalformedHeader);
        }
        if (data.len() as u64 - 16) < size {
            return Err(Error::EOF(EofAt::PacketPayload));
        }
        let payload = crate::bytes::copy_range(data, 16, size as usize);
        let ghost payloadv = data@.subrange(16, 16 + size as int);
        proof {
            assert(payload@ =~= payloadv);
        }
        if payload.len() >= 4 && payload[0] == 0x40 && payload[1] == 0x55 && payload[2] == 0x54
            && payload[3] == 0x46 {
            proof {
                assert(payloadv.subrange(0, 4) =~= spec_magic());
            }
            let table = match Table::read(spec, payload.as_slice()) {
                Ok(t) => t,
                Err(e) => {
                    return Err(e);
                },
            };
            return Ok(Packet { prefix: *prefix, encrypted: false, unknown_value, table });
        }
        proof {
            assert(payloadv.subrange(0, 4) != spec_magic()) by {
                assert(payloadv.subrange(0, 4)[0] == payloadv[0]);
            }
        }
        if !crate::cipher::can_decrypt(payload.as_slice()) {
            return Err(Error::DecryptionError);
        }
        let decrypted = crate::cipher::decrypt(payload.as_slice());
        if decrypted.len() >= 4 && decrypted[0] == 0x40 && decrypted[1] == 0x55 && decrypted[2]
            == 0x54 && decrypted[3] == 0x46 {
            proof {
                assert(spec_masked(payloadv).subrange(0, 4) =~= spec_magic());
            }
            let table = match Table::read(spec, decrypted.as_slice()) {
                Ok(t) => t,
                Err(e) => {
                    return Err(e);
                },
            };
            return Ok(Packet { prefix: *prefix, encrypted: true, unknown_value, table });
        }
        proof {
            assert(spec_masked(payloadv).subrange(0, 4) != spec_magic()) by {
                assert(spec_masked(payloadv).subrange(0, 4)[0] == spec_masked(payloadv)[0]);
            }
        }
        Err(Error::DecryptionError)
    }

    /// Writes the packet: the tag, the reserved value, the payload
    /// length, and the table, masked when encryption is enabled.
    pub fn write_packet(&self, spec: &TableSpec) -> (r: Result<Vec<u8>, Error>)
        requires
            wf_table(spec_cols_view(spec.columns@), self@.table),
        ensures
            match r {
                Ok(out) => spec_write_packet(spec.name@, spec_cols_view(spec.columns@), self@)
                    == Ok::<Seq<u8>, ErrView>(out@),
                Err(e) => spec_write_packet(spec.name@, spec_cols_view(spec.columns@), self@)
                    == Err::<Seq<u8>, ErrView>(e@),
            },
    {
        let body = match self.table.write(spec) {
            Ok(b) => b,
            Err(e) => {
                return Err(e);
            },
        };
        let mut out: Vec<u8> = Vec::new();
        out.push(self.prefix[0]);
        out.push(self.prefix[1]);
        out.push(self.prefix[2]);
        out.push(self.prefix[3]);
        proof {
            assert_seqs_equal!(out@ == self@.prefix);
        }
        crate::bytes::push_u32_le(&mut out, self.unknown_value);
        crate::bytes::push_u64_le(&mut out, body.len() as u64);
        if self.encrypted {
            let masked = crate::cipher::encrypt(body.as_slice());
            crate::bytes::append_bytes(&mut out, masked.as_slice());
        } else {
            crate::bytes::append_bytes(&mut out, body.as_slice());
        }
        proof {
            assert(out@ =~= spec_write_packet(spec.name@, spec_cols_view(spec.columns@), self@)
                ->Ok_0);
        }
        Ok(out)
    }
}

/// The first four bytes of a masked table are exactly the cipher guard:
/// masking the table magic gives the guard word, so a masked table is
/// always recognized as ciphertext and never as plaintext.
pub proof fn lemma_masked_magic_is_guard(body: Seq<u8>)
    requires
        body.len() >= 4,
        body.subrange(0, 4) == spec_magic(),
    ensures
        crate::bytes::spec_u32_from_le(spec_masked(body).subrange(0, 4))
            == spec_cipher_guard(),
        spec_masked(body).subrange(0, 4) != spec_magic(),
{
    let m = spec_masked(body);
    assert(body[0] == 0x40 && body[1] == 0x55 && body[2] == 0x54 && body[3] == 0x46) by {
        assert(body.subrange(0, 4)[0] == body[0]);
        assert(body.subrange(0, 4)[1] == body[1]);
        assert(body.subrange(0, 4)[2] == body[2]);
        assert(body.subrange(0, 4)[3] == body[3]);
    }
    assert(0x40u8 ^ 95u8 == 0x1F && 0x55u8 ^ 203u8 == 0x9E && 0x54u8 ^ 167u8 == 0xF3
        && 0x46u8 ^ 179u8 == 0xF5) by (bit_vector);
    assert(m[0] == 0x1F && m[1] == 0x9E && m[2] == 0xF3 && m[3] == 0xF5);
    assert(m.subrange(0, 4) =~= seq![0x1Fu8, 0x9Eu8, 0xF3u8, 0xF5u8]);
    assert((0x1Fu32) | (0x9Eu32) << 8 | (0xF3u32) << 16 | (0xF5u32) << 24 == 0xF5F39E1Fu32)
        by (bit_vector);
    assert(crate::bytes::spec_u32_from_le(m.subrange(0, 4)) == spec_cipher_guard());
    assert(m.subrange(0, 4)[0] != spec_magic()[0]);
}

/// An encrypted packet decodes to the same table as the plaintext
/// packet with the same tag, reserved value and table bytes: masking
/// only flips the encrypted flag of what a read produces.
pub proof fn lemma_packet_cipher_roundtrip(
    name: Seq<u8>,
    cols: Seq<(Seq<u8>, crate::kinds::ValueKind, crate::kinds::ColumnStorageType, Option<bool>)>,
    prefix: Seq<u8>,
    unknown_value: u32,
    body: Seq<u8>,
)
    requires
        prefix.len() == 4,
        32 <= body.len() <= 0xFFFF_FFFF,
        body.subrange(0, 4) == spec_magic(),
    ensures
        ({
            let header = prefix + crate::bytes::spec_u32_to_le(unknown_value)
                + crate::bytes::spec_u64_to_le(body.len() as u64);
            let plain = header + body;
            let enc = header + spec_masked(body);
            match spec_read_packet(name, cols, prefix, plain) {
                Ok(p) => spec_read_packet(name, cols, prefix, enc) == Ok::<PacketView, ErrView>(
                    PacketView { encrypted: true, ..p },
                ),
                Err(e) => spec_read_packet(name, cols, prefix, enc) == Err::<
                    PacketView,
                    ErrView,
                >(e),
            }
        }),
{
    let header = prefix + crate::bytes::spec_u32_to_le(unknown_value)
        + crate::bytes::spec_u64_to_le(body.len() as u64);
    let plain = header + body;
    let enc = header + spec_masked(body);
    assert(header.len() == 16);
    assert(plain.subrange(0, 4) =~= prefix);
    assert(enc.subrange(0, 4) =~= prefix);
    assert(plain.subrange(4, 8) =~= crate::bytes::spec_u32_to_le(unknown_value));
    assert(enc.subrange(4, 8) =~= crate::bytes::spec_u32_to_le(unknown_value));
    assert(plain.subrange(8, 16) =~= crate::bytes::spec_u64_to_le(body.len() as u64));
    assert(enc.subrange(8, 16) =~= crate::bytes::spec_u64_to_le(body.len() as u64));
    let size = crate::bytes::spec_u64_from_le(plain.subrange(8, 16));
    assert(size == body.len() as u64) by {
        let x = body.len() as u64;
        assert(crate::bytes::spec_u64_from_le(crate::bytes::spec_u64_to_le(x)) == x) by {
            assert(((x & 0xff) as u8 as u64) | (((x >> 8) & 0xff) as u8 as u64) << 8
                | (((x >> 16) & 0xff) as u8 as u64) << 16
                | (((x >> 24) & 0xff) as u8 as u64) << 24
                | (((x >> 32) & 0xff) as u8 as u64) << 32
                | (((x >> 40) & 0xff) as u8 as u64) << 40
                | (((x >> 48) & 0xff) as u8 as u64) << 48
                | (((x >> 56) & 0xff) as u8 as u64) << 56 == x) by (bit_vector);
        }
    }
    assert(plain.subrange(16, 16 + size as int) =~= body);
    assert(enc.subrange(16, 16 + size as int) =~= spec_masked(body));
    lemma_masked_magic_is_guard(body);
    crate::cipher::lemma_cipher_self_inverse(body);
    assert(spec_masked(spec_masked(body)) == body);
}

} // verus!
