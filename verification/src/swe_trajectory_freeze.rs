//! The tamper-evident BLAKE3 commitment envelope around a frozen SWE
//! attempt, and the parameterless state-magnitude encoder handle.
//!
//! Header layout (48 bytes): `magic (4) || version (u32 LE) || merkle_root
//! (32) || data_len (u64 LE)`. `merkle_root` is the BLAKE3 digest of the
//! payload; `commitment` is the BLAKE3 digest of the header.

use vstd::prelude::*;
use vstd::bytes::spec_u32_to_le_bytes;
use vstd::bytes::spec_u64_to_le_bytes;
use vstd::bytes::u32_to_le_bytes;
use vstd::bytes::u64_to_le_bytes;
use crate::digest::blake3_digest;
use crate::digest::blake3_hash;

verus! {

/// Wire-format magic of the envelope: ASCII `"SWTF"`.
pub const SWTF_MAGIC: [u8; 4] = [0x53u8, 0x57u8, 0x54u8, 0x46u8];

/// Envelope version 1.
pub const SWTF_VERSION: u32 = 1;

/// The sequence-trajectory state-magnitude encoder. It is parameterless:
/// its features are raw state-magnitude statistics, with no scale tuning.
#[derive(Clone, Copy, Debug, Default)]
pub struct StateMagnitudeEncoder;

impl StateMagnitudeEncoder {
    /// Construct a state-magnitude encoder.
    pub fn new() -> (e: Self)
        ensures
            e == StateMagnitudeEncoder,
    {
        StateMagnitudeEncoder
    }
}

/// The envelope header: `magic || version (LE) || merkle_root || data_len (LE)`.
pub open spec fn header_bytes(magic: Seq<u8>, version: u32, merkle_root: Seq<u8>, data_len: u64) -> Seq<u8> {
    magic + spec_u32_to_le_bytes(version) + merkle_root + spec_u64_to_le_bytes(data_len)
}

/// A lightweight BLAKE3 commitment envelope wrapping a frozen attempt.
#[derive(Clone, Copy, Debug)]
pub struct TrajectoryFreezeEnvelope {
    /// Format magic bytes: always [`SWTF_MAGIC`].
    pub magic: [u8; 4],
    /// Envelope version: currently [`SWTF_VERSION`].
    pub version: u32,
    /// BLAKE3 digest of the serialized payload.
    pub merkle_root: [u8; 32],
    /// Byte length of the serialized payload.
    pub data_len: u64,
    /// BLAKE3 digest of the header `(magic, version, merkle_root, data_len)`.
    pub commitment: [u8; 32],
}

impl TrajectoryFreezeEnvelope {
    /// This envelope is the one [`Self::freeze`] builds for `payload`.
    pub open spec fn is_freeze_of(&self, payload: Seq<u8>) -> bool {
        &&& self.magic@ == SWTF_MAGIC@
        &&& self.version == SWTF_VERSION
        &&& self.merkle_root@ == blake3_digest(payload)
        &&& self.data_len == payload.len()
        &&& self.commitment@ == blake3_digest(
            header_bytes(SWTF_MAGIC@, SWTF_VERSION, blake3_digest(payload), payload.len() as u64),
        )
    }

    /// The header check: current magic and version, and a commitment that is
    /// the digest of the header.
    pub open spec fn header_valid(&self) -> bool {
        &&& self.magic@ == SWTF_MAGIC@
        &&& self.version == SWTF_VERSION
        &&& blake3_digest(header_bytes(SWTF_MAGIC@, SWTF_VERSION, self.merkle_root@, self.data_len))
            == self.commitment@
    }

    /// The full check: a valid header whose merkle root is the payload's
    /// digest.
    pub open spec fn payload_valid(&self, payload: Seq<u8>) -> bool {
        self.header_valid() && blake3_digest(payload) == self.merkle_root@
    }

    /// Construct an envelope from the serialized payload bytes:
    /// `merkle_root` = BLAKE3(payload), `data_len` = payload length,
    /// `commitment` = BLAKE3(header).
    pub fn freeze(payload: &[u8]) -> (e: Self)
        ensures
            e.is_freeze_of(payload@),
    {
        let merkle_root = blake3_hash(payload);
        let data_len = payload.len() as u64;
        let header = envelope_header(&SWTF_MAGIC, SWTF_VERSION, &merkle_root, data_len);
        let commitment = blake3_hash(header.as_slice());
        Self { magic: SWTF_MAGIC, version: SWTF_VERSION, merkle_root, data_len, commitment }
    }

    /// Verify the header commitment: `false` if the magic or version is not
    /// current, or if the recomputed header digest differs from the
    /// commitment. Does not look at any payload.
    pub fn verify_header(&self) -> (ok: bool)
        ensures
            ok == self.header_valid(),
    {
        let magic_ok = self.magic[0] == SWTF_MAGIC[0] && self.magic[1] == SWTF_MAGIC[1]
            && self.magic[2] == SWTF_MAGIC[2] && self.magic[3] == SWTF_MAGIC[3];
        if !magic_ok || self.version != SWTF_VERSION {
            proof {
                if self.magic@ == SWTF_MAGIC@ {
                    assert(self.magic@[0] == SWTF_MAGIC@[0]);
                    assert(self.magic@[1] == SWTF_MAGIC@[1]);
                    assert(self.magic@[2] == SWTF_MAGIC@[2]);
                    assert(self.magic@[3] == SWTF_MAGIC@[3]);
                }
            }
            return false;
        }
        assert(self.magic@ =~= SWTF_MAGIC@);
        let header = envelope_header(&SWTF_MAGIC, SWTF_VERSION, &self.merkle_root, self.data_len);
        let recomputed = blake3_hash(header.as_slice());
        digests_equal(&recomputed, &self.commitment)
    }

    /// Full verification: [`Self::verify_header`] passes and the payload's
    /// digest equals the merkle root.
    pub fn verify_payload(&self, payload: &[u8]) -> (ok: bool)
        ensures
            ok == self.payload_valid(payload@),
            ok ==> self.commitment@ == blake3_digest(
                header_bytes(SWTF_MAGIC@, SWTF_VERSION, self.merkle_root@, self.data_len),
            ),
            ok ==> self.merkle_root@ == blake3_digest(payload@),
    {
        if !self.verify_header() {
            return false;
        }
        let recomputed = blake3_hash(payload);
        digests_equal(&recomputed, &self.merkle_root)
    }
}

/// Append `bytes` to `out`.
fn push_bytes(out: &mut Vec<u8>, bytes: &[u8])
    ensures
        final(out)@ == old(out)@ + bytes@,
{
    let mut i: usize = 0;
    while i < bytes.len()
        invariant
            i <= bytes@.len(),
            out@ == old(out)@ + bytes@.subrange(0, i as int),
        decreases bytes@.len() - i,
    {
        out.push(bytes[i]);
        assert(bytes@.subrange(0, i + 1) =~= bytes@.subrange(0, i as int).push(bytes@[i as int]));
        i += 1;
    }
    assert(bytes@.subrange(0, i as int) =~= bytes@);
}

/// Serialize the 48-byte envelope header.
pub fn envelope_header(magic: &[u8; 4], version: u32, merkle_root: &[u8; 32], data_len: u64) -> (h: Vec<u8>)
    ensures
        h@ == header_bytes(magic@, version, merkle_root@, data_len),
{
    let mut h: Vec<u8> = Vec::new();
    push_bytes(&mut h, magic.as_slice());
    let v = u32_to_le_bytes(version);
    push_bytes(&mut h, v.as_slice());
    push_bytes(&mut h, merkle_root.as_slice());
    let l = u64_to_le_bytes(data_len);
    push_bytes(&mut h, l.as_slice());
    h
}

/// Byte-wise equality of two digests.
fn digests_equal(a: &[u8; 32], b: &[u8; 32]) -> (eq: bool)
    ensures
        eq == (a@ == b@),
{
    let mut i: usize = 0;
    while i < 32
        invariant
            i <= 32,
            forall|j: int| 0 <= j < i ==> a@[j] == b@[j],
        decreases 32 - i,
    {
        if a[i] != b[i] {
            return false;
        }
        i += 1;
    }
    assert(a@ =~= b@);
    true
}

/// Freezing then verifying succeeds: the envelope of a payload passes the
/// header check and the full check against that same payload; against any
/// other payload the full check passes exactly when the digests agree.
pub proof fn law_freeze_then_verify(e: TrajectoryFreezeEnvelope, payload: Seq<u8>, other: Seq<u8>)
    requires
        e.is_freeze_of(payload),
    ensures
        e.header_valid(),
        e.payload_valid(payload),
        e.payload_valid(other) <==> blake3_digest(other) == blake3_digest(payload),
{
}

/// The full check implies the header check, for every envelope (not only a
/// freshly frozen one): an envelope that passes the full check has the
/// current magic and version, a commitment that is the BLAKE3 digest of its
/// header, and a merkle root that is the digest of the payload.
pub proof fn law_full_check_implies_header_check(e: TrajectoryFreezeEnvelope, payload: Seq<u8>)
    requires
        e.payload_valid(payload),
    ensures
        e.header_valid(),
        e.magic@ == SWTF_MAGIC@,
        e.version == SWTF_VERSION,
        e.commitment@ == blake3_digest(
            header_bytes(SWTF_MAGIC@, SWTF_VERSION, e.merkle_root@, e.data_len),
        ),
        e.merkle_root@ == blake3_digest(payload),
{
}

} // verus!
