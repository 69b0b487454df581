//! Pre-allocated `CHUNKS.BIN` container: power-loss atomic record framing, ping-pong
//! checkpoints, and the dual-mode (MicroSD or RAM-only) storage manager.
use vstd::prelude::*;
use crate::bytes::{
    be2, be4, be8, copy_into, fill_zero, get_be2, get_be4, get_be8, lemma_be2_roundtrip,
    lemma_be4_roundtrip, lemma_be8_roundtrip, load_be2, load_be4, load_be8, splice, store_be2,
    store_be4, store_be8, store_bytes,
};
use crate::frame::{CIPHERTEXT_LEN, RECORD_COMMIT_MARKER, RECORD_MAGIC, StorageModeStatus, MeshPacket};
use crate::sram_ring::SramRingBuffer;

verus! {

pub const RECORD_SIZE: usize = 116;
pub const SECTOR_SIZE: usize = 512;
/// First block of the chunk container, after the reserved sectors.
pub const CONTAINER_START_LBA: u32 = 10;
/// Checkpoint magic ("GCPT").
pub const CHECKPOINT_MAGIC: [u8; 4] = [0x47, 0x43, 0x50, 0x54];

#[derive(Debug, Clone, Copy, PartialEq, Eq, Structural)]
pub enum StorageError {
    DeviceError,
    TornWriteDetected,
    InvalidMagic,
    CrcMismatch,
    BufferTooSmall,
    SectorOutOfBounds,
}

/// One step of the reflected CRC-32 register (polynomial 0xEDB88320) over one input bit.
pub open spec fn crc32_step(crc: u32, bit: u32) -> u32 {
    if (crc ^ bit) & 1u32 != 0 {
        (crc >> 1u32) ^ 0xEDB8_8320u32
    } else {
        crc >> 1u32
    }
}

/// CRC-32 register after the first `n` bits of `data`, least significant bit of each byte
/// first, starting from all ones.
pub open spec fn crc32_bits(data: Seq<u8>, n: int) -> u32
    decreases n,
{
    if n <= 0 {
        0xFFFF_FFFFu32
    } else {
        let k = n - 1;
        crc32_step(crc32_bits(data, k), ((data[k / 8] >> ((k % 8) as u8)) & 1u8) as u32)
    }
}

/// The CRC-32 (IEEE 802.3) checksum of some bytes: the reflected register over all their
/// bits, finally inverted.
pub open spec fn crc32_ieee(data: Seq<u8>) -> u32 {
    crc32_bits(data, (data.len() * 8) as int) ^ 0xFFFF_FFFFu32
}

/// Calls `crc32fast::hash`: the CRC-32 (IEEE) checksum of `data`.
#[verifier::external_body]
fn crc32(data: &[u8]) -> (r: u32)
    ensures
        r == crc32_ieee(data@),
{
    crc32fast::hash(data)
}

/// Checksummed part of a chunk record: magic, sequence, length, ciphertext.
pub open spec fn record_body(sequence: u64, ciphertext: Seq<u8>) -> Seq<u8> {
    RECORD_MAGIC@ + be8(sequence) + be2(CIPHERTEXT_LEN as u16) + ciphertext
}

/// The 116-byte framing of a chunk record: body, CRC-32 of the body, commit word last.
pub open spec fn record_bytes(r: ChunkRecord) -> Seq<u8> {
    let body = record_body(r.sequence, r.ciphertext@);
    body + be4(crc32_ieee(body)) + be2(RECORD_COMMIT_MARKER)
}

/// What a 116-byte record decodes to: the first failing check, in the order magic,
/// commit word, checksum; else the sequence and ciphertext.
pub open spec fn record_decoded(b: Seq<u8>) -> Result<(u64, Seq<u8>), StorageError> {
    if b.subrange(0, 4) != RECORD_MAGIC@ {
        Err(StorageError::InvalidMagic)
    } else if get_be2(b, 114) != RECORD_COMMIT_MARKER {
        Err(StorageError::TornWriteDetected)
    } else if crc32_ieee(b.subrange(0, 110)) != get_be4(b, 110) {
        Err(StorageError::CrcMismatch)
    } else {
        Ok((get_be8(b, 4), b.subrange(14, 110)))
    }
}

/// Power-loss atomic record in the chunk container.
#[derive(Debug, Clone, Copy, PartialEq, Eq)]
pub struct ChunkRecord {
    pub sequence: u64,
    pub ciphertext: [u8; CIPHERTEXT_LEN],
}

/// Decoding a freshly framed record gives the record back.
pub proof fn lemma_record_roundtrip(r: ChunkRecord)
    ensures
        record_bytes(r).len() == RECORD_SIZE,
        record_decoded(record_bytes(r)) == Ok::<(u64, Seq<u8>), StorageError>((r.sequence, r.ciphertext@)),
{
    let b = record_bytes(r);
    let body = record_body(r.sequence, r.ciphertext@);
    assert(b.subrange(0, 110) =~= body);
    assert(b.subrange(0, 4) =~= RECORD_MAGIC@);
    lemma_be8_roundtrip(r.sequence);
    lemma_be4_roundtrip(crc32_ieee(body));
    lemma_be2_roundtrip(RECORD_COMMIT_MARKER);
    assert(b.subrange(4, 12) =~= be8(r.sequence));
    assert(b.subrange(110, 114) =~= be4(crc32_ieee(body)));
    assert(b.subrange(114, 116) =~= be2(RECORD_COMMIT_MARKER));
    assert(get_be8(b, 4) == get_be8(b.subrange(4, 12), 0));
    assert(get_be4(b, 110) == get_be4(b.subrange(110, 114), 0));
    assert(get_be2(b, 114) == get_be2(b.subrange(114, 116), 0));
    assert(b.subrange(14, 110) =~= r.ciphertext@);
}

/// Whether the first four bytes of `b` equal `magic`.
fn magic_matches(b: &[u8], magic: [u8; 4]) -> (r: bool)
    requires
        4 <= b@.len(),
    ensures
        r == (b@.subrange(0, 4) == magic@),
{
    let ok = b[0] == magic[0] && b[1] == magic[1] && b[2] == magic[2] && b[3] == magic[3];
    if ok {
        assert(b@.subrange(0, 4) =~= magic@);
    } else {
        assert(b@.subrange(0, 4) != magic@) by {
            if b@.subrange(0, 4) == magic@ {
                assert(b@.subrange(0, 4)[0] == b@[0]);
                assert(b@.subrange(0, 4)[1] == b@[1]);
                assert(b@.subrange(0, 4)[2] == b@[2]);
                assert(b@.subrange(0, 4)[3] == b@[3]);
            }
        }
    }
    ok
}

impl ChunkRecord {
    pub const BYTE_LEN: usize = 116;

    /// Frames the record; the commit word is the last thing written.
    pub fn serialize(&self, out: &mut [u8; RECORD_SIZE])
        ensures
            final(out)@ == record_bytes(*self),
    {
        let mut body = [0u8; 110];
        store_bytes(&mut body, 0, RECORD_MAGIC.as_slice());
        store_be8(&mut body, 4, self.sequence);
        store_be2(&mut body, 12, CIPHERTEXT_LEN as u16);
        store_bytes(&mut body, 14, self.ciphertext.as_slice());
        assert(body@ =~= record_body(self.sequence, self.ciphertext@));
        let crc = crc32(body.as_slice());
        store_bytes(out, 0, body.as_slice());
        store_be4(out, 110, crc);
        store_be2(out, 114, RECORD_COMMIT_MARKER);
        assert(out@ =~= record_bytes(*self));
    }

    /// Checks magic, commit word and checksum, in that order, and decodes the record.
    pub fn deserialize(buf: &[u8; RECORD_SIZE]) -> (r: Result<Self, StorageError>)
        ensures
            match r {
                Ok(rec) => record_decoded(buf@) == Ok::<(u64, Seq<u8>), StorageError>((rec.sequence, rec.ciphertext@)),
                Err(e) => record_decoded(buf@) == Err::<(u64, Seq<u8>), StorageError>(e),
            },
    {
        let s = buf.as_slice();
        if !magic_matches(s, RECORD_MAGIC) {
            return Err(StorageError::InvalidMagic);
        }
        let commit = load_be2(s, 114);
        if commit != RECORD_COMMIT_MARKER {
            return Err(StorageError::TornWriteDetected);
        }
        let expected_crc = load_be4(s, 110);
        let mut body = [0u8; 110];
        copy_into(&mut body, s, 0);
        let calculated_crc = crc32(body.as_slice());
        if calculated_crc != expected_crc {
            return Err(StorageError::CrcMismatch);
        }
        let sequence = load_be8(s, 4);
        let mut ciphertext = [0u8; CIPHERTEXT_LEN];
        copy_into(&mut ciphertext, s, 14);
        Ok(ChunkRecord { sequence, ciphertext })
    }
}

/// Ping-pong checkpoint sector for fast crash recovery, kept at LBA 1 and LBA 2.
#[derive(Debug, Clone, Copy, PartialEq, Eq, Structural)]
pub struct CheckpointSector {
    pub sequence: u64,
    pub head_offset: u64,
    pub tail_offset: u64,
    pub total_records: u64,
}

/// Checksummed part of a checkpoint: magic and the four counters.
pub open spec fn checkpoint_body(c: CheckpointSector) -> Seq<u8> {
    CHECKPOINT_MAGIC@ + be8(c.sequence) + be8(c.head_offset) + be8(c.tail_offset) + be8(c.total_records)
}

/// The 512-byte sector of a checkpoint: body, CRC-32 of the body, zeros, commit word.
pub open spec fn checkpoint_bytes(c: CheckpointSector) -> Seq<u8> {
    let body = checkpoint_body(c);
    body + be4(crc32_ieee(body)) + Seq::new(470, |i: int| 0u8) + be2(RECORD_COMMIT_MARKER)
}

/// What a sector decodes to: the first failing check (magic, commit word, checksum), else
/// the checkpoint.
pub open spec fn checkpoint_decoded(b: Seq<u8>) -> Result<CheckpointSector, StorageError> {
    if b.subrange(0, 4) != CHECKPOINT_MAGIC@ {
        Err(StorageError::InvalidMagic)
    } else if get_be2(b, 510) != RECORD_COMMIT_MARKER {
        Err(StorageError::TornWriteDetected)
    } else if crc32_ieee(b.subrange(0, 36)) != get_be4(b, 36) {
        Err(StorageError::CrcMismatch)
    } else {
        Ok(CheckpointSector {
            sequence: get_be8(b, 4),
            head_offset: get_be8(b, 12),
            tail_offset: get_be8(b, 20),
            total_records: get_be8(b, 28),
        })
    }
}

/// Decoding a freshly written checkpoint sector gives the checkpoint back.
pub proof fn lemma_checkpoint_roundtrip(c: CheckpointSector)
    ensures
        checkpoint_bytes(c).len() == SECTOR_SIZE,
        checkpoint_decoded(checkpoint_bytes(c)) == Ok::<CheckpointSector, StorageError>(c),
{
    let b = checkpoint_bytes(c);
    let body = checkpoint_body(c);
    assert(b.subrange(0, 36) =~= body);
    assert(b.subrange(0, 4) =~= CHECKPOINT_MAGIC@);
    lemma_be8_roundtrip(c.sequence);
    lemma_be8_roundtrip(c.head_offset);
    lemma_be8_roundtrip(c.tail_offset);
    lemma_be8_roundtrip(c.total_records);
    lemma_be4_roundtrip(crc32_ieee(body));
    lemma_be2_roundtrip(RECORD_COMMIT_MARKER);
    assert(b.subrange(4, 12) =~= be8(c.sequence));
    assert(b.subrange(12, 20) =~= be8(c.head_offset));
    assert(b.subrange(20, 28) =~= be8(c.tail_offset));
    assert(b.subrange(28, 36) =~= be8(c.total_records));
    assert(b.subrange(36, 40) =~= be4(crc32_ieee(body)));
    assert(b.subrange(510, 512) =~= be2(RECORD_COMMIT_MARKER));
    assert(get_be8(b, 4) == get_be8(b.subrange(4, 12), 0));
    assert(get_be8(b, 12) == get_be8(b.subrange(12, 20), 0));
    assert(get_be8(b, 20) == get_be8(b.subrange(20, 28), 0));
    assert(get_be8(b, 28) == get_be8(b.subrange(28, 36), 0));
    assert(get_be4(b, 36) == get_be4(b.subrange(36, 40), 0));
    assert(get_be2(b, 510) == get_be2(b.subrange(510, 512), 0));
}

impl CheckpointSector {
    pub const MAGIC: [u8; 4] = [0x47, 0x43, 0x50, 0x54];

    /// Writes the checkpoint sector; the commit word is last.
    pub fn serialize(&self, sector: &mut [u8; SECTOR_SIZE])
        ensures
            final(sector)@ == checkpoint_bytes(*self),
    {
        let mut body = [0u8; 36];
        store_bytes(&mut body, 0, CHECKPOINT_MAGIC.as_slice());
        store_be8(&mut body, 4, self.sequence);
        store_be8(&mut body, 12, self.head_offset);
        store_be8(&mut body, 20, self.tail_offset);
        store_be8(&mut body, 28, self.total_records);
        assert(body@ =~= checkpoint_body(*self));
        let crc = crc32(body.as_slice());
        fill_zero(sector);
        store_bytes(sector, 0, body.as_slice());
        store_be4(sector, 36, crc);
        store_be2(sector, 510, RECORD_COMMIT_MARKER);
        assert(sector@ =~= checkpoint_bytes(*self));
    }

    /// Checks magic, commit word and checksum, in that order, and decodes the checkpoint.
    pub fn deserialize(sector: &[u8; SECTOR_SIZE]) -> (r: Result<Self, StorageError>)
        ensures
            r == checkpoint_decoded(sector@),
    {
        let s = sector.as_slice();
        if !magic_matches(s, CHECKPOINT_MAGIC) {
            return Err(StorageError::InvalidMagic);
        }
        let commit = load_be2(s, 510);
        if commit != RECORD_COMMIT_MARKER {
            return Err(StorageError::TornWriteDetected);
        }
        let expected_crc = load_be4(s, 36);
        let mut body = [0u8; 36];
        copy_into(&mut body, s, 0);
        if crc32(body.as_slice()) != expected_crc {
            return Err(StorageError::CrcMismatch);
        }
        Ok(CheckpointSector {
            sequence: load_be8(s, 4),
            head_offset: load_be8(s, 12),
            tail_offset: load_be8(s, 20),
            total_records: load_be8(s, 28),
        })
    }
}

/// Block-level access to an SD card or a host simulation; implemented by users.
pub trait BlockDevice {
    fn read_block(&mut self, lba: u32, buf: &mut [u8; SECTOR_SIZE]) -> Result<(), StorageError>;

    fn write_block(&mut self, lba: u32, buf: &[u8; SECTOR_SIZE]) -> Result<(), StorageError>;
}

/// One step of the SD-command CRC-7 (polynomial x^7 + x^3 + 1) over one input bit.
pub open spec fn crc7_step(crc: u8, bit: u8) -> u8 {
    let carry = (crc >> 7u8) & 1u8;
    let shifted = (crc << 1u8) as u8;
    if (carry ^ bit) != 0 { shifted ^ 0x12u8 } else { shifted }
}

/// CRC register after the first `n` bits of `data`, most significant bit of each byte first.
pub open spec fn crc7_bits(data: Seq<u8>, n: int) -> u8
    decreases n,
{
    if n <= 0 {
        0
    } else {
        let k = n - 1;
        crc7_step(crc7_bits(data, k), (data[k / 8] >> ((7 - k % 8) as u8)) & 1u8)
    }
}

/// SD/MMC SPI command CRC-7, shifted left one bit, with the stop bit set.
pub fn crc7(data: &[u8]) -> (r: u8)
    requires
        data@.len() * 8 <= usize::MAX,
    ensures
        r == (crc7_bits(data@, (data@.len() * 8) as int) | 1u8),
        r & 1u8 == 1u8,
{
    let mut crc: u8 = 0;
    let mut idx: usize = 0;
    let n = data.len();
    while idx < n
        invariant
            n == data@.len(),
            n * 8 <= usize::MAX,
            idx <= n,
            crc == crc7_bits(data@, idx * 8),
        decreases n - idx,
    {
        let b = data[idx];
        let mut i: u8 = 8;
        while i > 0
            invariant
                i <= 8,
                idx < n,
                n * 8 <= usize::MAX,
                b == data@[idx as int],
                crc == crc7_bits(data@, idx * 8 + (8 - i)),
            decreases i,
        {
            i = i - 1;
            let bit = (b >> i) & 1;
            let carry = (crc >> 7) & 1;
            let shifted = crc << 1;
            let k = idx * 8 + ((8 - i) as usize) - 1;
            assert(k / 8 == idx && 7 - k % 8 == i) by {
                assert(k == idx * 8 + (7 - i));
            }
            crc = if (carry ^ bit) != 0 { shifted ^ 0x12 } else { shifted };
        }
        idx = idx + 1;
    }
    let r = crc | 1;
    assert(r & 1u8 == 1u8) by (bit_vector)
        requires r == crc | 1u8;
    r
}

/// Block that holds a checkpoint's head offset, truncated to 32 bits.
pub open spec fn lba_of_offset(head_offset: u64) -> u32 {
    (head_offset / (SECTOR_SIZE as u64)) as u32
}

/// `lba`, raised to the start of the container where it lies below it.
pub open spec fn clamp_to_container(lba: u32) -> u32 {
    if lba < CONTAINER_START_LBA { CONTAINER_START_LBA } else { lba }
}

/// The checkpoint that a read of one ping-pong sector yields, if the read succeeded and
/// the sector decodes.
pub open spec fn checkpoint_read(read_ok: bool, sector: Seq<u8>) -> Option<CheckpointSector> {
    if read_ok {
        match checkpoint_decoded(sector) {
            Ok(c) => Some(c),
            Err(_) => None,
        }
    } else {
        None
    }
}

/// State a manager starts in after reading both checkpoint sectors: mode, sequence, next
/// block, and the number of torn checkpoints it recovered from.
pub open spec fn recovered_state(ok1: bool, s1: Seq<u8>, ok2: bool, s2: Seq<u8>) -> (StorageModeStatus, u64, u32, u32) {
    if !ok1 && !ok2 {
        (StorageModeStatus::RamOnly, 0, CONTAINER_START_LBA, 0)
    } else {
        match (checkpoint_read(ok1, s1), checkpoint_read(ok2, s2)) {
            (Some(c1), Some(c2)) => if c1.sequence >= c2.sequence {
                (StorageModeStatus::MicroSdActive, c1.sequence, clamp_to_container(lba_of_offset(c1.head_offset)), 0)
            } else {
                (StorageModeStatus::MicroSdActive, c2.sequence, clamp_to_container(lba_of_offset(c2.head_offset)), 0)
            },
            (Some(c1), None) =>
                (StorageModeStatus::MicroSdActive, c1.sequence, clamp_to_container(lba_of_offset(c1.head_offset)), 1),
            (None, Some(c2)) =>
                (StorageModeStatus::MicroSdActive, c2.sequence, clamp_to_container(lba_of_offset(c2.head_offset)), 1),
            (None, None) => (StorageModeStatus::MicroSdActive, 0, CONTAINER_START_LBA, 0),
        }
    }
}

/// Decides the starting state from the outcome of the two checkpoint reads (LBA 1 and
/// LBA 2): the newer valid checkpoint wins; one torn sector counts as a recovered torn
/// write; two failed reads mean RAM-only operation.
pub fn recover_from_checkpoints(
    read1_ok: bool,
    sector1: &[u8; SECTOR_SIZE],
    read2_ok: bool,
    sector2: &[u8; SECTOR_SIZE],
) -> (r: (StorageModeStatus, u64, u32, u32))
    ensures
        r == recovered_state(read1_ok, sector1@, read2_ok, sector2@),
{
    if !read1_ok && !read2_ok {
        return (StorageModeStatus::RamOnly, 0, CONTAINER_START_LBA, 0);
    }
    let ckpt1 = if read1_ok {
        match CheckpointSector::deserialize(sector1) {
            Ok(c) => Some(c),
            Err(_) => None,
        }
    } else {
        None
    };
    let ckpt2 = if read2_ok {
        match CheckpointSector::deserialize(sector2) {
            Ok(c) => Some(c),
            Err(_) => None,
        }
    } else {
        None
    };
    let (seq, lba, torn): (u64, u32, u32) = match (ckpt1, ckpt2) {
        (Some(c1), Some(c2)) => {
            if c1.sequence >= c2.sequence {
                (c1.sequence, (c1.head_offset / (SECTOR_SIZE as u64)) as u32, 0)
            } else {
                (c2.sequence, (c2.head_offset / (SECTOR_SIZE as u64)) as u32, 0)
            }
        },
        (Some(c1), None) => (c1.sequence, (c1.head_offset / (SECTOR_SIZE as u64)) as u32, 1),
        (None, Some(c2)) => (c2.sequence, (c2.head_offset / (SECTOR_SIZE as u64)) as u32, 1),
        (None, None) => (0, CONTAINER_START_LBA, 0),
    };
    let lba = if lba < CONTAINER_START_LBA { CONTAINER_START_LBA } else { lba };
    (StorageModeStatus::MicroSdActive, seq, lba, torn)
}

/// After power loss, when both checkpoint sectors hold valid checkpoints, the newer one
/// wins: recovery resumes at the larger of the two sequences, from the head offset of the
/// checkpoint that carries it, with no torn write to report.
pub proof fn lemma_newer_checkpoint_wins(
    ok1: bool,
    s1: Seq<u8>,
    ok2: bool,
    s2: Seq<u8>,
    c1: CheckpointSector,
    c2: CheckpointSector,
)
    requires
        checkpoint_read(ok1, s1) == Some(c1),
        checkpoint_read(ok2, s2) == Some(c2),
    ensures
        ({
            let r = recovered_state(ok1, s1, ok2, s2);
            &&& r.0 == StorageModeStatus::MicroSdActive
            &&& r.3 == 0
            &&& r.1 >= c1.sequence && r.1 >= c2.sequence
            &&& (r.1 == c1.sequence && r.2 == clamp_to_container(lba_of_offset(c1.head_offset)))
                || (r.1 == c2.sequence && r.2 == clamp_to_container(lba_of_offset(c2.head_offset)))
            &&& c1.sequence > c2.sequence ==> r.2 == clamp_to_container(lba_of_offset(c1.head_offset))
            &&& c2.sequence > c1.sequence ==> r.2 == clamp_to_container(lba_of_offset(c2.head_offset))
        }),
{
}

/// When exactly one of the two reads yields a valid checkpoint (the other sector was torn
/// by power loss, or could not be read while the first could), recovery resumes from
/// that checkpoint and reports one torn write; when neither read succeeds, the dongle
/// runs from RAM only.
pub proof fn lemma_torn_checkpoint_recovery(
    ok1: bool,
    s1: Seq<u8>,
    ok2: bool,
    s2: Seq<u8>,
    c: CheckpointSector,
)
    ensures
        checkpoint_read(ok1, s1) == Some(c) && checkpoint_read(ok2, s2) is None ==> recovered_state(ok1, s1, ok2, s2)
            == (StorageModeStatus::MicroSdActive, c.sequence, clamp_to_container(lba_of_offset(c.head_offset)), 1u32),
        checkpoint_read(ok1, s1) is None && checkpoint_read(ok2, s2) == Some(c) ==> recovered_state(ok1, s1, ok2, s2)
            == (StorageModeStatus::MicroSdActive, c.sequence, clamp_to_container(lba_of_offset(c.head_offset)), 1u32),
        !ok1 && !ok2 ==> recovered_state(ok1, s1, ok2, s2).0 == StorageModeStatus::RamOnly,
        ok1 || ok2 ==> recovered_state(ok1, s1, ok2, s2).0 == StorageModeStatus::MicroSdActive,
        recovered_state(ok1, s1, ok2, s2).2 >= CONTAINER_START_LBA,
{
}

/// The same law for sectors written as checkpoints `c1` (LBA 1) and `c2` (LBA 2).
pub proof fn lemma_newer_written_checkpoint_wins(c1: CheckpointSector, c2: CheckpointSector)
    ensures
        ({
            let r = recovered_state(true, checkpoint_bytes(c1), true, checkpoint_bytes(c2));
            &&& r.0 == StorageModeStatus::MicroSdActive
            &&& r.3 == 0
            &&& r.1 >= c1.sequence && r.1 >= c2.sequence
            &&& c1.sequence > c2.sequence ==> r.1 == c1.sequence && r.2 == clamp_to_container(lba_of_offset(c1.head_offset))
            &&& c2.sequence > c1.sequence ==> r.1 == c2.sequence && r.2 == clamp_to_container(lba_of_offset(c2.head_offset))
        }),
{
    lemma_checkpoint_roundtrip(c1);
    lemma_checkpoint_roundtrip(c2);
    lemma_newer_checkpoint_wins(true, checkpoint_bytes(c1), true, checkpoint_bytes(c2), c1, c2);
}

/// `x + k`, capped at `u64::MAX`.
pub open spec fn sat_add_u64(x: u64, k: int) -> u64 {
    if x + k > u64::MAX { u64::MAX } else { (x + k) as u64 }
}

/// `x + k`, capped at `u32::MAX`.
pub open spec fn sat_add_u32(x: u32, k: int) -> u32 {
    if x + k > u32::MAX { u32::MAX } else { (x + k) as u32 }
}

/// Block that holds the checkpoint written after record `seq`: LBA 1 on multiples of 32,
/// else LBA 2.
pub open spec fn checkpoint_lba(seq: u64) -> u32 {
    if seq % 32 == 0 { 1 } else { 2 }
}

/// Checkpoint written after record `seq` when the next free block is `lba`.
pub open spec fn checkpoint_after(seq: u64, lba: u32) -> CheckpointSector {
    CheckpointSector {
        sequence: seq,
        head_offset: (lba as u64 * SECTOR_SIZE as u64) as u64,
        tail_offset: (CONTAINER_START_LBA as u64 * SECTOR_SIZE as u64) as u64,
        total_records: seq,
    }
}

/// A record block on the card: the record's framing, then zeros to the end of the sector.
pub open spec fn record_block(seq: u64, ciphertext: Seq<u8>) -> Seq<u8> {
    let body = record_body(seq, ciphertext);
    body + be4(crc32_ieee(body)) + be2(RECORD_COMMIT_MARKER) + Seq::new(396, |i: int| 0u8)
}

/// Builds the sector written for one record.
fn build_record_block(seq: u64, ciphertext: &[u8; CIPHERTEXT_LEN]) -> (block: [u8; SECTOR_SIZE])
    ensures
        block@ == record_block(seq, ciphertext@),
{
    let record = ChunkRecord { sequence: seq, ciphertext: *ciphertext };
    let mut framed = [0u8; RECORD_SIZE];
    record.serialize(&mut framed);
    let mut block = [0u8; SECTOR_SIZE];
    store_bytes(&mut block, 0, framed.as_slice());
    assert(block@ =~= record_block(seq, ciphertext@));
    block
}

/// What a flush that wrote `k` records did: the first `k` packets left the ring, the
/// sequence and next block advanced by `k` (saturating), and the card was dropped only
/// when the write of packet `k` failed.
pub open spec fn flush_outcome(
    before: (StorageModeStatus, u64, u32, u32),
    queue: Seq<MeshPacket>,
    k: int,
    after: (StorageModeStatus, u64, u32, u32),
    rest: Seq<MeshPacket>,
) -> bool {
    &&& rest == queue.subrange(k, queue.len() as int)
    &&& after.1 == sat_add_u64(before.1, k)
    &&& after.2 == sat_add_u32(before.2, k)
    &&& after.3 == before.3
    &&& after.0 == StorageModeStatus::MicroSdActive ==> (k == 2 || k == queue.len())
    &&& after.0 == StorageModeStatus::RamOnly ==> (k < 2 && k < queue.len())
}

/// One call made on a block device, with what it answered.
pub enum BlockCall {
    /// A read of this block: the sector as the read left it, and whether it succeeded.
    Read(u32, Seq<u8>, bool),
    /// A write of these bytes to this block, and whether it succeeded.
    Write(u32, Seq<u8>, bool),
}

fn device_read<D: BlockDevice>(dev: &mut D, log: &mut Ghost<Seq<BlockCall>>, lba: u32, buf: &mut [u8; SECTOR_SIZE]) -> (r: Result<(), StorageError>)
    ensures
        final(log)@ == old(log)@.push(BlockCall::Read(lba, final(buf)@, r is Ok)),
{
    let r = dev.read_block(lba, buf);
    *log = Ghost(log@.push(BlockCall::Read(lba, buf@, r is Ok)));
    r
}

fn device_write<D: BlockDevice>(dev: &mut D, log: &mut Ghost<Seq<BlockCall>>, lba: u32, buf: &[u8; SECTOR_SIZE]) -> (r: Result<(), StorageError>)
    ensures
        final(log)@ == old(log)@.push(BlockCall::Write(lba, buf@, r is Ok)),
{
    let r = dev.write_block(lba, buf);
    *log = Ghost(log@.push(BlockCall::Write(lba, buf@, r is Ok)));
    r
}

/// The write of the `i`-th queued packet (from 0) in a flush that starts after record
/// `seq0` at block `lba0`, and whether it succeeded.
pub open spec fn record_write(seq0: u64, lba0: u32, queue: Seq<MeshPacket>, i: int, ok: bool) -> BlockCall {
    BlockCall::Write(sat_add_u32(lba0, i), record_block(sat_add_u64(seq0, i + 1), queue[i].payload@), ok)
}

/// The device calls once the `i`-th queued packet was written: its record, then, after
/// every sixteenth record, the checkpoint (whose write may fail: `ck`).
pub open spec fn written_step(seq0: u64, lba0: u32, queue: Seq<MeshPacket>, i: int, ck: bool) -> Seq<BlockCall> {
    let s = sat_add_u64(seq0, i + 1);
    seq![record_write(seq0, lba0, queue, i, true)] + if s % 16 == 0 {
        seq![BlockCall::Write(checkpoint_lba(s), checkpoint_bytes(checkpoint_after(s, sat_add_u32(lba0, i + 1))), ck)]
    } else {
        Seq::<BlockCall>::empty()
    }
}

/// The device calls of the first `k` queued packets written in a flush.
pub open spec fn flush_writes(seq0: u64, lba0: u32, queue: Seq<MeshPacket>, k: int, cks: Seq<bool>) -> Seq<BlockCall>
    decreases k,
{
    if k <= 0 {
        Seq::empty()
    } else {
        flush_writes(seq0, lba0, queue, k - 1, cks) + written_step(seq0, lba0, queue, k - 1, cks[k - 1])
    }
}

/// The writes of the first `k` packets depend only on the first `k` checkpoint answers.
proof fn lemma_flush_writes_prefix(seq0: u64, lba0: u32, queue: Seq<MeshPacket>, k: int, a: Seq<bool>, b: Seq<bool>)
    requires
        forall|i: int| 0 <= i < k ==> a[i] == b[i],
    ensures
        flush_writes(seq0, lba0, queue, k, a) == flush_writes(seq0, lba0, queue, k, b),
    decreases k,
{
    if k > 0 {
        lemma_flush_writes_prefix(seq0, lba0, queue, k - 1, a, b);
    }
}

/// Dual-mode storage manager: persists chunks to the card while one is present, and falls
/// back to RAM-only operation when the card fails.
pub struct DynamicStorageManager<D: BlockDevice> {
    device: Option<D>,
    mode: StorageModeStatus,
    current_sequence: u64,
    current_lba: u32,
    torn_writes_recovered: u32,
    device_calls: Ghost<Seq<BlockCall>>,
}

impl<D: BlockDevice> DynamicStorageManager<D> {
    /// Mode, last written sequence, next block, and torn checkpoints recovered from.
    pub closed spec fn state(&self) -> (StorageModeStatus, u64, u32, u32) {
        (self.mode, self.current_sequence, self.current_lba, self.torn_writes_recovered)
    }

    /// The calls made on the block device so far, oldest first, with its answers.
    pub closed spec fn device_calls(&self) -> Seq<BlockCall> {
        self.device_calls@
    }

    /// Whether the manager holds a block device.
    pub closed spec fn has_device(&self) -> bool {
        self.device is Some
    }

    /// A manager with no card: RAM-only from the start.
    pub fn new_ram_only() -> (r: Self)
        ensures
            r.state() == (StorageModeStatus::RamOnly, 0u64, CONTAINER_START_LBA, 0u32),
            !r.has_device(),
            r.device_calls() == Seq::<BlockCall>::empty(),
    {
        DynamicStorageManager {
            device: None,
            mode: StorageModeStatus::RamOnly,
            current_sequence: 0,
            current_lba: CONTAINER_START_LBA,
            torn_writes_recovered: 0,
            device_calls: Ghost(Seq::empty()),
        }
    }

    /// Takes a card, reads both ping-pong checkpoints (blocks 1 and 2) and recovers from
    /// the newer valid one: the state is what `recover_from_checkpoints` decides from the
    /// two reads.
    pub fn new_with_device(dev: D) -> (r: Self)
        ensures
            r.has_device(),
            r.device_calls().len() == 2,
            r.device_calls()[0] matches BlockCall::Read(l1, s1, ok1) && l1 == 1 && (r.device_calls()[1] matches BlockCall::Read(
                l2,
                s2,
                ok2,
            ) && l2 == 2 && s1.len() == SECTOR_SIZE && s2.len() == SECTOR_SIZE && r.state() == recovered_state(ok1, s1, ok2, s2)),
    {
        let mut dev = dev;
        let mut log: Ghost<Seq<BlockCall>> = Ghost(Seq::empty());
        let mut sector1 = [0u8; SECTOR_SIZE];
        let mut sector2 = [0u8; SECTOR_SIZE];
        let read1 = device_read(&mut dev, &mut log, 1, &mut sector1);
        let read2 = device_read(&mut dev, &mut log, 2, &mut sector2);
        let (mode, seq, lba, torn) = recover_from_checkpoints(read1.is_ok(), &sector1, read2.is_ok(), &sector2);
        let r = DynamicStorageManager {
            device: Some(dev),
            mode,
            current_sequence: seq,
            current_lba: lba,
            torn_writes_recovered: torn,
            device_calls: log,
        };
        assert(recovered_state(read1.is_ok(), sector1@, read2.is_ok(), sector2@) == r.state());
        r
    }

    pub fn mode(&self) -> (r: StorageModeStatus)
        ensures
            r == self.state().0,
    {
        self.mode
    }

    pub fn is_ram_only(&self) -> (r: bool)
        ensures
            r == (self.state().0 == StorageModeStatus::RamOnly),
    {
        match self.mode {
            StorageModeStatus::RamOnly => true,
            StorageModeStatus::MicroSdActive => false,
        }
    }

    pub fn torn_writes_recovered(&self) -> (r: u32)
        ensures
            r == self.state().3,
    {
        self.torn_writes_recovered
    }

    pub fn current_sequence(&self) -> (r: u64)
        ensures
            r == self.state().1,
    {
        self.current_sequence
    }

    /// Writes up to two packets from the front of `sram_ring` to the card, popping each
    /// only after its write succeeded, with a ping-pong checkpoint after every sixteenth
    /// record; a failed record write drops the manager to RAM-only and leaves the packet
    /// queued. A RAM-only manager, or one without a card, does nothing.
    ///
    /// On the card: the records of the `k` packets written go to consecutive blocks from
    /// the next free one, each with the next sequence number, each sixteenth followed by
    /// its checkpoint; when the manager drops to RAM-only, the failed write of packet `k`
    /// is the last call.
    pub fn flush_from_sram(&mut self, sram_ring: &mut SramRingBuffer)
        ensures
            final(self).has_device() == old(self).has_device(),
            final(sram_ring).dropped() == old(sram_ring).dropped(),
            (old(self).state().0 == StorageModeStatus::RamOnly || !old(self).has_device()) ==> {
                &&& final(self).state() == old(self).state()
                &&& final(sram_ring)@ == old(sram_ring)@
                &&& final(self).device_calls() == old(self).device_calls()
            },
            (old(self).state().0 == StorageModeStatus::MicroSdActive && old(self).has_device()) ==>
                exists|k: int, cks: Seq<bool>|
                    #![trigger flush_writes(old(self).state().1, old(self).state().2, old(sram_ring)@, k, cks)]
                    0 <= k <= 2 && k <= old(sram_ring)@.len()
                    && flush_outcome(old(self).state(), old(sram_ring)@, k, final(self).state(), final(sram_ring)@)
                    && final(self).device_calls() == old(self).device_calls() + flush_writes(
                        old(self).state().1,
                        old(self).state().2,
                        old(sram_ring)@,
                        k,
                        cks,
                    ) + if final(self).state().0 == StorageModeStatus::RamOnly {
                        seq![record_write(old(self).state().1, old(self).state().2, old(sram_ring)@, k, false)]
                    } else {
                        Seq::<BlockCall>::empty()
                    },
    {
        let ram_only = match self.mode {
            StorageModeStatus::RamOnly => true,
            StorageModeStatus::MicroSdActive => false,
        };
        if ram_only || self.device.is_none() {
            return;
        }
        let ghost s0 = self.state();
        let ghost q0 = sram_ring@;
        let ghost d0 = sram_ring.dropped();
        let mut dev = match self.device.take() {
            Some(d) => d,
            None => return,
        };
        let ghost c0 = self.device_calls@;
        let ghost mut cks: Seq<bool> = Seq::empty();
        let mut n: usize = 0;
        assert(q0.subrange(0, q0.len() as int) =~= q0);
        assert(c0 + flush_writes(s0.1, s0.2, q0, 0, cks) =~= c0);
        while n < 2
            invariant_except_break
                self.mode == StorageModeStatus::MicroSdActive,
                self.device_calls@ == c0 + flush_writes(s0.1, s0.2, q0, n as int, cks),
            invariant
                n <= 2,
                n <= q0.len(),
                cks.len() == n,
                sram_ring@ == q0.subrange(n as int, q0.len() as int),
                sram_ring.dropped() == d0,
                self.device is None,
                self.current_sequence == sat_add_u64(s0.1, n as int),
                self.current_lba == sat_add_u32(s0.2, n as int),
                self.torn_writes_recovered == s0.3,
            ensures
                self.mode == StorageModeStatus::MicroSdActive ==> (n == 2 || n == q0.len()),
                self.mode == StorageModeStatus::RamOnly ==> (n < 2 && n < q0.len()),
                self.mode == StorageModeStatus::MicroSdActive ==> self.device_calls@ == c0 + flush_writes(s0.1, s0.2, q0, n as int, cks),
                self.mode == StorageModeStatus::RamOnly ==> self.device_calls@ == c0 + flush_writes(s0.1, s0.2, q0, n as int, cks)
                    + seq![record_write(s0.1, s0.2, q0, n as int, false)],
            decreases 2 - n,
        {
            let packet = match sram_ring.peek() {
                Some(p) => *p,
                None => break,
            };
            assert(packet == q0[n as int]);
            let next_seq = self.current_sequence.saturating_add(1);
            let block = build_record_block(next_seq, &packet.payload);
            let ghost before = self.device_calls@;
            let ghost cks0 = cks;
            assert(next_seq == sat_add_u64(s0.1, n + 1));
            assert(record_write(s0.1, s0.2, q0, n as int, true) == BlockCall::Write(self.current_lba, block@, true));
            assert(record_write(s0.1, s0.2, q0, n as int, false) == BlockCall::Write(self.current_lba, block@, false));
            match device_write(&mut dev, &mut self.device_calls, self.current_lba, &block) {
                Ok(()) => {
                    self.current_sequence = next_seq;
                    self.current_lba = self.current_lba.saturating_add(1);
                    sram_ring.pop();
                    assert(sram_ring@ =~= q0.subrange(n + 1, q0.len() as int));
                    if self.current_sequence % 16 == 0 {
                        let ckpt_lba: u32 = if self.current_sequence % 32 == 0 { 1 } else { 2 };
                        let ckpt = CheckpointSector {
                            sequence: self.current_sequence,
                            head_offset: (self.current_lba as u64) * (SECTOR_SIZE as u64),
                            tail_offset: (CONTAINER_START_LBA as u64) * (SECTOR_SIZE as u64),
                            total_records: self.current_sequence,
                        };
                        let mut ckpt_buf = [0u8; SECTOR_SIZE];
                        ckpt.serialize(&mut ckpt_buf);
                        assert(ckpt == checkpoint_after(next_seq, sat_add_u32(s0.2, n + 1)));
                        let ck = device_write(&mut dev, &mut self.device_calls, ckpt_lba, &ckpt_buf);
                        proof {
                            cks = cks.push(ck is Ok);
                        }
                    } else {
                        proof {
                            cks = cks.push(true);
                        }
                    }
                    proof {
                        let step = written_step(s0.1, s0.2, q0, n as int, cks[n as int]);
                        lemma_flush_writes_prefix(s0.1, s0.2, q0, n as int, cks0, cks);
                        assert(flush_writes(s0.1, s0.2, q0, (n + 1) as int, cks) == flush_writes(s0.1, s0.2, q0, n as int, cks) + step);
                        assert(self.device_calls@ =~= before + step);
                        assert(self.device_calls@ =~= c0 + flush_writes(s0.1, s0.2, q0, (n + 1) as int, cks));
                    }
                },
                Err(_) => {
                    self.mode = StorageModeStatus::RamOnly;
                    assert(self.device_calls@ =~= c0 + flush_writes(s0.1, s0.2, q0, n as int, cks)
                        + seq![record_write(s0.1, s0.2, q0, n as int, false)]);
                    break;
                },
            }
            n = n + 1;
        }
        self.device = Some(dev);
        assert(flush_outcome(s0, q0, n as int, self.state(), sram_ring@));
        proof {
            if self.mode == StorageModeStatus::MicroSdActive {
                assert(self.device_calls@ =~= c0 + flush_writes(s0.1, s0.2, q0, n as int, cks) + Seq::<BlockCall>::empty());
            }
        }
    }

    pub fn current_lba(&self) -> (r: u32)
        ensures
            r == self.state().2,
    {
        self.current_lba
    }
}

} // verus!
