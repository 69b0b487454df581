//! Frame layouts, wire serialization and telemetry records of the mesh protocol.
use vstd::prelude::*;
use crate::bytes::{
    be2, be4, be8, copy_into, fill_zero, get_be2, get_be4, get_be8, lemma_be2_bytes, lemma_be2_roundtrip,
    lemma_be4_bytes, lemma_be4_roundtrip, lemma_be8_bytes, lemma_be8_roundtrip, load_be2, load_be4,
    load_be8, splice, store_be2, store_be4, store_be8, store_bytes,
};

verus! {

/// IEEE 802.15.4 MAC header length in bytes.
pub const MHR_LEN: usize = 11;
/// Mesh network header length in bytes.
pub const MESH_HEADER_LEN: usize = 18;
/// Usable plaintext bytes per mesh frame.
pub const PLAINTEXT_CHUNK_LEN: usize = 80;
/// Poly1305 authentication tag length.
pub const AUTH_TAG_LEN: usize = 16;
/// Ciphertext length of one frame: plaintext chunk and tag.
pub const CIPHERTEXT_LEN: usize = 96;
/// Hardware FCS length in bytes.
pub const FCS_LEN: usize = 2;
/// Total physical MTU: MAC header, mesh header, ciphertext and FCS.
pub const PHY_MTU: usize = 127;

/// Power-loss record magic ("GIBB").
pub const RECORD_MAGIC: [u8; 4] = [0x47, 0x49, 0x42, 0x42];
/// Power-loss record commit word, written last.
pub const RECORD_COMMIT_MARKER: u16 = 0xAA55;

pub const FLAG_DIRECT: u16 = 0x0001;
pub const FLAG_GROUP: u16 = 0x0002;
pub const FLAG_CLIPBOARD: u16 = 0x0004;
pub const FLAG_SNEAKERNET: u16 = 0x0008;
pub const FLAG_ACK_REQ: u16 = 0x0010;
pub const FLAG_TELEMETRY: u16 = 0x0020;
pub const FLAG_SACK: u16 = 0x0040;

/// Minimum link quality a frame must arrive with to be relayed.
pub const MIN_RELAY_LQI: u8 = 30;

/// Default network tag: "GIBBERIS" in big-endian ASCII.
pub const DEFAULT_NETWORK_TAG: u64 = 0x4749424245524953;
/// Network tag of paired swarm nodes.
pub const SWARM_NETWORK_TAG: u64 = 0xD75118D87E4159D2;

/// Relay backoff in milliseconds for a link quality and a random value.
pub open spec fn relay_jitter(lqi: u8, random_val: u16) -> int {
    15 + ((255 - lqi) * 35) / 255 + random_val % 15
}

/// LQI-weighted contention backoff: strong links relay first, weak links wait longer.
pub fn calculate_lqi_relay_jitter(lqi: u8, random_val: u16) -> (r: u16)
    ensures
        r == relay_jitter(lqi, random_val),
        15 <= r <= 64,
{
    let inv_lqi: u16 = 255u16 - (lqi as u16);
    assert(inv_lqi * 35 <= 255 * 35) by (nonlinear_arith)
        requires inv_lqi <= 255;
    let base_delay: u16 = 15 + (inv_lqi * 35) / 255;
    base_delay + (random_val % 15)
}

/// Monotonic scaling: a better link never waits longer than a worse one.
pub proof fn lemma_jitter_monotonic(lqi_lo: u8, lqi_hi: u8, random_val: u16)
    requires
        lqi_lo <= lqi_hi,
    ensures
        relay_jitter(lqi_hi, random_val) <= relay_jitter(lqi_lo, random_val),
{
    let a: int = (255 - lqi_hi) * 35;
    let b: int = (255 - lqi_lo) * 35;
    assert(a <= b) by (nonlinear_arith)
        requires lqi_lo <= lqi_hi, a == (255 - lqi_hi) * 35, b == (255 - lqi_lo) * 35;
    assert(a / 255 <= b / 255) by (nonlinear_arith)
        requires 0 <= a <= b;
}

/// Whether a tag admits a frame into the mesh.
pub open spec fn valid_network_tag(tag: u64) -> bool {
    tag == DEFAULT_NETWORK_TAG || tag == SWARM_NETWORK_TAG
}

pub fn is_valid_network_tag(tag: u64) -> (r: bool)
    ensures
        r == valid_network_tag(tag),
{
    tag == DEFAULT_NETWORK_TAG || tag == SWARM_NETWORK_TAG
}

/// The 18-byte mesh routing header.
#[derive(Debug, Clone, Copy, PartialEq, Eq, Structural)]
pub struct MeshHeader {
    /// Network admission tag.
    pub network_tag: u64,
    /// Message identifier.
    pub msg_id: u32,
    /// Zero-based chunk index within the message.
    pub chunk_idx: u8,
    /// Number of chunks in the message.
    pub total_chunks: u8,
    /// Hops left.
    pub ttl: u8,
    /// Hops traversed.
    pub hop_count: u8,
    /// Feature and routing flags.
    pub flags: u16,
}

/// Wire encoding of a mesh header.
pub open spec fn header_bytes(h: MeshHeader) -> Seq<u8> {
    be8(h.network_tag) + be4(h.msg_id) + seq![h.chunk_idx, h.total_chunks, h.ttl, h.hop_count]
        + be2(h.flags)
}

/// The header that 18 wire bytes denote.
pub open spec fn header_from_bytes(b: Seq<u8>) -> MeshHeader {
    MeshHeader {
        network_tag: get_be8(b, 0),
        msg_id: get_be4(b, 8),
        chunk_idx: b[12],
        total_chunks: b[13],
        ttl: b[14],
        hop_count: b[15],
        flags: get_be2(b, 16),
    }
}

/// Decoding the encoding of a header gives the header back.
pub proof fn lemma_header_roundtrip(h: MeshHeader)
    ensures
        header_bytes(h).len() == MESH_HEADER_LEN,
        header_from_bytes(header_bytes(h)) == h,
{
    let b = header_bytes(h);
    lemma_be8_roundtrip(h.network_tag);
    lemma_be4_roundtrip(h.msg_id);
    lemma_be2_roundtrip(h.flags);
    assert(b.subrange(0, 8) =~= be8(h.network_tag));
    assert(b.subrange(8, 12) =~= be4(h.msg_id));
    assert(b.subrange(16, 18) =~= be2(h.flags));
    assert(get_be8(b, 0) == get_be8(b.subrange(0, 8), 0));
    assert(get_be4(b, 8) == get_be4(b.subrange(8, 12), 0));
    assert(get_be2(b, 16) == get_be2(b.subrange(16, 18), 0));
}

/// Encoding the header that 18 bytes denote gives the same bytes back.
pub proof fn lemma_header_bytes_roundtrip(b: Seq<u8>)
    requires
        b.len() == MESH_HEADER_LEN,
    ensures
        header_bytes(header_from_bytes(b)) =~= b,
{
    lemma_be8_bytes(b, 0);
    lemma_be4_bytes(b, 8);
    lemma_be2_bytes(b, 16);
    assert(b =~= b.subrange(0, 8) + b.subrange(8, 12) + seq![b[12], b[13], b[14], b[15]]
        + b.subrange(16, 18));
}

impl MeshHeader {
    pub const BYTE_LEN: usize = 18;

    /// Writes the big-endian wire form of the header.
    pub fn serialize(&self, buf: &mut [u8; MESH_HEADER_LEN])
        ensures
            final(buf)@ == header_bytes(*self),
    {
        store_be8(buf, 0, self.network_tag);
        store_be4(buf, 8, self.msg_id);
        buf[12] = self.chunk_idx;
        buf[13] = self.total_chunks;
        buf[14] = self.ttl;
        buf[15] = self.hop_count;
        store_be2(buf, 16, self.flags);
        assert(buf@ =~= header_bytes(*self));
    }

    /// Reads a header from its big-endian wire form.
    pub fn deserialize(buf: &[u8; MESH_HEADER_LEN]) -> (r: Self)
        ensures
            r == header_from_bytes(buf@),
    {
        let s = buf.as_slice();
        MeshHeader {
            network_tag: load_be8(s, 0),
            msg_id: load_be4(s, 8),
            chunk_idx: buf[12],
            total_chunks: buf[13],
            ttl: buf[14],
            hop_count: buf[15],
            flags: load_be2(s, 16),
        }
    }
}

/// A framed mesh packet: header and opaque ciphertext.
#[derive(Debug, Clone, Copy, PartialEq, Eq)]
pub struct MeshPacket {
    pub header: MeshHeader,
    pub payload: [u8; CIPHERTEXT_LEN],
}

/// Wire encoding of a packet (header then ciphertext).
pub open spec fn packet_bytes(p: MeshPacket) -> Seq<u8> {
    header_bytes(p.header) + p.payload@
}

/// Whether `p` is the packet that the 114 wire bytes `b` denote.
pub open spec fn packet_denoted(b: Seq<u8>, p: MeshPacket) -> bool {
    &&& p.header == header_from_bytes(b.subrange(0, 18))
    &&& p.payload@ == b.subrange(18, 114)
}

/// Decoding the encoding of a packet gives the packet back, and no other packet.
pub proof fn lemma_packet_roundtrip(p: MeshPacket, q: MeshPacket)
    ensures
        packet_bytes(p).len() == MeshPacket::WIRE_PAYLOAD_LEN,
        packet_denoted(packet_bytes(p), p),
        packet_denoted(packet_bytes(p), q) ==> q == p,
{
    lemma_header_roundtrip(p.header);
    let b = packet_bytes(p);
    assert(b.subrange(0, 18) =~= header_bytes(p.header));
    assert(b.subrange(18, 114) =~= p.payload@);
    if packet_denoted(b, q) {
        assert(q.payload@ =~= p.payload@);
        assert(q.payload == p.payload);
    }
}

impl MeshPacket {
    pub const WIRE_PAYLOAD_LEN: usize = 114;

    /// Writes header and ciphertext in wire order.
    pub fn serialize_payload(&self, out: &mut [u8; 114])
        ensures
            final(out)@ == packet_bytes(*self),
    {
        let mut hdr_buf = [0u8; MESH_HEADER_LEN];
        self.header.serialize(&mut hdr_buf);
        store_bytes(out, 0, hdr_buf.as_slice());
        store_bytes(out, MESH_HEADER_LEN, self.payload.as_slice());
        assert(out@ =~= packet_bytes(*self));
    }

    /// Reads a packet from its wire form.
    pub fn deserialize_payload(buf: &[u8; 114]) -> (r: Self)
        ensures
            packet_denoted(buf@, r),
    {
        let mut hdr_buf = [0u8; MESH_HEADER_LEN];
        copy_into(&mut hdr_buf, buf.as_slice(), 0);
        let header = MeshHeader::deserialize(&hdr_buf);
        let mut payload = [0u8; CIPHERTEXT_LEN];
        copy_into(&mut payload, buf.as_slice(), MESH_HEADER_LEN);
        MeshPacket { header, payload }
    }

    /// Whether the packet carries `expected_tag`.
    pub fn matches_tag(&self, expected_tag: u64) -> (r: bool)
        ensures
            r == (self.header.network_tag == expected_tag),
    {
        self.header.network_tag == expected_tag
    }

    /// Spends one hop: fails when no hop is left.
    pub fn decrement_ttl(&mut self) -> (r: bool)
        ensures
            r == (old(self).header.ttl > 0),
            r ==> final(self).header == (MeshHeader {
                ttl: (old(self).header.ttl - 1) as u8,
                hop_count: if old(self).header.hop_count == 255 { 255u8 } else { (old(self).header.hop_count + 1) as u8 },
                ..old(self).header
            }),
            !r ==> *final(self) == *old(self),
            final(self).payload == old(self).payload,
    {
        if self.header.ttl > 0 {
            self.header.ttl = self.header.ttl - 1;
            self.header.hop_count = self.header.hop_count.saturating_add(1);
            true
        } else {
            false
        }
    }
}

} // verus!

verus! {

/// Bytes in a SACK bitmask: 512 chunk slots.
pub const SACK_BITMASK_BYTES: usize = 64;
/// Chunk slots a SACK bitmask covers.
pub const SACK_WINDOW: usize = 512;

/// Whether bit `off` of a little-endian-by-bit byte mask is set.
pub open spec fn mask_bit(mask: Seq<u8>, off: int) -> bool {
    (mask[off / 8] & (1u8 << ((off % 8) as u8))) != 0
}

/// Number of set bits among the first `n` slots of a mask.
pub open spec fn count_bits(mask: Seq<u8>, n: int) -> nat
    decreases n,
{
    if n <= 0 {
        0
    } else {
        count_bits(mask, n - 1) + if mask_bit(mask, n - 1) { 1nat } else { 0nat }
    }
}

/// Selective acknowledgment: which chunks of a message a receiver still misses.
#[derive(Debug, Clone, Copy, PartialEq, Eq)]
pub struct SackPayload {
    /// Node that generates the SACK.
    pub receiver_node_id: u32,
    /// Node that sent the original message.
    pub sender_node_id: u32,
    /// First chunk index the bitmask window covers.
    pub base_chunk: u16,
    /// Bit set = chunk missing.
    pub bitmask: [u8; SACK_BITMASK_BYTES],
}

/// Setting bit `k` of a byte changes bit `k` only.
proof fn lemma_byte_set_bit(b: u8, k: u8)
    requires
        k < 8,
    ensures
        forall|j: u8| j < 8 ==> (((b | (1u8 << k)) & (1u8 << j)) != 0) == (((b & (1u8 << j)) != 0) || j == k),
{
    assert(forall|j: u8| j < 8 ==> (((b | (1u8 << k)) & (1u8 << j)) != 0) == (((b & (1u8 << j)) != 0) || j == k))
        by (bit_vector)
        requires k < 8;
}

/// Clearing bit `k` of a byte changes bit `k` only.
proof fn lemma_byte_clear_bit(b: u8, k: u8)
    requires
        k < 8,
    ensures
        forall|j: u8| j < 8 ==> (((b & !(1u8 << k)) & (1u8 << j)) != 0) == (((b & (1u8 << j)) != 0) && j != k),
{
    assert(forall|j: u8| j < 8 ==> (((b & !(1u8 << k)) & (1u8 << j)) != 0) == (((b & (1u8 << j)) != 0) && j != k))
        by (bit_vector)
        requires k < 8;
}

/// A byte is zero exactly when none of its eight bits is set.
proof fn lemma_byte_zero(b: u8)
    ensures
        b == 0 ==> forall|j: u8| j < 8 ==> (b & (1u8 << j)) == 0,
        b != 0 ==> exists|j: u8| j < 8 && (b & (1u8 << j)) != 0,
{
    assert(b == 0 ==> forall|j: u8| j < 8 ==> (b & (1u8 << j)) == 0) by (bit_vector);
    assert(b != 0 ==> ((b & (1u8 << 0u8)) != 0 || (b & (1u8 << 1u8)) != 0 || (b & (1u8 << 2u8)) != 0
        || (b & (1u8 << 3u8)) != 0 || (b & (1u8 << 4u8)) != 0 || (b & (1u8 << 5u8)) != 0 || (b & (1u8
        << 6u8)) != 0 || (b & (1u8 << 7u8)) != 0)) by (bit_vector);
    if b != 0 {
        if (b & (1u8 << 0u8)) != 0 {
            assert(0u8 < 8 && (b & (1u8 << 0u8)) != 0);
        } else if (b & (1u8 << 1u8)) != 0 {
            assert(1u8 < 8 && (b & (1u8 << 1u8)) != 0);
        } else if (b & (1u8 << 2u8)) != 0 {
            assert(2u8 < 8 && (b & (1u8 << 2u8)) != 0);
        } else if (b & (1u8 << 3u8)) != 0 {
            assert(3u8 < 8 && (b & (1u8 << 3u8)) != 0);
        } else if (b & (1u8 << 4u8)) != 0 {
            assert(4u8 < 8 && (b & (1u8 << 4u8)) != 0);
        } else if (b & (1u8 << 5u8)) != 0 {
            assert(5u8 < 8 && (b & (1u8 << 5u8)) != 0);
        } else if (b & (1u8 << 6u8)) != 0 {
            assert(6u8 < 8 && (b & (1u8 << 6u8)) != 0);
        } else {
            assert(7u8 < 8 && (b & (1u8 << 7u8)) != 0);
        }
    }
}

/// Counting set bits gives zero exactly when no bit is set.
proof fn lemma_count_bits_zero(mask: Seq<u8>, n: int)
    requires
        0 <= n,
    ensures
        (count_bits(mask, n) == 0) == (forall|o: int| 0 <= o < n ==> !mask_bit(mask, o)),
    decreases n,
{
    if n > 0 {
        lemma_count_bits_zero(mask, n - 1);
        if count_bits(mask, n) == 0 {
            assert forall|o: int| 0 <= o < n implies !mask_bit(mask, o) by {
                if o < n - 1 {
                } else {
                }
            }
        }
    }
}

/// Changing one bit slot leaves the count of other slots intact.
proof fn lemma_count_bits_frame(m1: Seq<u8>, m2: Seq<u8>, n: int, off: int)
    requires
        0 <= n,
        forall|o: int| 0 <= o < n && o != off ==> mask_bit(m1, o) == mask_bit(m2, o),
    ensures
        0 <= off < n ==> count_bits(m1, n) - (if mask_bit(m1, off) { 1int } else { 0int })
            == count_bits(m2, n) - (if mask_bit(m2, off) { 1int } else { 0int }),
        !(0 <= off < n) ==> count_bits(m1, n) == count_bits(m2, n),
    decreases n,
{
    if n > 0 {
        lemma_count_bits_frame(m1, m2, n - 1, off);
    }
}

impl SackPayload {
    pub const BYTE_LEN: usize = 96;

    /// Whether `chunk_idx` falls in the window of this SACK.
    pub open spec fn in_window(&self, chunk_idx: int) -> bool {
        self.base_chunk <= chunk_idx < self.base_chunk + SACK_WINDOW
    }

    /// Whether this SACK marks `chunk_idx` as missing.
    pub open spec fn missing(&self, chunk_idx: int) -> bool {
        self.in_window(chunk_idx) && mask_bit(self.bitmask@, chunk_idx - self.base_chunk)
    }

    /// Number of chunks marked missing.
    pub open spec fn missing_total(&self) -> nat {
        count_bits(self.bitmask@, SACK_WINDOW as int)
    }

    /// An empty SACK: nothing missing.
    pub fn new(receiver_node_id: u32, sender_node_id: u32, base_chunk: u16) -> (r: Self)
        ensures
            r.receiver_node_id == receiver_node_id,
            r.sender_node_id == sender_node_id,
            r.base_chunk == base_chunk,
            r.bitmask@ == Seq::new(64, |i: int| 0u8),
            forall|c: int| !r.missing(c),
    {
        let r = Self { receiver_node_id, sender_node_id, base_chunk, bitmask: [0u8; SACK_BITMASK_BYTES] };
        assert(r.bitmask@ =~= Seq::new(64, |i: int| 0u8));
        assert forall|c: int| !r.missing(c) by {
            if r.in_window(c) {
                let off = c - base_chunk;
                let k = (off % 8) as u8;
                assert((0u8 & (1u8 << k)) == 0) by (bit_vector);
            }
        }
        r
    }

    /// Marks `chunk_idx` as missing; indices outside the window are ignored.
    pub fn mark_missing(&mut self, chunk_idx: usize)
        ensures
            final(self).receiver_node_id == old(self).receiver_node_id,
            final(self).sender_node_id == old(self).sender_node_id,
            final(self).base_chunk == old(self).base_chunk,
            forall|c: int| final(self).missing(c) == (old(self).missing(c) || (c == chunk_idx && old(self).in_window(c))),
            marked_missing(*old(self), *final(self), chunk_idx as int),
    {
        let base = self.base_chunk as usize;
        if chunk_idx >= base && chunk_idx < base + SACK_WINDOW {
            let offset = chunk_idx - base;
            let k = (offset % 8) as u8;
            let byte = self.bitmask[offset / 8];
            proof { lemma_byte_set_bit(byte, k); }
            self.bitmask[offset / 8] = byte | (1u8 << k);
            assert forall|c: int| self.missing(c) == (old(self).missing(c) || (c == chunk_idx && old(self).in_window(c))) by {
                if self.in_window(c) {
                    let o = c - base;
                    assert(((o % 8) as u8) < 8);
                    if o / 8 == offset / 8 {
                        assert(((o % 8) as u8 == k) == (o == offset));
                    }
                }
            }
        }
    }

    /// Marks `chunk_idx` as received; indices outside the window are ignored.
    pub fn mark_received(&mut self, chunk_idx: usize)
        ensures
            final(self).receiver_node_id == old(self).receiver_node_id,
            final(self).sender_node_id == old(self).sender_node_id,
            final(self).base_chunk == old(self).base_chunk,
            forall|c: int| final(self).missing(c) == (old(self).missing(c) && c != chunk_idx),
            marked_received(*old(self), *final(self), chunk_idx as int),
    {
        let base = self.base_chunk as usize;
        if chunk_idx >= base && chunk_idx < base + SACK_WINDOW {
            let offset = chunk_idx - base;
            let k = (offset % 8) as u8;
            let byte = self.bitmask[offset / 8];
            proof { lemma_byte_clear_bit(byte, k); }
            self.bitmask[offset / 8] = byte & !(1u8 << k);
            assert forall|c: int| self.missing(c) == (old(self).missing(c) && c != chunk_idx) by {
                if self.in_window(c) {
                    let o = c - base;
                    assert(((o % 8) as u8) < 8);
                    if o / 8 == offset / 8 {
                        assert(((o % 8) as u8 == k) == (o == offset));
                    }
                }
            }
        }
    }

    /// Whether `chunk_idx` is marked missing.
    pub fn is_missing(&self, chunk_idx: usize) -> (r: bool)
        ensures
            r == self.missing(chunk_idx as int),
    {
        let base = self.base_chunk as usize;
        if chunk_idx >= base && chunk_idx < base + SACK_WINDOW {
            let offset = chunk_idx - base;
            (self.bitmask[offset / 8] & (1u8 << ((offset % 8) as u8))) != 0
        } else {
            false
        }
    }

    /// Number of chunks marked missing.
    pub fn missing_count(&self) -> (r: usize)
        ensures
            r == self.missing_total(),
    {
        let mut count: usize = 0;
        let mut off: usize = 0;
        while off < SACK_WINDOW
            invariant
                off <= SACK_WINDOW,
                count == count_bits(self.bitmask@, off as int),
                count <= off,
            decreases SACK_WINDOW - off,
        {
            if (self.bitmask[off / 8] & (1u8 << ((off % 8) as u8))) != 0 {
                count = count + 1;
            }
            off = off + 1;
        }
        count
    }

    /// Whether nothing is missing (an end-to-end delivery confirmation).
    pub fn is_full_ack(&self) -> (r: bool)
        ensures
            r == (forall|i: int| 0 <= i < 64 ==> self.bitmask@[i] == 0),
            r == (self.missing_total() == 0),
    {
        let mut i: usize = 0;
        while i < SACK_BITMASK_BYTES
            invariant
                i <= 64,
                forall|j: int| 0 <= j < i ==> self.bitmask@[j] == 0,
            decreases 64 - i,
        {
            if self.bitmask[i] != 0 {
                proof { self.lemma_full_ack_bits(); }
                return false;
            }
            i = i + 1;
        }
        proof { self.lemma_full_ack_bits(); }
        true
    }

    proof fn lemma_full_ack_bits(&self)
        ensures
            (forall|i: int| 0 <= i < 64 ==> self.bitmask@[i] == 0) == (self.missing_total() == 0),
    {
        lemma_count_bits_zero(self.bitmask@, 512);
        if forall|i: int| 0 <= i < 64 ==> self.bitmask@[i] == 0 {
            assert forall|o: int| 0 <= o < 512 implies !mask_bit(self.bitmask@, o) by {
                let b = self.bitmask@[o / 8];
                lemma_byte_zero(b);
                assert(((o % 8) as u8) < 8);
            }
        } else {
            let i = choose|i: int| 0 <= i < 64 && self.bitmask@[i] != 0;
            let b = self.bitmask@[i];
            lemma_byte_zero(b);
            let j = choose|j: u8| j < 8 && (b & (1u8 << j)) != 0;
            let o = i * 8 + j;
            assert(o / 8 == i && o % 8 == j);
            assert(mask_bit(self.bitmask@, o));
        }
    }

    /// Missing chunk indices in increasing order.
    pub fn missing_indices(&self) -> (r: Vec<usize>)
        ensures
            forall|k: int| 0 <= k < r@.len() ==> self.missing(r@[k] as int),
            forall|c: int| self.missing(c) ==> r@.contains(c as usize),
            forall|a: int, b: int| 0 <= a < b < r@.len() ==> r@[a] < r@[b],
    {
        let base = self.base_chunk as usize;
        let mut out: Vec<usize> = Vec::new();
        let mut off: usize = 0;
        while off < SACK_WINDOW
            invariant
                off <= SACK_WINDOW,
                base == self.base_chunk,
                forall|k: int| 0 <= k < out@.len() ==> self.missing(out@[k] as int) && base <= out@[k] < base + off,
                forall|c: int| base <= c < base + off && self.missing(c) ==> out@.contains(c as usize),
                forall|a: int, b: int| 0 <= a < b < out@.len() ==> out@[a] < out@[b],
            decreases SACK_WINDOW - off,
        {
            let ghost prev = out@;
            if (self.bitmask[off / 8] & (1u8 << ((off % 8) as u8))) != 0 {
                out.push(base + off);
                assert(out@[out@.len() - 1] == base + off);
                assert forall|x: usize| prev.contains(x) implies out@.contains(x) by {
                    let k = choose|k: int| 0 <= k < prev.len() && prev[k] == x;
                    assert(out@[k] == x);
                }
            }
            off = off + 1;
        }
        out
    }

    /// Hands every missing chunk index, in increasing order, to `f`: each missing index
    /// has been passed to `f` when it returns.
    pub fn for_each_missing<F: FnMut(usize)>(&self, mut f: F)
        requires
            forall|g: F, i: usize| call_requires(g, (i,)),
        ensures
            forall|c: int| #[trigger] self.missing(c) ==> call_ensures(f, (c as usize,), ()),
    {
        let ghost f0 = f;
        let idxs = self.missing_indices();
        let mut k: usize = 0;
        while k < idxs.len()
            invariant
                forall|g: F, i: usize| call_requires(g, (i,)),
                f == f0,
                k <= idxs@.len(),
                forall|j: int| 0 <= j < k ==> call_ensures(f0, (#[trigger] idxs@[j],), ()),
            decreases idxs@.len() - k,
        {
            f(idxs[k]);
            k = k + 1;
        }
        assert forall|c: int| #[trigger] self.missing(c) implies call_ensures(f0, (c as usize,), ()) by {
            assert(idxs@.contains(c as usize));
            let j = choose|j: int| 0 <= j < idxs@.len() && idxs@[j] == c as usize;
        }
    }
}

} // verus!

verus! {

/// Wire encoding of a SACK: ids, window base, bitmask, zero padding.
pub open spec fn sack_bytes(s: SackPayload) -> Seq<u8> {
    be4(s.receiver_node_id) + be4(s.sender_node_id) + be2(s.base_chunk) + s.bitmask@ + Seq::new(
        22,
        |i: int| 0u8,
    )
}

/// Whether `s` is the SACK that 96 wire bytes denote.
pub open spec fn sack_denoted(b: Seq<u8>, s: SackPayload) -> bool {
    &&& s.receiver_node_id == get_be4(b, 0)
    &&& s.sender_node_id == get_be4(b, 4)
    &&& s.base_chunk == get_be2(b, 8)
    &&& s.bitmask@ == b.subrange(10, 74)
}

/// Decoding the encoding of a SACK gives the SACK back, and no other.
pub proof fn lemma_sack_roundtrip(s: SackPayload, t: SackPayload)
    ensures
        sack_bytes(s).len() == CIPHERTEXT_LEN,
        sack_denoted(sack_bytes(s), s),
        sack_denoted(sack_bytes(s), t) ==> t == s,
{
    let b = sack_bytes(s);
    lemma_be4_roundtrip(s.receiver_node_id);
    lemma_be4_roundtrip(s.sender_node_id);
    lemma_be2_roundtrip(s.base_chunk);
    assert(b.subrange(0, 4) =~= be4(s.receiver_node_id));
    assert(b.subrange(4, 8) =~= be4(s.sender_node_id));
    assert(b.subrange(8, 10) =~= be2(s.base_chunk));
    assert(get_be4(b, 0) == get_be4(b.subrange(0, 4), 0));
    assert(get_be4(b, 4) == get_be4(b.subrange(4, 8), 0));
    assert(get_be2(b, 8) == get_be2(b.subrange(8, 10), 0));
    assert(b.subrange(10, 74) =~= s.bitmask@);
    if sack_denoted(b, t) {
        assert(t.bitmask@ =~= s.bitmask@);
        assert(t.bitmask == s.bitmask);
    }
}

impl SackPayload {
    /// Writes the SACK in its 96-byte wire form.
    pub fn serialize(&self, out: &mut [u8; CIPHERTEXT_LEN])
        ensures
            final(out)@ == sack_bytes(*self),
    {
        fill_zero(out);
        store_be4(out, 0, self.receiver_node_id);
        store_be4(out, 4, self.sender_node_id);
        store_be2(out, 8, self.base_chunk);
        store_bytes(out, 10, self.bitmask.as_slice());
        assert(out@ =~= sack_bytes(*self));
    }

    /// Reads a SACK from its 96-byte wire form.
    pub fn deserialize(buf: &[u8; CIPHERTEXT_LEN]) -> (r: Self)
        ensures
            sack_denoted(buf@, r),
    {
        let s = buf.as_slice();
        let mut bitmask = [0u8; SACK_BITMASK_BYTES];
        copy_into(&mut bitmask, s, 10);
        SackPayload {
            receiver_node_id: load_be4(s, 0),
            sender_node_id: load_be4(s, 4),
            base_chunk: load_be2(s, 8),
            bitmask,
        }
    }
}

/// Closed set of diagnostic event codes.
#[derive(Debug, Clone, Copy, PartialEq, Eq, Structural)]
pub enum DiagnosticEventCode {
    NoEvent,
    Boot,
    SdMounted,
    SdFallbackRamOnly,
    RadioTxOk,
    RadioRxOk,
    RadioDroppedTagMismatch,
    RadioDroppedDedup,
    BleConnected,
    BleDisconnected,
    BleAuthPrompt,
    BleAuthGranted,
    BleAuthTimeout,
    StorageTornWriteDiscarded,
    StorageFlushed,
}

/// Wire code of a diagnostic event.
pub open spec fn event_code(e: DiagnosticEventCode) -> u8 {
    match e {
        DiagnosticEventCode::NoEvent => 0,
        DiagnosticEventCode::Boot => 1,
        DiagnosticEventCode::SdMounted => 2,
        DiagnosticEventCode::SdFallbackRamOnly => 3,
        DiagnosticEventCode::RadioTxOk => 4,
        DiagnosticEventCode::RadioRxOk => 5,
        DiagnosticEventCode::RadioDroppedTagMismatch => 6,
        DiagnosticEventCode::RadioDroppedDedup => 7,
        DiagnosticEventCode::BleConnected => 8,
        DiagnosticEventCode::BleDisconnected => 9,
        DiagnosticEventCode::BleAuthPrompt => 10,
        DiagnosticEventCode::BleAuthGranted => 11,
        DiagnosticEventCode::BleAuthTimeout => 12,
        DiagnosticEventCode::StorageTornWriteDiscarded => 13,
        DiagnosticEventCode::StorageFlushed => 14,
    }
}

/// The event a wire code denotes; unknown codes denote `None`.
pub open spec fn event_of_code(v: u8) -> DiagnosticEventCode {
    if v == 1 {
        DiagnosticEventCode::Boot
    } else if v == 2 {
        DiagnosticEventCode::SdMounted
    } else if v == 3 {
        DiagnosticEventCode::SdFallbackRamOnly
    } else if v == 4 {
        DiagnosticEventCode::RadioTxOk
    } else if v == 5 {
        DiagnosticEventCode::RadioRxOk
    } else if v == 6 {
        DiagnosticEventCode::RadioDroppedTagMismatch
    } else if v == 7 {
        DiagnosticEventCode::RadioDroppedDedup
    } else if v == 8 {
        DiagnosticEventCode::BleConnected
    } else if v == 9 {
        DiagnosticEventCode::BleDisconnected
    } else if v == 10 {
        DiagnosticEventCode::BleAuthPrompt
    } else if v == 11 {
        DiagnosticEventCode::BleAuthGranted
    } else if v == 12 {
        DiagnosticEventCode::BleAuthTimeout
    } else if v == 13 {
        DiagnosticEventCode::StorageTornWriteDiscarded
    } else if v == 14 {
        DiagnosticEventCode::StorageFlushed
    } else {
        DiagnosticEventCode::NoEvent
    }
}

impl DiagnosticEventCode {
    pub fn from_u8(val: u8) -> (r: Self)
        ensures
            r == event_of_code(val),
    {
        match val {
            1 => DiagnosticEventCode::Boot,
            2 => DiagnosticEventCode::SdMounted,
            3 => DiagnosticEventCode::SdFallbackRamOnly,
            4 => DiagnosticEventCode::RadioTxOk,
            5 => DiagnosticEventCode::RadioRxOk,
            6 => DiagnosticEventCode::RadioDroppedTagMismatch,
            7 => DiagnosticEventCode::RadioDroppedDedup,
            8 => DiagnosticEventCode::BleConnected,
            9 => DiagnosticEventCode::BleDisconnected,
            10 => DiagnosticEventCode::BleAuthPrompt,
            11 => DiagnosticEventCode::BleAuthGranted,
            12 => DiagnosticEventCode::BleAuthTimeout,
            13 => DiagnosticEventCode::StorageTornWriteDiscarded,
            14 => DiagnosticEventCode::StorageFlushed,
            _ => DiagnosticEventCode::NoEvent,
        }
    }

    /// Wire code of this event.
    pub fn as_u8(&self) -> (r: u8)
        ensures
            r == event_code(*self),
    {
        match self {
            DiagnosticEventCode::NoEvent => 0,
            DiagnosticEventCode::Boot => 1,
            DiagnosticEventCode::SdMounted => 2,
            DiagnosticEventCode::SdFallbackRamOnly => 3,
            DiagnosticEventCode::RadioTxOk => 4,
            DiagnosticEventCode::RadioRxOk => 5,
            DiagnosticEventCode::RadioDroppedTagMismatch => 6,
            DiagnosticEventCode::RadioDroppedDedup => 7,
            DiagnosticEventCode::BleConnected => 8,
            DiagnosticEventCode::BleDisconnected => 9,
            DiagnosticEventCode::BleAuthPrompt => 10,
            DiagnosticEventCode::BleAuthGranted => 11,
            DiagnosticEventCode::BleAuthTimeout => 12,
            DiagnosticEventCode::StorageTornWriteDiscarded => 13,
            DiagnosticEventCode::StorageFlushed => 14,
        }
    }
}

/// Storage subsystem operating mode.
#[derive(Debug, Clone, Copy, PartialEq, Eq, Structural)]
pub enum StorageModeStatus {
    RamOnly,
    MicroSdActive,
}

pub open spec fn storage_code(m: StorageModeStatus) -> u8 {
    match m {
        StorageModeStatus::RamOnly => 0,
        StorageModeStatus::MicroSdActive => 1,
    }
}

pub open spec fn storage_of_code(v: u8) -> StorageModeStatus {
    if v == 1 { StorageModeStatus::MicroSdActive } else { StorageModeStatus::RamOnly }
}

impl StorageModeStatus {
    pub fn from_u8(val: u8) -> (r: Self)
        ensures
            r == storage_of_code(val),
    {
        match val {
            1 => StorageModeStatus::MicroSdActive,
            _ => StorageModeStatus::RamOnly,
        }
    }

    /// Wire code of this mode.
    pub fn as_u8(&self) -> (r: u8)
        ensures
            r == storage_code(*self),
    {
        match self {
            StorageModeStatus::RamOnly => 0,
            StorageModeStatus::MicroSdActive => 1,
        }
    }
}

/// Firmware build profile tier.
#[derive(Debug, Clone, Copy, PartialEq, Eq, Structural)]
pub enum TelemetryTier {
    Debug,
    Prod,
}

pub open spec fn tier_code(t: TelemetryTier) -> u8 {
    match t {
        TelemetryTier::Debug => 0xDB,
        TelemetryTier::Prod => 0x50,
    }
}

pub open spec fn tier_of_code(v: u8) -> TelemetryTier {
    if v == 0x50 || v == 0x01 || v == 0x52 { TelemetryTier::Prod } else { TelemetryTier::Debug }
}

impl TelemetryTier {
    pub fn from_u8(val: u8) -> (r: Self)
        ensures
            r == tier_of_code(val),
    {
        match val {
            0x50 | 0x01 | 0x52 => TelemetryTier::Prod,
            _ => TelemetryTier::Debug,
        }
    }

    /// Wire code of this tier.
    pub fn as_u8(&self) -> (r: u8)
        ensures
            r == tier_code(*self),
    {
        match self {
            TelemetryTier::Debug => 0xDB,
            TelemetryTier::Prod => 0x50,
        }
    }
}

/// Every enum code decodes back to the value it encodes.
pub proof fn lemma_codes_roundtrip(e: DiagnosticEventCode, m: StorageModeStatus, t: TelemetryTier)
    ensures
        event_of_code(event_code(e)) == e,
        storage_of_code(storage_code(m)) == m,
        tier_of_code(tier_code(t)) == t,
{
}

/// Closed-schema scalar telemetry record: no strings, no secrets.
#[derive(Debug, Clone, Copy, PartialEq, Eq, Structural)]
pub struct ClosedTelemetry {
    pub uptime_secs: u32,
    pub rx_packet_count: u32,
    pub tx_packet_count: u32,
    pub dropped_count: u32,
    pub sram_ring_used: u16,
    pub storage_mode: StorageModeStatus,
    pub last_event: DiagnosticEventCode,
    pub last_rssi: i8,
}

impl ClosedTelemetry {
    pub fn new() -> (r: Self)
        ensures
            r == (ClosedTelemetry {
                uptime_secs: 0,
                rx_packet_count: 0,
                tx_packet_count: 0,
                dropped_count: 0,
                sram_ring_used: 0,
                storage_mode: StorageModeStatus::RamOnly,
                last_event: DiagnosticEventCode::Boot,
                last_rssi: 0,
            }),
    {
        ClosedTelemetry {
            uptime_secs: 0,
            rx_packet_count: 0,
            tx_packet_count: 0,
            dropped_count: 0,
            sram_ring_used: 0,
            storage_mode: StorageModeStatus::RamOnly,
            last_event: DiagnosticEventCode::Boot,
            last_rssi: 0,
        }
    }
}

/// Unencrypted 96-byte diagnostic telemetry of development builds.
#[derive(Debug, Clone, Copy, PartialEq, Eq)]
pub struct DebugTelemetryPayload {
    pub uptime_secs: u32,
    pub rx_count: u32,
    pub tx_count: u32,
    pub drop_count: u32,
    pub sram_used: u16,
    pub storage_mode: StorageModeStatus,
    pub last_event: DiagnosticEventCode,
    pub build_tier: TelemetryTier,
    pub free_heap_kb: u8,
    pub last_rssi: i8,
    pub last_lqi: u8,
    pub node_mac_tail: [u8; 8],
    pub diagnostic_reserve: [u8; 64],
}

/// Wire encoding of debug telemetry.
pub open spec fn debug_telemetry_bytes(d: DebugTelemetryPayload) -> Seq<u8> {
    be4(d.uptime_secs) + be4(d.rx_count) + be4(d.tx_count) + be4(d.drop_count) + be2(d.sram_used)
        + seq![
        storage_code(d.storage_mode),
        event_code(d.last_event),
        tier_code(d.build_tier),
        d.free_heap_kb,
        d.last_rssi as u8,
        d.last_lqi,
    ] + d.node_mac_tail@ + d.diagnostic_reserve@
}

/// Whether `d` is the telemetry that 96 wire bytes denote.
pub open spec fn debug_telemetry_denoted(b: Seq<u8>, d: DebugTelemetryPayload) -> bool {
    &&& d.uptime_secs == get_be4(b, 0)
    &&& d.rx_count == get_be4(b, 4)
    &&& d.tx_count == get_be4(b, 8)
    &&& d.drop_count == get_be4(b, 12)
    &&& d.sram_used == get_be2(b, 16)
    &&& d.storage_mode == storage_of_code(b[18])
    &&& d.last_event == event_of_code(b[19])
    &&& d.build_tier == tier_of_code(b[20])
    &&& d.free_heap_kb == b[21]
    &&& d.last_rssi == b[22] as i8
    &&& d.last_lqi == b[23]
    &&& d.node_mac_tail@ == b.subrange(24, 32)
    &&& d.diagnostic_reserve@ == b.subrange(32, 96)
}

/// Decoding the encoding of debug telemetry gives it back, and nothing else.
pub proof fn lemma_debug_telemetry_roundtrip(d: DebugTelemetryPayload, e: DebugTelemetryPayload)
    ensures
        debug_telemetry_bytes(d).len() == CIPHERTEXT_LEN,
        debug_telemetry_denoted(debug_telemetry_bytes(d), d),
        debug_telemetry_denoted(debug_telemetry_bytes(d), e) ==> e == d,
{
    let b = debug_telemetry_bytes(d);
    lemma_be4_roundtrip(d.uptime_secs);
    lemma_be4_roundtrip(d.rx_count);
    lemma_be4_roundtrip(d.tx_count);
    lemma_be4_roundtrip(d.drop_count);
    lemma_be2_roundtrip(d.sram_used);
    assert(b.subrange(0, 4) =~= be4(d.uptime_secs));
    assert(b.subrange(4, 8) =~= be4(d.rx_count));
    assert(b.subrange(8, 12) =~= be4(d.tx_count));
    assert(b.subrange(12, 16) =~= be4(d.drop_count));
    assert(b.subrange(16, 18) =~= be2(d.sram_used));
    assert(get_be4(b, 0) == get_be4(b.subrange(0, 4), 0));
    assert(get_be4(b, 4) == get_be4(b.subrange(4, 8), 0));
    assert(get_be4(b, 8) == get_be4(b.subrange(8, 12), 0));
    assert(get_be4(b, 12) == get_be4(b.subrange(12, 16), 0));
    assert(get_be2(b, 16) == get_be2(b.subrange(16, 18), 0));
    assert(b.subrange(24, 32) =~= d.node_mac_tail@);
    assert(b.subrange(32, 96) =~= d.diagnostic_reserve@);
    let r = d.last_rssi;
    assert((r as u8) as i8 == r) by (bit_vector);
    lemma_codes_roundtrip(d.last_event, d.storage_mode, d.build_tier);
    if debug_telemetry_denoted(b, e) {
        assert(e.node_mac_tail@ =~= d.node_mac_tail@);
        assert(e.diagnostic_reserve@ =~= d.diagnostic_reserve@);
        assert(e.node_mac_tail == d.node_mac_tail);
        assert(e.diagnostic_reserve == d.diagnostic_reserve);
    }
}

impl DebugTelemetryPayload {
    pub const BYTE_LEN: usize = 96;

    pub fn new() -> (r: Self)
        ensures
            r.uptime_secs == 0 && r.rx_count == 0 && r.tx_count == 0 && r.drop_count == 0,
            r.sram_used == 0,
            r.storage_mode == StorageModeStatus::RamOnly,
            r.last_event == DiagnosticEventCode::Boot,
            r.build_tier == TelemetryTier::Debug,
            r.free_heap_kb == 0 && r.last_rssi == 0 && r.last_lqi == 0,
            r.node_mac_tail@ == Seq::new(8, |i: int| 0u8),
            r.diagnostic_reserve@ == Seq::new(64, |i: int| 0u8),
    {
        let r = DebugTelemetryPayload {
            uptime_secs: 0,
            rx_count: 0,
            tx_count: 0,
            drop_count: 0,
            sram_used: 0,
            storage_mode: StorageModeStatus::RamOnly,
            last_event: DiagnosticEventCode::Boot,
            build_tier: TelemetryTier::Debug,
            free_heap_kb: 0,
            last_rssi: 0,
            last_lqi: 0,
            node_mac_tail: [0u8; 8],
            diagnostic_reserve: [0u8; 64],
        };
        assert(r.node_mac_tail@ =~= Seq::new(8, |i: int| 0u8));
        assert(r.diagnostic_reserve@ =~= Seq::new(64, |i: int| 0u8));
        r
    }

    /// Writes the 96-byte wire form.
    pub fn serialize(&self, buf: &mut [u8; CIPHERTEXT_LEN])
        ensures
            final(buf)@ == debug_telemetry_bytes(*self),
    {
        store_be4(buf, 0, self.uptime_secs);
        store_be4(buf, 4, self.rx_count);
        store_be4(buf, 8, self.tx_count);
        store_be4(buf, 12, self.drop_count);
        store_be2(buf, 16, self.sram_used);
        buf[18] = self.storage_mode.as_u8();
        buf[19] = self.last_event.as_u8();
        buf[20] = self.build_tier.as_u8();
        buf[21] = self.free_heap_kb;
        buf[22] = self.last_rssi as u8;
        buf[23] = self.last_lqi;
        store_bytes(buf, 24, self.node_mac_tail.as_slice());
        store_bytes(buf, 32, self.diagnostic_reserve.as_slice());
        assert(buf@ =~= debug_telemetry_bytes(*self));
    }

    /// Reads the 96-byte wire form.
    pub fn deserialize(buf: &[u8; CIPHERTEXT_LEN]) -> (r: Self)
        ensures
            debug_telemetry_denoted(buf@, r),
    {
        let s = buf.as_slice();
        let mut node_mac_tail = [0u8; 8];
        copy_into(&mut node_mac_tail, s, 24);
        let mut diagnostic_reserve = [0u8; 64];
        copy_into(&mut diagnostic_reserve, s, 32);
        DebugTelemetryPayload {
            uptime_secs: load_be4(s, 0),
            rx_count: load_be4(s, 4),
            tx_count: load_be4(s, 8),
            drop_count: load_be4(s, 12),
            sram_used: load_be2(s, 16),
            storage_mode: StorageModeStatus::from_u8(buf[18]),
            last_event: DiagnosticEventCode::from_u8(buf[19]),
            build_tier: TelemetryTier::from_u8(buf[20]),
            free_heap_kb: buf[21],
            last_rssi: buf[22] as i8,
            last_lqi: buf[23],
            node_mac_tail,
            diagnostic_reserve,
        }
    }

    /// 32-bit node id held in MAC tail bytes 4..8.
    pub fn node_id(&self) -> (r: u32)
        ensures
            r == get_be4(self.node_mac_tail@, 4),
    {
        load_be4(self.node_mac_tail.as_slice(), 4)
    }
}

} // verus!

verus! {

/// Link metrics of one peer seen on air.
#[derive(Debug, Clone, Copy, PartialEq, Eq, Structural)]
pub struct PeerMetric {
    pub node_id: u32,
    pub last_rssi: i8,
    pub last_lqi: u8,
    pub packet_count: u32,
}

impl PeerMetric {
    /// A peer heard once.
    pub fn new(node_id: u32, last_rssi: i8, last_lqi: u8) -> (r: Self)
        ensures
            r == (PeerMetric { node_id, last_rssi, last_lqi, packet_count: 1 }),
    {
        PeerMetric { node_id, last_rssi, last_lqi, packet_count: 1 }
    }
}

pub const PEER_TABLE_CAPACITY: usize = 4;

/// Whether slot `s` holds the peer `node`.
pub open spec fn slot_holds(s: Option<PeerMetric>, node: u32) -> bool {
    s matches Some(p) && p.node_id == node
}

/// First index at or after `i` whose slot holds `node`, or -1.
pub open spec fn find_peer(s: Seq<Option<PeerMetric>>, node: u32, i: int) -> int
    decreases s.len() - i,
{
    if i >= s.len() || i < 0 {
        -1
    } else if slot_holds(s[i], node) {
        i
    } else {
        find_peer(s, node, i + 1)
    }
}

/// First empty slot at or after `i`, or -1.
pub open spec fn find_empty(s: Seq<Option<PeerMetric>>, i: int) -> int
    decreases s.len() - i,
{
    if i >= s.len() || i < 0 {
        -1
    } else if s[i] is None {
        i
    } else {
        find_empty(s, i + 1)
    }
}

/// Last occupied slot below `n`, or -1.
pub open spec fn last_occupied(s: Seq<Option<PeerMetric>>, n: int) -> int
    decreases n,
{
    if n <= 0 {
        -1
    } else if s[n - 1] is Some {
        n - 1
    } else {
        last_occupied(s, n - 1)
    }
}

/// Number of occupied slots below `n`.
pub open spec fn occupied_count(s: Seq<Option<PeerMetric>>, n: int) -> nat
    decreases n,
{
    if n <= 0 {
        0
    } else {
        occupied_count(s, n - 1) + if s[n - 1] is Some { 1nat } else { 0nat }
    }
}

/// The occupied slots in order, least recently heard first.
pub open spec fn active_peers(s: Seq<Option<PeerMetric>>) -> Seq<PeerMetric>
    decreases s.len(),
{
    if s.len() == 0 {
        Seq::empty()
    } else {
        match s.last() {
            Some(p) => active_peers(s.drop_last()).push(p),
            None => active_peers(s.drop_last()),
        }
    }
}

/// The metric after hearing an already known peer again.
pub open spec fn touched(p: PeerMetric, rssi: i8, lqi: u8) -> PeerMetric {
    PeerMetric {
        last_rssi: rssi,
        last_lqi: lqi,
        packet_count: if p.packet_count == u32::MAX { u32::MAX } else { (p.packet_count + 1) as u32 },
        ..p
    }
}

/// Slots after recording `node`: a known peer moves to the most recent occupied slot,
/// a new peer takes the first empty slot, and a full table drops the least recent peer.
pub open spec fn recorded_slots(s: Seq<Option<PeerMetric>>, node: u32, rssi: i8, lqi: u8) -> Seq<Option<PeerMetric>> {
    let i = find_peer(s, node, 0);
    if node == 0 {
        s
    } else if i >= 0 {
        let last = last_occupied(s, s.len() as int);
        s.take(i) + s.subrange(i + 1, last + 1) + seq![Some(touched(s[i].unwrap(), rssi, lqi))] + s.skip(last + 1)
    } else if find_empty(s, 0) >= 0 {
        s.update(find_empty(s, 0), Some(PeerMetric { node_id: node, last_rssi: rssi, last_lqi: lqi, packet_count: 1 }))
    } else {
        s.skip(1).push(Some(PeerMetric { node_id: node, last_rssi: rssi, last_lqi: lqi, packet_count: 1 }))
    }
}

proof fn lemma_find_peer_range(s: Seq<Option<PeerMetric>>, node: u32, i: int)
    requires
        0 <= i,
    ensures
        find_peer(s, node, i) == -1 || (i <= find_peer(s, node, i) < s.len() && 0 <= i && slot_holds(s[find_peer(s, node, i)], node)),
        find_peer(s, node, i) == -1 ==> forall|j: int| i <= j < s.len() ==> !slot_holds(s[j], node),
        find_peer(s, node, i) != -1 ==> forall|j: int| i <= j < find_peer(s, node, i) ==> !slot_holds(s[j], node),
    decreases s.len() - i,
{
    if i >= s.len() || i < 0 {
    } else if slot_holds(s[i], node) {
    } else {
        lemma_find_peer_range(s, node, i + 1);
    }
}

proof fn lemma_find_empty_range(s: Seq<Option<PeerMetric>>, i: int)
    requires
        0 <= i,
    ensures
        find_empty(s, i) == -1 || (i <= find_empty(s, i) < s.len() && 0 <= i && s[find_empty(s, i)] is None),
        find_empty(s, i) == -1 ==> forall|j: int| i <= j < s.len() ==> s[j] is Some,
        find_empty(s, i) != -1 ==> forall|j: int| i <= j < find_empty(s, i) ==> s[j] is Some,
    decreases s.len() - i,
{
    if i >= s.len() || i < 0 {
    } else if s[i] is None {
    } else {
        lemma_find_empty_range(s, i + 1);
    }
}

proof fn lemma_last_occupied_range(s: Seq<Option<PeerMetric>>, n: int)
    requires
        0 <= n <= s.len(),
    ensures
        -1 <= last_occupied(s, n) < n,
        last_occupied(s, n) >= 0 ==> s[last_occupied(s, n)] is Some,
        forall|j: int| last_occupied(s, n) < j < n ==> s[j] is None,
    decreases n,
{
    if n > 0 && s[n - 1] is None {
        lemma_last_occupied_range(s, n - 1);
    }
}

/// Bounded least/most-recently-heard table of mesh peers: slot 0 is least recent,
/// the last occupied slot most recent.
#[derive(Debug, Clone, Copy, PartialEq, Eq)]
pub struct PeerTable {
    pub peers: [Option<PeerMetric>; PEER_TABLE_CAPACITY],
}

impl PeerTable {
    /// The tracked peers, least recently heard first.
    pub open spec fn active(&self) -> Seq<PeerMetric> {
        active_peers(self.peers@)
    }

    /// The shape every table built by `new` and `record_peer` has (see `slots_well_formed`).
    pub open spec fn well_formed(&self) -> bool {
        slots_well_formed(self.peers@)
    }

    pub fn new() -> (r: Self)
        ensures
            forall|i: int| 0 <= i < 4 ==> r.peers@[i] is None,
            r.well_formed(),
    {
        PeerTable { peers: [None, None, None, None] }
    }

    /// Number of tracked peers.
    pub fn len(&self) -> (r: usize)
        ensures
            r == occupied_count(self.peers@, 4),
    {
        let mut count: usize = 0;
        let mut i: usize = 0;
        while i < PEER_TABLE_CAPACITY
            invariant
                i <= 4,
                count == occupied_count(self.peers@, i as int),
                count <= i,
            decreases 4 - i,
        {
            if self.peers[i].is_some() {
                count = count + 1;
            }
            i = i + 1;
        }
        count
    }

    /// Whether no peer is tracked.
    pub fn is_empty(&self) -> (r: bool)
        ensures
            r == (occupied_count(self.peers@, 4) == 0),
    {
        self.len() == 0
    }

    /// The metrics of `node_id`; node id 0 is never tracked.
    pub fn get_peer(&self, node_id: u32) -> (r: Option<PeerMetric>)
        ensures
            node_id == 0 ==> r is None,
            node_id != 0 ==> r == (if find_peer(self.peers@, node_id, 0) >= 0 {
                self.peers@[find_peer(self.peers@, node_id, 0)]
            } else {
                None
            }),
    {
        if node_id == 0 {
            return None;
        }
        let mut i: usize = 0;
        while i < PEER_TABLE_CAPACITY
            invariant
                i <= 4,
                node_id != 0,
                find_peer(self.peers@, node_id, 0) == find_peer(self.peers@, node_id, i as int),
            decreases 4 - i,
        {
            if let Some(peer) = self.peers[i] {
                if peer.node_id == node_id {
                    return Some(peer);
                }
            }
            i = i + 1;
        }
        None
    }

    /// Records hearing `node_id`: see `recorded_slots`. Node id 0 is ignored.
    pub fn record_peer(&mut self, node_id: u32, rssi: i8, lqi: u8)
        ensures
            final(self).peers@ == recorded_slots(old(self).peers@, node_id, rssi, lqi),
    {
        if node_id == 0 {
            return;
        }
        let ghost s = self.peers@;
        assert(s.len() == 4);
        let mut i: usize = 0;
        while i < PEER_TABLE_CAPACITY
            invariant
                i <= 4,
                node_id != 0,
                self.peers@ == s,
                s == old(self).peers@,
                s.len() == 4,
                find_peer(s, node_id, 0) == find_peer(s, node_id, i as int),
            decreases 4 - i,
        {
            if let Some(peer) = self.peers[i] {
                if peer.node_id == node_id {
                    let upd = PeerMetric {
                        node_id: peer.node_id,
                        last_rssi: rssi,
                        last_lqi: lqi,
                        packet_count: peer.packet_count.saturating_add(1),
                    };
                    let mut last_idx = i;
                    let mut j = i + 1;
                    while j < PEER_TABLE_CAPACITY
                        invariant
                            i < j <= 4,
                            self.peers@ == s,
                            i <= last_idx < j,
                            last_idx == i || s[last_idx as int] is Some,
                            forall|k: int| last_idx < k < j ==> s[k] is None,
                        decreases 4 - j,
                    {
                        if self.peers[j].is_some() {
                            last_idx = j;
                        }
                        j = j + 1;
                    }
                    proof {
                        lemma_last_occupied_range(s, 4);
                        assert(last_occupied(s, 4) == last_idx as int) by {
                            if last_occupied(s, 4) > last_idx as int {
                            } else if last_occupied(s, 4) < last_idx as int {
                                assert(s[last_idx as int] is Some);
                            }
                        }
                    }
                    let mut k = i;
                    while k < last_idx
                        invariant
                            i <= k <= last_idx < 4,
                            self.peers@.len() == 4,
                            forall|m: int| 0 <= m < i ==> self.peers@[m] == s[m],
                            forall|m: int| i <= m < k ==> self.peers@[m] == s[m + 1],
                            forall|m: int| k <= m < 4 ==> self.peers@[m] == s[m],
                        decreases last_idx - k,
                    {
                        self.peers[k] = self.peers[k + 1];
                        k = k + 1;
                    }
                    self.peers[last_idx] = Some(upd);
                    proof {
                        assert(find_peer(s, node_id, i as int) == i as int);
                        assert(upd == touched(s[i as int].unwrap(), rssi, lqi));
                        assert(self.peers@ =~= recorded_slots(s, node_id, rssi, lqi));
                    }
                    return;
                }
            }
            i = i + 1;
        }
        proof { lemma_find_peer_range(s, node_id, 0); }
        let mut e: usize = 0;
        while e < PEER_TABLE_CAPACITY
            invariant
                e <= 4,
                node_id != 0,
                self.peers@ == s,
                s == old(self).peers@,
                s.len() == 4,
                find_peer(s, node_id, 0) == -1,
                find_empty(s, 0) == find_empty(s, e as int),
            decreases 4 - e,
        {
            if self.peers[e].is_none() {
                assert(find_empty(s, e as int) == e as int);
                self.peers[e] = Some(PeerMetric::new(node_id, rssi, lqi));
                assert(self.peers@ =~= recorded_slots(s, node_id, rssi, lqi));
                return;
            }
            e = e + 1;
        }
        let mut m: usize = 0;
        while m < PEER_TABLE_CAPACITY - 1
            invariant
                m <= 3,
                node_id != 0,
                s == old(self).peers@,
                s.len() == 4,
                find_peer(s, node_id, 0) == -1,
                find_empty(s, 0) == -1,
                self.peers@.len() == 4,
                forall|q: int| 0 <= q < m ==> self.peers@[q] == s[q + 1],
                forall|q: int| m <= q < 4 ==> self.peers@[q] == s[q],
            decreases 3 - m,
        {
            self.peers[m] = self.peers[m + 1];
            m = m + 1;
        }
        self.peers[PEER_TABLE_CAPACITY - 1] = Some(PeerMetric::new(node_id, rssi, lqi));
        assert(find_empty(s, 4) == -1);
        assert(self.peers@ =~= recorded_slots(s, node_id, rssi, lqi));
    }

    /// The most recently heard peer: the last occupied slot.
    pub fn primary_peer(&self) -> (r: Option<PeerMetric>)
        ensures
            r == (if last_occupied(self.peers@, 4) >= 0 { self.peers@[last_occupied(self.peers@, 4)] } else { None }),
    {
        let mut n: usize = PEER_TABLE_CAPACITY;
        while n > 0
            invariant
                n <= 4,
                last_occupied(self.peers@, 4) == last_occupied(self.peers@, n as int),
            decreases n,
        {
            if let Some(p) = self.peers[n - 1] {
                return Some(p);
            }
            n = n - 1;
        }
        None
    }

    /// The second most recently heard peer.
    pub fn secondary_peer(&self) -> (r: Option<PeerMetric>)
        ensures
            ({
                let l = last_occupied(self.peers@, 4);
                let l2 = last_occupied(self.peers@, l);
                r == (if l >= 0 && l2 >= 0 { self.peers@[l2] } else { None })
            }),
    {
        let ghost l = last_occupied(self.peers@, 4);
        let mut seen_one = false;
        let mut n: usize = PEER_TABLE_CAPACITY;
        while n > 0
            invariant
                n <= 4,
                l == last_occupied(self.peers@, 4),
                !seen_one ==> l == last_occupied(self.peers@, n as int),
                seen_one ==> 0 <= l && n <= l && last_occupied(self.peers@, l) == last_occupied(self.peers@, n as int),
            decreases n,
        {
            if let Some(p) = self.peers[n - 1] {
                if seen_one {
                    return Some(p);
                }
                seen_one = true;
            }
            n = n - 1;
        }
        None
    }
}

} // verus!

verus! {

/// The shape `new` builds and `record_peer` keeps: occupied slots form a prefix and hold
/// distinct, non-zero node ids.
pub open spec fn slots_well_formed(s: Seq<Option<PeerMetric>>) -> bool {
    &&& forall|i: int, j: int| 0 <= i < j < s.len() && s[j] is Some ==> s[i] is Some
    &&& forall|i: int| 0 <= i < s.len() && s[i] is Some ==> s[i].unwrap().node_id != 0
    &&& forall|i: int, j: int| 0 <= i < j < s.len() && s[i] is Some && s[j] is Some
        ==> s[i].unwrap().node_id != s[j].unwrap().node_id
}

/// Recording a peer in a well-formed table keeps it well formed, makes that peer the most
/// recent one, and counts the contact: a known peer's count goes up by one (saturating), a
/// new peer starts at one.
pub proof fn lemma_record_peer_laws(s: Seq<Option<PeerMetric>>, node: u32, rssi: i8, lqi: u8)
    requires
        s.len() == PEER_TABLE_CAPACITY,
        slots_well_formed(s),
        node != 0,
    ensures
        ({
            let t = recorded_slots(s, node, rssi, lqi);
            let l = last_occupied(t, 4);
            &&& t.len() == PEER_TABLE_CAPACITY
            &&& slots_well_formed(t)
            &&& 0 <= l < 4
            &&& find_peer(s, node, 0) >= 0 ==> t[l] == Some(touched(s[find_peer(s, node, 0)].unwrap(), rssi, lqi))
            &&& find_peer(s, node, 0) < 0 ==> t[l] == Some(PeerMetric { node_id: node, last_rssi: rssi, last_lqi: lqi, packet_count: 1 })
        }),
{
    let t = recorded_slots(s, node, rssi, lqi);
    lemma_find_peer_range(s, node, 0);
    lemma_find_empty_range(s, 0);
    lemma_last_occupied_range(s, 4);
    let i = find_peer(s, node, 0);
    if i >= 0 {
        let last = last_occupied(s, 4);
        assert(last >= i);
        assert(t.len() == 4);
        assert forall|k: int| 0 <= k < 4 implies (t[k] is Some) == (k <= last) && (k < last ==> (k < i ==> t[k] == s[k]) && (k >= i ==> t[k] == s[k + 1])) by {
            if k < i {
            } else if k < last {
            } else if k == last {
            } else {
            }
        }
        lemma_last_occupied_range(t, 4);
        assert(last_occupied(t, 4) == last) by {
            if last_occupied(t, 4) > last {
            } else if last_occupied(t, 4) < last {
                assert(t[last] is Some);
            }
        }
    } else {
        let e = find_empty(s, 0);
        if e >= 0 {
            assert(t.len() == 4);
            assert forall|k: int| 0 <= k < 4 implies (t[k] is Some) == (k <= e) by {}
            lemma_last_occupied_range(t, 4);
            assert(last_occupied(t, 4) == e) by {
                if last_occupied(t, 4) > e {
                } else if last_occupied(t, 4) < e {
                    assert(t[e] is Some);
                }
            }
        } else {
            assert(t.len() == 4);
            assert(t[3] is Some);
            assert(last_occupied(t, 4) == 3);
        }
    }
}

/// In a well-formed table the occupied slots are exactly those up to the last one.
proof fn lemma_slots_shape(s: Seq<Option<PeerMetric>>)
    requires
        s.len() == PEER_TABLE_CAPACITY,
        slots_well_formed(s),
    ensures
        forall|k: int| 0 <= k < 4 ==> ((#[trigger] s[k]) is Some <==> k <= last_occupied(s, 4)),
{
    lemma_last_occupied_range(s, 4);
    let l = last_occupied(s, 4);
    assert forall|k: int| 0 <= k < 4 implies ((#[trigger] s[k]) is Some <==> k <= l) by {
        if k < l {
            assert(s[l] is Some);
        }
    }
}

/// Where the occupied slots are exactly those up to `l`, the last occupied slot below `n`
/// is the lower of `n - 1` and `l`.
proof fn lemma_last_occupied_of_shape(s: Seq<Option<PeerMetric>>, l: int, n: int)
    requires
        s.len() == PEER_TABLE_CAPACITY,
        -1 <= l < 4,
        0 <= n <= 4,
        forall|k: int| 0 <= k < 4 ==> ((#[trigger] s[k]) is Some <==> k <= l),
    ensures
        last_occupied(s, n) == if n - 1 <= l { n - 1 } else { l },
    decreases n,
{
    if n > 0 && s[n - 1] is None {
        lemma_last_occupied_of_shape(s, l, n - 1);
    }
}

/// Count of occupied slots below `n` where the occupied slots are those up to `l`.
proof fn lemma_count_of_shape(s: Seq<Option<PeerMetric>>, l: int, n: int)
    requires
        s.len() == PEER_TABLE_CAPACITY,
        -1 <= l < 4,
        0 <= n <= 4,
        forall|k: int| 0 <= k < 4 ==> ((#[trigger] s[k]) is Some <==> k <= l),
    ensures
        occupied_count(s, n) == if n - 1 <= l { n } else { l + 1 },
    decreases n,
{
    if n > 0 {
        lemma_count_of_shape(s, l, n - 1);
        assert(s[n - 1] is Some <==> n - 1 <= l);
    }
}

/// In a well-formed table, there is a second most recent peer (as `secondary_peer` finds
/// it) exactly when at least two peers are tracked (as `len` counts them).
pub proof fn lemma_secondary_needs_two(s: Seq<Option<PeerMetric>>)
    requires
        s.len() == PEER_TABLE_CAPACITY,
        slots_well_formed(s),
    ensures
        ({
            let l = last_occupied(s, 4);
            (l >= 0 && last_occupied(s, l) >= 0) <==> occupied_count(s, 4) >= 2
        }),
{
    lemma_slots_shape(s);
    lemma_last_occupied_range(s, 4);
    let l = last_occupied(s, 4);
    lemma_count_of_shape(s, l, 4);
    if l >= 0 {
        lemma_last_occupied_of_shape(s, l, l);
    }
}

/// Recording peer `a` and then a different peer `b` in a well-formed table makes `b` the
/// most recent peer (as `primary_peer` finds it) and `a` the second most recent (as
/// `secondary_peer` finds it).
pub proof fn lemma_last_two_recorded(
    s: Seq<Option<PeerMetric>>,
    a: u32,
    rssi_a: i8,
    lqi_a: u8,
    b: u32,
    rssi_b: i8,
    lqi_b: u8,
)
    requires
        s.len() == PEER_TABLE_CAPACITY,
        slots_well_formed(s),
        a != 0,
        b != 0,
        a != b,
    ensures
        ({
            let t = recorded_slots(recorded_slots(s, a, rssi_a, lqi_a), b, rssi_b, lqi_b);
            let l = last_occupied(t, 4);
            let l2 = last_occupied(t, l);
            &&& l >= 0
            &&& t[l] matches Some(p) && p.node_id == b
            &&& l2 >= 0
            &&& t[l2] matches Some(q) && q.node_id == a
        }),
{
    lemma_record_peer_laws(s, a, rssi_a, lqi_a);
    let t1 = recorded_slots(s, a, rssi_a, lqi_a);
    let l1 = last_occupied(t1, 4);
    assert(t1[l1] matches Some(p) && p.node_id == a) by {
        lemma_find_peer_range(s, a, 0);
    }
    lemma_record_peer_laws(t1, b, rssi_b, lqi_b);
    let t = recorded_slots(t1, b, rssi_b, lqi_b);
    let l = last_occupied(t, 4);
    assert(t[l] matches Some(p) && p.node_id == b) by {
        lemma_find_peer_range(t1, b, 0);
    }
    lemma_slots_shape(t1);
    lemma_slots_shape(t);
    lemma_last_occupied_range(t, 4);
    lemma_find_peer_range(t1, b, 0);
    lemma_find_empty_range(t1, 0);
    let i = find_peer(t1, b, 0);
    if i >= 0 {
        assert(i <= l1);
        assert(i != l1);
        assert(t[l1 - 1] == t1[l1]);
        assert(t[l1] is Some);
        if l1 + 1 < 4 {
            assert forall|k: int| l1 < k < 4 implies t[k] is None by {
                assert(t[k] == t1[k]);
            }
        }
        lemma_last_occupied_of_shape(t, l, 4);
        assert(l == l1);
    } else if find_empty(t1, 0) >= 0 {
        let e = find_empty(t1, 0);
        assert(e == l1 + 1) by {
            if e < l1 + 1 {
                assert(t1[e] is Some);
            } else if e > l1 + 1 {
                assert(t1[l1 + 1] is None);
            }
        }
        assert(t[l1] == t1[l1]);
        assert(t[e] is Some);
        assert(l == e);
    } else {
        assert(t1[3] is Some);
        assert(l1 == 3);
        assert(t[2] == t1[3]);
        assert(t[3] is Some);
        assert(l == 3);
    }
    lemma_last_occupied_of_shape(t, l, l);
}

/// What `mark_missing(i)` does (its contract): the ids and window stay, and chunk `i`,
/// when inside the window, becomes missing.
pub open spec fn marked_missing(b: SackPayload, a: SackPayload, i: int) -> bool {
    &&& a.receiver_node_id == b.receiver_node_id
    &&& a.sender_node_id == b.sender_node_id
    &&& a.base_chunk == b.base_chunk
    &&& forall|c: int| a.missing(c) == (b.missing(c) || (c == i && b.in_window(c)))
}

/// What `mark_received(i)` does (its contract): the ids and window stay, and chunk `i` is
/// no longer missing.
pub open spec fn marked_received(b: SackPayload, a: SackPayload, i: int) -> bool {
    &&& a.receiver_node_id == b.receiver_node_id
    &&& a.sender_node_id == b.sender_node_id
    &&& a.base_chunk == b.base_chunk
    &&& forall|c: int| a.missing(c) == (b.missing(c) && c != i)
}

proof fn lemma_byte_from_bits(x: u8, y: u8)
    by (bit_vector)
    requires
        (x & 1u8 != 0) == (y & 1u8 != 0),
        (x & 2u8 != 0) == (y & 2u8 != 0),
        (x & 4u8 != 0) == (y & 4u8 != 0),
        (x & 8u8 != 0) == (y & 8u8 != 0),
        (x & 16u8 != 0) == (y & 16u8 != 0),
        (x & 32u8 != 0) == (y & 32u8 != 0),
        (x & 64u8 != 0) == (y & 64u8 != 0),
        (x & 128u8 != 0) == (y & 128u8 != 0),
    ensures
        x == y,
{
}

proof fn lemma_sack_bit_same(a: SackPayload, b: SackPayload, w: int, k: int)
    requires
        a.base_chunk == b.base_chunk,
        forall|c: int| a.missing(c) == b.missing(c),
        0 <= w < SACK_BITMASK_BYTES,
        0 <= k < 8,
    ensures
        (a.bitmask@[w] & (1u8 << (k as u8)) != 0) == (b.bitmask@[w] & (1u8 << (k as u8)) != 0),
{
    let base = a.base_chunk as int;
    let c = base + 8 * w + k;
    assert(a.missing(c) == b.missing(c));
    assert((c - base) / 8 == w && (c - base) % 8 == k);
}

/// Two SACKs with the same ids and window that mark the same chunks missing are equal,
/// bitmask included.
pub proof fn lemma_sack_determined(a: SackPayload, b: SackPayload)
    requires
        a.receiver_node_id == b.receiver_node_id,
        a.sender_node_id == b.sender_node_id,
        a.base_chunk == b.base_chunk,
        forall|c: int| a.missing(c) == b.missing(c),
    ensures
        a == b,
{
    assert forall|w: int| 0 <= w < SACK_BITMASK_BYTES implies a.bitmask@[w] == b.bitmask@[w] by {
        lemma_sack_bit_same(a, b, w, 0);
        lemma_sack_bit_same(a, b, w, 1);
        lemma_sack_bit_same(a, b, w, 2);
        lemma_sack_bit_same(a, b, w, 3);
        lemma_sack_bit_same(a, b, w, 4);
        lemma_sack_bit_same(a, b, w, 5);
        lemma_sack_bit_same(a, b, w, 6);
        lemma_sack_bit_same(a, b, w, 7);
        let x = a.bitmask@[w];
        let y = b.bitmask@[w];
        assert((1u8 << 0u8) == 1u8 && (1u8 << 1u8) == 2u8 && (1u8 << 2u8) == 4u8 && (1u8 << 3u8) == 8u8) by (bit_vector);
        assert((1u8 << 4u8) == 16u8 && (1u8 << 5u8) == 32u8 && (1u8 << 6u8) == 64u8 && (1u8 << 7u8) == 128u8) by (bit_vector);
        assert((x & (1u8 << (0int as u8)) != 0) == (y & (1u8 << (0int as u8)) != 0));
        assert((x & (1u8 << (1int as u8)) != 0) == (y & (1u8 << (1int as u8)) != 0));
        assert((x & (1u8 << (2int as u8)) != 0) == (y & (1u8 << (2int as u8)) != 0));
        assert((x & (1u8 << (3int as u8)) != 0) == (y & (1u8 << (3int as u8)) != 0));
        assert((x & (1u8 << (4int as u8)) != 0) == (y & (1u8 << (4int as u8)) != 0));
        assert((x & (1u8 << (5int as u8)) != 0) == (y & (1u8 << (5int as u8)) != 0));
        assert((x & (1u8 << (6int as u8)) != 0) == (y & (1u8 << (6int as u8)) != 0));
        assert((x & (1u8 << (7int as u8)) != 0) == (y & (1u8 << (7int as u8)) != 0));
        lemma_byte_from_bits(x, y);
    }
    assert(a.bitmask@ =~= b.bitmask@);
    assert(a.bitmask =~= b.bitmask);
}

/// Marking a chunk that was not missing as missing and then as received gives back the
/// SACK exactly, bitmask included.
pub proof fn lemma_mark_then_receive(s: SackPayload, s1: SackPayload, s2: SackPayload, i: int)
    requires
        !s.missing(i),
        marked_missing(s, s1, i),
        marked_received(s1, s2, i),
    ensures
        s2 == s,
{
    assert forall|c: int| s2.missing(c) == s.missing(c) by {
        assert(s2.missing(c) == (s1.missing(c) && c != i));
        assert(s1.missing(c) == (s.missing(c) || (c == i && s.in_window(c))));
    }
    lemma_sack_determined(s2, s);
}

/// After a peer is recorded in a well-formed table, the most recent peer (as
/// `primary_peer` finds it) is that peer's entry (as `get_peer` finds it), holding the
/// signal strength and link quality just measured.
pub proof fn lemma_primary_is_recorded(s: Seq<Option<PeerMetric>>, node: u32, rssi: i8, lqi: u8)
    requires
        s.len() == PEER_TABLE_CAPACITY,
        slots_well_formed(s),
        node != 0,
    ensures
        ({
            let t = recorded_slots(s, node, rssi, lqi);
            let l = last_occupied(t, 4);
            &&& l >= 0
            &&& find_peer(t, node, 0) == l
            &&& t[l] matches Some(p) && p.node_id == node && p.last_rssi == rssi && p.last_lqi == lqi
        }),
{
    lemma_record_peer_laws(s, node, rssi, lqi);
    lemma_find_peer_range(s, node, 0);
    let t = recorded_slots(s, node, rssi, lqi);
    let l = last_occupied(t, 4);
    lemma_find_peer_range(t, node, 0);
    let i = find_peer(t, node, 0);
    assert(slot_holds(t[l], node));
    if i == -1 {
        assert(!slot_holds(t[l], node));
    } else if i < l {
        assert(t[i].unwrap().node_id != t[l].unwrap().node_id);
    }
}

/// A table with no occupied slot (as `new` builds it) has no most recent peer.
pub proof fn lemma_empty_table_has_no_primary(s: Seq<Option<PeerMetric>>)
    requires
        s.len() == PEER_TABLE_CAPACITY,
        forall|i: int| 0 <= i < 4 ==> s[i] is None,
    ensures
        last_occupied(s, 4) < 0,
{
    assert(last_occupied(s, 0) == -1);
    assert(last_occupied(s, 1) == -1);
    assert(last_occupied(s, 2) == -1);
    assert(last_occupied(s, 3) == -1);
}

} // verus!
