//! IEEE 802.15.4 framing for the mesh: PHY frame assembly and parsing, link quality,
//! and the CSMA/CA backoff queue with overhearing cancellation.
use vstd::prelude::*;
use vstd::arithmetic::div_mod::{lemma_fundamental_div_mod, lemma_fundamental_div_mod_converse_mod};
use crate::bytes::copy_into;
use crate::frame::{
    calculate_lqi_relay_jitter, header_bytes, header_from_bytes, is_valid_network_tag, relay_jitter,
    valid_network_tag, MeshHeader, MeshPacket, CIPHERTEXT_LEN, FLAG_TELEMETRY, MESH_HEADER_LEN, MHR_LEN,
    PHY_MTU,
};

pub use crate::frame::MIN_RELAY_LQI;

verus! {

pub const CHANNEL_15_FREQ_MHZ: u16 = 2425;
pub const PAN_ID_BROADCAST: u16 = 0xFFFF;
pub const ADDR_BROADCAST: u16 = 0xFFFF;
pub const TX_QUEUE_CAPACITY: usize = 8;

/// A raw 802.15.4 transceiver; implemented by the board support code.
pub trait RadioDriver {
    fn transmit_frame(&mut self, frame: &[u8]) -> Result<(), ()>;

    fn receive_frame<'a>(&mut self, buf: &'a mut [u8; PHY_MTU]) -> Option<usize>;
}

/// A received packet with the link metrics measured by the radio.
#[derive(Debug, Clone, Copy, PartialEq, Eq)]
pub struct ReceivedMeshPacket {
    pub packet: MeshPacket,
    /// Node id taken from the 802.15.4 source short address.
    pub src_node_id: u32,
    /// Received signal strength in dBm.
    pub rssi: i8,
    /// Link quality indicator, 0 to 255.
    pub lqi: u8,
}

/// Link quality for a signal strength: 0 below -80 dBm, 255 above -30 dBm, linear between.
pub open spec fn lqi_of_rssi(rssi: i8) -> u8 {
    if rssi < -80 {
        0
    } else if rssi > -30 {
        255
    } else {
        (((rssi + 80) * 255) / 50) as u8
    }
}

/// Link quality grows with signal strength: a stronger signal never gets a lower LQI. At
/// -80 dBm and below it is 0 (the weakest), at -30 dBm and above 255 (the best), and in
/// between it is the linear scale of -80..-30 dBm onto 0..255, rounded down.
pub proof fn lemma_lqi_follows_signal(rssi1: i8, rssi2: i8)
    ensures
        rssi1 <= rssi2 ==> lqi_of_rssi(rssi1) <= lqi_of_rssi(rssi2),
        rssi1 <= -80 ==> lqi_of_rssi(rssi1) == 0,
        rssi1 >= -30 ==> lqi_of_rssi(rssi1) == 255,
        -80 < rssi1 < -30 ==> 0 < lqi_of_rssi(rssi1) < 255,
        -80 <= rssi1 <= -30 ==> 50 * lqi_of_rssi(rssi1) <= 255 * (rssi1 + 80) < 50 * (lqi_of_rssi(rssi1) + 1),
{
    lemma_lqi_middle(rssi1);
    lemma_lqi_middle(rssi2);
    if -80 <= rssi1 <= rssi2 <= -30 {
        let a = rssi1 + 80;
        let b = rssi2 + 80;
        assert((a * 255) / 50 <= (b * 255) / 50) by (nonlinear_arith)
            requires
                0 <= a <= b;
    }
}

proof fn lemma_lqi_middle(rssi: i8)
    ensures
        -80 <= rssi <= -30 ==> lqi_of_rssi(rssi) as int == ((rssi + 80) * 255) / 50,
        -80 <= rssi <= -30 ==> 0 <= ((rssi + 80) * 255) / 50 <= 255,
        -80 < rssi < -30 ==> 0 < ((rssi + 80) * 255) / 50 < 255,
        -80 <= rssi <= -30 ==> 50 * (((rssi + 80) * 255) / 50) <= 255 * (rssi + 80) < 50 * (((rssi + 80) * 255) / 50 + 1),
{
    if -80 <= rssi <= -30 {
        let a = rssi + 80;
        assert(50 * ((a * 255) / 50) <= 255 * a < 50 * ((a * 255) / 50 + 1)) by (nonlinear_arith)
            requires
                0 <= a <= 50;
        assert(0 <= (a * 255) / 50 <= 255) by (nonlinear_arith)
            requires
                0 <= a <= 50;
        assert(0 < a < 50 ==> 0 < (a * 255) / 50 < 255) by (nonlinear_arith)
            requires
                0 <= a <= 50;
    }
}

/// Converts a signal strength in dBm to an 8-bit link quality indicator.
pub fn rssi_to_lqi(rssi: i8) -> (r: u8)
    ensures
        r == lqi_of_rssi(rssi),
{
    if rssi < -80 {
        0
    } else if rssi > -30 {
        255
    } else {
        let shifted: u32 = (rssi as u32).wrapping_add(80);
        assert(shifted == rssi + 80) by (bit_vector)
            requires
                -80 <= rssi <= -30,
                shifted == (rssi as u32).wrapping_add(80),
        ;
        let lqi_convert = shifted * 255;
        (lqi_convert / 50) as u8
    }
}

/// The 127-byte PHY frame of a packet: MAC header (data frame, intra-PAN, broadcast
/// destination, source address from the low four MAC bytes), mesh header, ciphertext, and
/// two zero FCS bytes that the radio overwrites.
pub open spec fn phy_frame(local_mac: [u8; 8], packet: MeshPacket, frame_seq: u8) -> Seq<u8> {
    seq![0x41u8, 0x08u8, frame_seq, 0xFFu8, 0xFFu8, 0xFFu8, 0xFFu8]
        + local_mac@.subrange(4, 8)
        + header_bytes(packet.header)
        + packet.payload@
        + seq![0u8, 0u8]
}

/// Assembles the 127-byte frame for transmission.
pub fn assemble_phy_frame(local_mac: [u8; 8], packet: &MeshPacket, frame_seq: u8, out: &mut [u8; PHY_MTU])
    ensures
        final(out)@ == phy_frame(local_mac, *packet, frame_seq),
{
    out[0] = 0x41;
    out[1] = 0x08;
    out[2] = frame_seq;
    out[3] = 0xFF;
    out[4] = 0xFF;
    out[5] = 0xFF;
    out[6] = 0xFF;
    out[7] = local_mac[4];
    out[8] = local_mac[5];
    out[9] = local_mac[6];
    out[10] = local_mac[7];
    let mut mesh_hdr_bytes = [0u8; MESH_HEADER_LEN];
    packet.header.serialize(&mut mesh_hdr_bytes);
    let mut i: usize = 0;
    while i < MESH_HEADER_LEN
        invariant
            i <= MESH_HEADER_LEN,
            out@.len() == PHY_MTU,
            mesh_hdr_bytes@ == header_bytes(packet.header),
            forall|k: int| 0 <= k < 11 ==> out@[k] == phy_frame(local_mac, *packet, frame_seq)[k],
            forall|k: int| 0 <= k < i ==> out@[MHR_LEN + k] == mesh_hdr_bytes@[k],
        decreases MESH_HEADER_LEN - i,
    {
        out[MHR_LEN + i] = mesh_hdr_bytes[i];
        i = i + 1;
    }
    let mut j: usize = 0;
    while j < CIPHERTEXT_LEN
        invariant
            j <= CIPHERTEXT_LEN,
            out@.len() == PHY_MTU,
            mesh_hdr_bytes@ == header_bytes(packet.header),
            forall|k: int| 0 <= k < 11 ==> out@[k] == phy_frame(local_mac, *packet, frame_seq)[k],
            forall|k: int| 0 <= k < MESH_HEADER_LEN ==> out@[MHR_LEN + k] == mesh_hdr_bytes@[k],
            forall|k: int| 0 <= k < j ==> out@[MHR_LEN + MESH_HEADER_LEN + k] == packet.payload@[k],
        decreases CIPHERTEXT_LEN - j,
    {
        out[MHR_LEN + MESH_HEADER_LEN + j] = packet.payload[j];
        j = j + 1;
    }
    out[125] = 0;
    out[126] = 0;
    assert(out@ =~= phy_frame(local_mac, *packet, frame_seq));
}

/// The packet a frame carries when it is long enough: the mesh header after the MAC
/// header, and the ciphertext after that.
pub open spec fn framed_packet(frame: Seq<u8>, p: MeshPacket) -> bool {
    &&& p.header == header_from_bytes(frame.subrange(11, 29))
    &&& p.payload@ == frame.subrange(29, 125)
}

/// Splits a received frame into its packet and admits it if `tag_validator` accepts its
/// network tag; frames shorter than MAC header, mesh header and ciphertext are dropped.
pub fn parse_phy_frame_with_validator<F>(frame: &[u8], tag_validator: F) -> (r: Option<MeshPacket>)
    where
        F: Fn(u64) -> bool,
    requires
        forall|tag: u64| call_requires(tag_validator, (tag,)),
    ensures
        frame@.len() < 125 ==> r is None,
        frame@.len() >= 125 ==> {
            let tag = header_from_bytes(frame@.subrange(11, 29)).network_tag;
            &&& r is Some ==> framed_packet(frame@, r->0) && call_ensures(tag_validator, (tag,), true)
            &&& r is None ==> call_ensures(tag_validator, (tag,), false)
        },
{
    if frame.len() < MHR_LEN + MESH_HEADER_LEN + CIPHERTEXT_LEN {
        return None;
    }
    let mut mesh_hdr_buf = [0u8; MESH_HEADER_LEN];
    copy_into(&mut mesh_hdr_buf, frame, MHR_LEN);
    let header = MeshHeader::deserialize(&mesh_hdr_buf);
    if !tag_validator(header.network_tag) {
        return None;
    }
    let mut payload = [0u8; CIPHERTEXT_LEN];
    copy_into(&mut payload, frame, MHR_LEN + MESH_HEADER_LEN);
    Some(MeshPacket { header, payload })
}

/// Parses a frame, admitting it only with exactly the tag `expected_tag`.
pub fn parse_phy_frame(frame: &[u8], expected_tag: u64) -> (r: Option<MeshPacket>)
    ensures
        frame@.len() < 125 ==> r is None,
        frame@.len() >= 125 ==> {
            let tag = header_from_bytes(frame@.subrange(11, 29)).network_tag;
            &&& r is Some <==> tag == expected_tag
            &&& r is Some ==> framed_packet(frame@, r->0)
        },
{
    parse_phy_frame_with_validator(frame, |tag: u64| -> (ok: bool) ensures ok == (tag == expected_tag) { tag == expected_tag })
}

/// Parses a frame, admitting it with either known swarm tag.
pub fn parse_phy_frame_swarm(frame: &[u8]) -> (r: Option<MeshPacket>)
    ensures
        frame@.len() < 125 ==> r is None,
        frame@.len() >= 125 ==> {
            let tag = header_from_bytes(frame@.subrange(11, 29)).network_tag;
            &&& r is Some <==> valid_network_tag(tag)
            &&& r is Some ==> framed_packet(frame@, r->0)
        },
{
    parse_phy_frame_with_validator(frame, |tag: u64| -> (ok: bool) ensures ok == valid_network_tag(tag) { is_valid_network_tag(tag) })
}

/// What the receive path keeps of one raw reception: the buffer holds the PSDU length at
/// byte 0 and the PSDU after it, with the signal strength in the byte at the length.
pub open spec fn reception_accepted(data: Seq<u8>, local_mac: Seq<u8>, r: Option<ReceivedMeshPacket>) -> bool {
    let len = data[0] as int;
    let psdu = data.subrange(1, 1 + len);
    let admitted = 125 <= len < data.len()
        && valid_network_tag(header_from_bytes(psdu.subrange(11, 29)).network_tag)
        && data.subrange(8, 12) != local_mac.subrange(4, 8);
    if admitted {
        r matches Some(rx) && framed_packet(psdu, rx.packet)
            && rx.src_node_id == ((data[8] as u32) << 24u32 | (data[9] as u32) << 16u32 | (data[10] as u32) << 8u32 | (data[11] as u32))
            && rx.rssi == data[len - 1] as i8
            && rx.lqi == lqi_of_rssi(rx.rssi)
    } else {
        r is None
    }
}

/// Decides what one raw reception yields: frames of the wrong length, with a foreign
/// network tag, or sent by this node itself are dropped; otherwise the packet comes with
/// its sender's node id and the measured link metrics.
pub fn decode_raw_reception(data: &[u8], local_mac: &[u8; 8]) -> (r: Option<ReceivedMeshPacket>)
    requires
        data@.len() >= 1,
    ensures
        reception_accepted(data@, local_mac@, r),
{
    let len = data[0] as usize;
    if !(len >= MHR_LEN + MESH_HEADER_LEN + CIPHERTEXT_LEN && len < data.len()) {
        return None;
    }
    let mut psdu: Vec<u8> = Vec::new();
    let mut i: usize = 0;
    while i < len
        invariant
            i <= len,
            len < data@.len(),
            psdu@ == data@.subrange(1, 1 + i as int),
        decreases len - i,
    {
        psdu.push(data[1 + i]);
        i = i + 1;
        assert(psdu@ =~= data@.subrange(1, 1 + i as int));
    }
    let packet = match parse_phy_frame_swarm(psdu.as_slice()) {
        Some(p) => p,
        None => return None,
    };
    if data[8] == local_mac[4] && data[9] == local_mac[5] && data[10] == local_mac[6] && data[11] == local_mac[7] {
        assert(data@.subrange(8, 12) =~= local_mac@.subrange(4, 8));
        return None;
    }
    assert(data@.subrange(8, 12) != local_mac@.subrange(4, 8)) by {
        if data@.subrange(8, 12) == local_mac@.subrange(4, 8) {
            assert(data@.subrange(8, 12)[0] == local_mac@[4]);
            assert(data@.subrange(8, 12)[1] == local_mac@[5]);
            assert(data@.subrange(8, 12)[2] == local_mac@[6]);
            assert(data@.subrange(8, 12)[3] == local_mac@[7]);
        }
    }
    let rssi = data[len - 1] as i8;
    let lqi = rssi_to_lqi(rssi);
    let src_node_id = (data[8] as u32) << 24 | (data[9] as u32) << 16 | (data[10] as u32) << 8 | (data[11] as u32);
    Some(ReceivedMeshPacket { packet, src_node_id, rssi, lqi })
}

/// Clamps a requested backoff into 15..=90 ms.
pub open spec fn clamp_jitter(jitter_ms: u16) -> u16 {
    if jitter_ms < 15 { 15 } else if jitter_ms > 90 { 90 } else { jitter_ms }
}

/// Whether a queue slot holds user traffic (a packet without the telemetry flag).
pub open spec fn is_user_traffic(slot: Option<MeshPacket>) -> bool {
    slot matches Some(p) && p.header.flags & FLAG_TELEMETRY == 0
}

/// Whether a queue slot holds a telemetry packet.
pub open spec fn is_telemetry(slot: Option<MeshPacket>) -> bool {
    slot matches Some(p) && p.header.flags & FLAG_TELEMETRY != 0
}

/// Whether a queue slot holds the packet with this message id and chunk index.
pub open spec fn holds_chunk(slot: Option<MeshPacket>, msg_id: u32, chunk_idx: u8) -> bool {
    slot matches Some(p) && p.header.msg_id == msg_id && p.header.chunk_idx == chunk_idx
}

/// Slot `k` of a ring of eight counted from `head`.
pub open spec fn ring_slot(q: Seq<Option<MeshPacket>>, head: int, k: int) -> Option<MeshPacket> {
    q[(head + k) % (TX_QUEUE_CAPACITY as int)]
}

/// The `count` slots of a ring of eight starting at `head`.
pub open spec fn ring_window(q: Seq<Option<MeshPacket>>, head: int, count: int) -> Seq<Option<MeshPacket>> {
    Seq::new(count as nat, |i: int| ring_slot(q, head, i))
}

proof fn lemma_ring_mod(head: int, i: int, j: int)
    requires
        0 <= head < 8,
        0 <= i < j < i + 8,
    ensures
        (head + i) % 8 != (head + j) % 8,
        (head + i + 1) % 8 == ((head + 1) % 8 + i) % 8,
{
    let a = head + i;
    let b = head + j;
    lemma_fundamental_div_mod(a, 8);
    lemma_fundamental_div_mod(b, 8);
    let c = (head + 1) % 8;
    lemma_fundamental_div_mod(head + 1, 8);
    lemma_fundamental_div_mod(a + 1, 8);
    lemma_fundamental_div_mod_converse_mod(c + i, 8, (a + 1) / 8 - (head + 1) / 8, (a + 1) % 8);
}

proof fn lemma_mod_step(a: int, c: int)
    requires
        0 <= a,
        0 <= c,
    ensures
        ((a % 8) + 1) % 8 == (a + 1) % 8,
        (((a + 1) % 8) + c) % 8 == (a + 1 + c) % 8,
{
}

proof fn lemma_ring_push(q: Seq<Option<MeshPacket>>, head: int, count: int, v: Option<MeshPacket>)
    requires
        q.len() == 8,
        0 <= head < 8,
        0 <= count < 8,
    ensures
        ring_window(q.update((head + count) % 8, v), head, count + 1) =~= ring_window(q, head, count).push(v),
{
    assert forall|i: int| 0 <= i < count implies #[trigger] ring_slot(q.update((head + count) % 8, v), head, i)
        == ring_slot(q, head, i) by {
        lemma_ring_mod(head, i, count);
    }
}

proof fn lemma_ring_shift(q: Seq<Option<MeshPacket>>, head: int, count: int, v: Option<MeshPacket>)
    requires
        q.len() == 8,
        0 <= head < 8,
        0 < count <= 8,
    ensures
        ring_window(q.update(head, v), (head + 1) % 8, count - 1) =~= ring_window(q, head, count).drop_first(),
{
    assert forall|i: int| 0 <= i < count - 1 implies #[trigger] ring_slot(q.update(head, v), (head + 1) % 8, i)
        == ring_slot(q, head, i + 1) by {
        lemma_ring_mod(head, 0, i + 1);
        lemma_ring_mod(head, i, i + 1);
    }
}

proof fn lemma_ring_update(q: Seq<Option<MeshPacket>>, head: int, count: int, k: int, v: Option<MeshPacket>)
    requires
        q.len() == 8,
        0 <= head < 8,
        0 <= k < count <= 8,
    ensures
        ring_window(q.update((head + k) % 8, v), head, count) =~= ring_window(q, head, count).update(k, v),
{
    assert forall|i: int| 0 <= i < count && i != k implies #[trigger] ring_slot(q.update((head + k) % 8, v), head, i)
        == ring_slot(q, head, i) by {
        if i < k {
            lemma_ring_mod(head, i, k);
        } else {
            lemma_ring_mod(head, k, i);
        }
    }
}

/// What `schedule_tx` does (its contract): the packet is queued last, a full queue first
/// dropping its oldest slot, and the first packet into an empty queue starts the backoff
/// at the clamped jitter.
pub open spec fn scheduled(b: BackoffController, a: BackoffController, packet: MeshPacket, jitter_ms: u16) -> bool {
    &&& b.slots().len() < TX_QUEUE_CAPACITY ==> a.slots() == b.slots().push(Some(packet))
    &&& b.slots().len() == TX_QUEUE_CAPACITY ==> a.slots() == b.slots().drop_first().push(Some(packet))
    &&& a.backoff() == if b.slots().len() == 0 { clamp_jitter(jitter_ms) } else { b.backoff() }
}

/// What `schedule_telemetry` does (its contract), `queued` being its answer: queued exactly
/// when no user traffic waits, and then queued as `schedule_tx` queues it.
pub open spec fn telemetry_scheduled(b: BackoffController, a: BackoffController, packet: MeshPacket, jitter_ms: u16, queued: bool) -> bool {
    &&& queued == !(exists|i: int| 0 <= i < b.slots().len() && is_user_traffic(#[trigger] b.slots()[i]))
    &&& queued ==> scheduled(b, a, packet, jitter_ms)
    &&& !queued ==> a.slots() == b.slots() && a.backoff() == b.backoff()
}

/// What `on_overhear` does (its contract): the first queued copy of the chunk, if any,
/// is cancelled; nothing else changes.
pub open spec fn overheard(b: BackoffController, a: BackoffController, msg_id: u32, chunk_idx: u8) -> bool {
    &&& a.backoff() == b.backoff()
    &&& (forall|i: int| 0 <= i < b.slots().len() ==> !holds_chunk(#[trigger] b.slots()[i], msg_id, chunk_idx)) ==> a.slots()
        == b.slots()
    &&& (exists|i: int| 0 <= i < b.slots().len() && holds_chunk(#[trigger] b.slots()[i], msg_id, chunk_idx)) ==> exists|i: int|
        0 <= i < b.slots().len() && holds_chunk(#[trigger] b.slots()[i], msg_id, chunk_idx) && (forall|k: int|
            0 <= k < i ==> !holds_chunk(#[trigger] b.slots()[k], msg_id, chunk_idx)) && a.slots() == b.slots().update(i, None)
}

/// Bounded transmit queue with contention backoff. Cancelled packets leave an empty slot
/// in place until they reach the front.
pub struct BackoffController {
    queue: [Option<MeshPacket>; TX_QUEUE_CAPACITY],
    head: usize,
    tail: usize,
    count: usize,
    backoff_remaining_ms: u16,
}

impl BackoffController {
    #[verifier::type_invariant]
    spec fn ring_indices(self) -> bool {
        &&& self.head < TX_QUEUE_CAPACITY
        &&& self.count <= TX_QUEUE_CAPACITY
        &&& self.tail == (self.head + self.count) % (TX_QUEUE_CAPACITY as int)
    }

    /// Queued slots, oldest first (cancelled ones are `None`).
    pub closed spec fn slots(&self) -> Seq<Option<MeshPacket>> {
        ring_window(self.queue@, self.head as int, self.count as int)
    }

    /// Milliseconds until the front packet may be sent.
    pub closed spec fn backoff(&self) -> u16 {
        self.backoff_remaining_ms
    }

    pub fn new() -> (r: Self)
        ensures
            r.slots() == Seq::<Option<MeshPacket>>::empty(),
            r.backoff() == 0,
    {
        let r = BackoffController {
            queue: [None, None, None, None, None, None, None, None],
            head: 0,
            tail: 0,
            count: 0,
            backoff_remaining_ms: 0,
        };
        assert(r.slots() =~= Seq::<Option<MeshPacket>>::empty());
        r
    }

    /// LQI-weighted relay backoff, as `calculate_lqi_relay_jitter` of the framing module.
    pub fn calculate_lqi_relay_jitter(lqi: u8, random_val: u16) -> (r: u16)
        ensures
            r == relay_jitter(lqi, random_val),
    {
        calculate_lqi_relay_jitter(lqi, random_val)
    }

    /// Queues `packet`. A full queue drops its oldest slot; the first packet into an empty
    /// queue starts the backoff at the jitter clamped into 15..=90 ms.
    pub fn schedule_tx(&mut self, packet: MeshPacket, jitter_ms: u16)
        ensures
            old(self).slots().len() < TX_QUEUE_CAPACITY ==> final(self).slots() == old(self).slots().push(Some(packet)),
            old(self).slots().len() == TX_QUEUE_CAPACITY ==> final(self).slots() == old(self).slots().drop_first().push(Some(packet)),
            final(self).backoff() == if old(self).slots().len() == 0 { clamp_jitter(jitter_ms) } else { old(self).backoff() },
            scheduled(*old(self), *final(self), packet, jitter_ms),
    {
        proof { use_type_invariant(&*self); }
        let clamped = if jitter_ms < 15 { 15 } else if jitter_ms > 90 { 90 } else { jitter_ms };
        let ghost s0 = self.slots();
        let ghost q0 = self.queue@;
        let mut queue = self.queue;
        let head = self.head;
        let tail = self.tail;
        let count = self.count;
        if count < TX_QUEUE_CAPACITY {
            queue[tail] = Some(packet);
            let backoff = if count == 0 { clamped } else { self.backoff_remaining_ms };
            proof {
                lemma_ring_push(q0, head as int, count as int, Some(packet));
                lemma_mod_step(head + count, 0);
            }
            *self = BackoffController {
                queue,
                head,
                tail: (tail + 1) % TX_QUEUE_CAPACITY,
                count: count + 1,
                backoff_remaining_ms: backoff,
            };
        } else {
            queue[head] = None;
            let ghost q1 = queue@;
            let new_head = (head + 1) % TX_QUEUE_CAPACITY;
            queue[tail] = Some(packet);
            proof {
                lemma_ring_shift(q0, head as int, 8, None);
                lemma_ring_push(q1, new_head as int, 7, Some(packet));
                assert((new_head + 7) % 8 == head);
            }
            *self = BackoffController {
                queue,
                head: new_head,
                tail: (tail + 1) % TX_QUEUE_CAPACITY,
                count,
                backoff_remaining_ms: self.backoff_remaining_ms,
            };
        }
    }

    pub fn has_pending(&self) -> (r: bool)
        ensures
            r == (self.slots().len() > 0),
    {
        self.count > 0
    }

    /// Whether the front slot holds a telemetry packet.
    pub fn is_pending_telemetry(&self) -> (r: bool)
        ensures
            r == (self.slots().len() > 0 && is_telemetry(self.slots()[0])),
    {
        proof { use_type_invariant(self); }
        if self.count > 0 {
            assert(self.slots()[0] == self.queue@[self.head as int]);
            if let Some(p) = &self.queue[self.head] {
                return (p.header.flags & FLAG_TELEMETRY) != 0;
            }
        }
        false
    }

    /// Queues a telemetry packet only while no user traffic is queued; returns whether
    /// it was queued.
    pub fn schedule_telemetry(&mut self, packet: MeshPacket, jitter_ms: u16) -> (r: bool)
        ensures
            r == !(exists|i: int| 0 <= i < old(self).slots().len() && is_user_traffic(#[trigger] old(self).slots()[i])),
            !r ==> final(self).slots() == old(self).slots() && final(self).backoff() == old(self).backoff(),
            r && old(self).slots().len() < TX_QUEUE_CAPACITY ==> final(self).slots() == old(self).slots().push(Some(packet)),
            r && old(self).slots().len() == TX_QUEUE_CAPACITY ==> final(self).slots() == old(self).slots().drop_first().push(Some(packet)),
            r ==> final(self).backoff() == if old(self).slots().len() == 0 { clamp_jitter(jitter_ms) } else { old(self).backoff() },
            telemetry_scheduled(*old(self), *final(self), packet, jitter_ms, r),
    {
        proof { use_type_invariant(&*self); }
        if self.has_user_traffic() {
            return false;
        }
        self.schedule_tx(packet, jitter_ms);
        true
    }

    /// Whether any queued slot holds user traffic.
    fn has_user_traffic(&self) -> (r: bool)
        ensures
            r == (exists|i: int| 0 <= i < self.slots().len() && is_user_traffic(#[trigger] self.slots()[i])),
    {
        proof { use_type_invariant(self); }
        let ghost s0 = self.slots();
        let head = self.head;
        let count = self.count;
        let mut i: usize = 0;
        while i < count
            invariant
                count <= TX_QUEUE_CAPACITY,
                head < TX_QUEUE_CAPACITY,
                s0 == ring_window(self.queue@, head as int, count as int),
                s0 == self.slots(),
                i <= count,
                forall|k: int| 0 <= k < i ==> !is_user_traffic(#[trigger] s0[k]),
            decreases count - i,
        {
            let idx = (head + i) % TX_QUEUE_CAPACITY;
            assert(s0[i as int] == self.queue@[idx as int]);
            if let Some(p) = &self.queue[idx] {
                if (p.header.flags & FLAG_TELEMETRY) == 0 {
                    assert(is_user_traffic(s0[i as int]));
                    return true;
                }
            }
            i = i + 1;
        }
        false
    }

    /// Counts the backoff down; returns true when it has run out and a packet is queued.
    pub fn tick(&mut self, elapsed_ms: u16) -> (r: bool)
        ensures
            final(self).slots() == old(self).slots(),
            old(self).slots().len() == 0 ==> !r && final(self).backoff() == old(self).backoff(),
            old(self).slots().len() > 0 ==> r == (elapsed_ms >= old(self).backoff()),
            old(self).slots().len() > 0 && elapsed_ms >= old(self).backoff() ==> final(self).backoff() == 0,
            old(self).slots().len() > 0 && elapsed_ms < old(self).backoff() ==> final(self).backoff() == old(self).backoff() - elapsed_ms,
    {
        proof { use_type_invariant(&*self); }
        if self.count == 0 {
            return false;
        }
        if elapsed_ms >= self.backoff_remaining_ms {
            self.backoff_remaining_ms = 0;
            true
        } else {
            self.backoff_remaining_ms = self.backoff_remaining_ms - elapsed_ms;
            false
        }
    }

    /// Cancels the first queued copy of an overheard chunk, leaving an empty slot; returns
    /// whether one was found.
    pub fn on_overhear(&mut self, msg_id: u32, chunk_idx: u8) -> (r: bool)
        ensures
            final(self).backoff() == old(self).backoff(),
            r == (exists|i: int| 0 <= i < old(self).slots().len() && holds_chunk(#[trigger] old(self).slots()[i], msg_id, chunk_idx)),
            !r ==> final(self).slots() == old(self).slots(),
            r ==> exists|i: int| 0 <= i < old(self).slots().len()
                && holds_chunk(#[trigger] old(self).slots()[i], msg_id, chunk_idx)
                && (forall|k: int| 0 <= k < i ==> !holds_chunk(#[trigger] old(self).slots()[k], msg_id, chunk_idx))
                && final(self).slots() == old(self).slots().update(i, None),
            overheard(*old(self), *final(self), msg_id, chunk_idx),
    {
        proof { use_type_invariant(&*self); }
        let ghost s0 = self.slots();
        let head = self.head;
        let count = self.count;
        let mut i: usize = 0;
        let mut found = false;
        while i < count
            invariant_except_break
                !found,
            invariant
                count <= TX_QUEUE_CAPACITY,
                head < TX_QUEUE_CAPACITY,
                s0 == ring_window(self.queue@, head as int, count as int),
                i <= count,
                forall|k: int| 0 <= k < i ==> !holds_chunk(#[trigger] s0[k], msg_id, chunk_idx),
            ensures
                found ==> i < count && holds_chunk(s0[i as int], msg_id, chunk_idx),
                !found ==> i == count,
            decreases count - i,
        {
            let idx = (head + i) % TX_QUEUE_CAPACITY;
            assert(s0[i as int] == self.queue@[idx as int]);
            let hit = match &self.queue[idx] {
                Some(p) => p.header.msg_id == msg_id && p.header.chunk_idx == chunk_idx,
                None => false,
            };
            if hit {
                found = true;
                break;
            }
            i = i + 1;
        }
        if !found {
            return false;
        }
        let idx = (head + i) % TX_QUEUE_CAPACITY;
        let mut queue = self.queue;
        queue[idx] = None;
        proof {
            lemma_ring_update(self.queue@, head as int, count as int, i as int, None);
        }
        *self = BackoffController {
            queue,
            head,
            tail: self.tail,
            count,
            backoff_remaining_ms: self.backoff_remaining_ms,
        };
        true
    }

    /// Takes the oldest queued packet, discarding the cancelled slots in front of it. While
    /// more slots remain queued, the next send waits 20 ms.
    pub fn take_pending(&mut self) -> (r: Option<MeshPacket>)
        ensures
            final(self).backoff() == if old(self).slots().len() > 1 { 20 } else { old(self).backoff() },
            (forall|i: int| 0 <= i < old(self).slots().len() ==> #[trigger] old(self).slots()[i] is None) ==> {
                &&& r is None
                &&& final(self).slots() == Seq::<Option<MeshPacket>>::empty()
            },
            r is Some ==> exists|j: int| 0 <= j < old(self).slots().len()
                && old(self).slots()[j] == r
                && (forall|k: int| 0 <= k < j ==> #[trigger] old(self).slots()[k] is None)
                && final(self).slots() == old(self).slots().subrange(j + 1, old(self).slots().len() as int),
            (exists|i: int| 0 <= i < old(self).slots().len() && #[trigger] old(self).slots()[i] is Some) ==> r is Some,
            take_step(old(self).slots(), final(self).slots(), r),
    {
        proof { use_type_invariant(&*self); }
        let ghost s0 = self.slots();
        let b0 = self.backoff_remaining_ms;
        let tail = self.tail;
        let mut queue = self.queue;
        let mut head = self.head;
        let mut count = self.count;
        let mut backoff = b0;
        let mut result: Option<MeshPacket> = None;
        let ghost mut taken: int = 0;
        while count > 0 && result.is_none()
            invariant
                head < TX_QUEUE_CAPACITY,
                count <= TX_QUEUE_CAPACITY,
                queue@.len() == TX_QUEUE_CAPACITY,
                0 <= taken <= s0.len(),
                count == s0.len() - taken,
                tail == (head + count) % (TX_QUEUE_CAPACITY as int),
                ring_window(queue@, head as int, count as int) == s0.subrange(taken, s0.len() as int),
                result is None ==> forall|k: int| 0 <= k < taken ==> #[trigger] s0[k] is None,
                result is Some ==> taken >= 1 && s0[taken - 1] == result
                    && forall|k: int| 0 <= k < taken - 1 ==> #[trigger] s0[k] is None,
                backoff == if taken > 0 && s0.len() > 1 { 20 } else { b0 },
            decreases count,
        {
            let ghost before = queue@;
            let pkt = queue[head];
            proof {
                assert(ring_window(before, head as int, count as int)[0] == s0[taken]);
                lemma_ring_shift(before, head as int, count as int, None);
                lemma_mod_step(head as int, (count - 1) as int);
            }
            queue[head] = None;
            head = (head + 1) % TX_QUEUE_CAPACITY;
            count = count - 1;
            if count > 0 {
                backoff = 20;
            }
            proof {
                taken = taken + 1;
                assert(ring_window(queue@, head as int, count as int) =~= s0.subrange(taken, s0.len() as int));
            }
            result = pkt;
        }
        *self = BackoffController { queue, head, tail, count, backoff_remaining_ms: backoff };
        proof {
            assert(self.slots() == s0.subrange(taken, s0.len() as int));
            if result is None {
                assert(count == 0);
                assert(self.slots() =~= Seq::<Option<MeshPacket>>::empty());
            }
        }
        result
    }
}

/// The packets of queued slots in queue order, skipping cancelled slots.
pub open spec fn pending_packets(s: Seq<Option<MeshPacket>>) -> Seq<MeshPacket>
    decreases s.len(),
{
    if s.len() == 0 {
        Seq::empty()
    } else {
        match s.last() {
            Some(p) => pending_packets(s.drop_last()).push(p),
            None => pending_packets(s.drop_last()),
        }
    }
}

/// What one `take_pending` does to the queued slots `s`, leaving `t` and giving `r` (its
/// contract): an all-cancelled queue gives nothing and empties; else the first queued
/// packet comes out with the cancelled slots before it.
pub open spec fn take_step(s: Seq<Option<MeshPacket>>, t: Seq<Option<MeshPacket>>, r: Option<MeshPacket>) -> bool {
    &&& (forall|i: int| 0 <= i < s.len() ==> #[trigger] s[i] is None) ==> r is None && t == Seq::<Option<MeshPacket>>::empty()
    &&& r is Some ==> exists|j: int|
        0 <= j < s.len() && s[j] == r && (forall|k: int| 0 <= k < j ==> #[trigger] s[k] is None) && t == s.subrange(
            j + 1,
            s.len() as int,
        )
    &&& (exists|i: int| 0 <= i < s.len() && #[trigger] s[i] is Some) ==> r is Some
}

proof fn lemma_pending_concat(a: Seq<Option<MeshPacket>>, b: Seq<Option<MeshPacket>>)
    ensures
        pending_packets(a + b) == pending_packets(a) + pending_packets(b),
    decreases b.len(),
{
    if b.len() == 0 {
        assert(a + b =~= a);
        assert(pending_packets(a) + pending_packets(b) =~= pending_packets(a));
    } else {
        lemma_pending_concat(a, b.drop_last());
        assert((a + b).drop_last() =~= a + b.drop_last());
        match b.last() {
            Some(p) => {
                assert(pending_packets(a) + pending_packets(b.drop_last()).push(p) =~= (pending_packets(a)
                    + pending_packets(b.drop_last())).push(p));
            },
            None => {},
        }
    }
}

proof fn lemma_pending_none(s: Seq<Option<MeshPacket>>)
    requires
        forall|i: int| 0 <= i < s.len() ==> #[trigger] s[i] is None,
    ensures
        pending_packets(s).len() == 0,
    decreases s.len(),
{
    if s.len() > 0 {
        assert(s.last() is None);
        lemma_pending_none(s.drop_last());
    }
}

proof fn lemma_pending_some(s: Seq<Option<MeshPacket>>, i: int)
    requires
        0 <= i < s.len(),
        s[i] is Some,
    ensures
        pending_packets(s).len() > 0,
    decreases s.len(),
{
    if s.last() is None {
        lemma_pending_some(s.drop_last(), i);
    }
}

/// One take: from a queue with no packet it gives nothing and leaves the queue empty;
/// otherwise it gives the first pending packet and leaves the rest pending in order.
pub proof fn lemma_take_gives_first(s: Seq<Option<MeshPacket>>, t: Seq<Option<MeshPacket>>, r: Option<MeshPacket>)
    requires
        take_step(s, t, r),
    ensures
        pending_packets(s).len() == 0 ==> r is None && t.len() == 0,
        pending_packets(s).len() > 0 ==> r == Some(pending_packets(s)[0]) && pending_packets(t) == pending_packets(
            s,
        ).drop_first(),
{
    if exists|i: int| 0 <= i < s.len() && #[trigger] s[i] is Some {
        let i = choose|i: int| 0 <= i < s.len() && #[trigger] s[i] is Some;
        lemma_pending_some(s, i);
        let j = choose|j: int|
            0 <= j < s.len() && s[j] == r && (forall|k: int| 0 <= k < j ==> #[trigger] s[k] is None) && t == s.subrange(
                j + 1,
                s.len() as int,
            );
        let x = r->0;
        assert(s =~= s.take(j) + (seq![Some(x)] + t));
        lemma_pending_concat(s.take(j), seq![Some(x)] + t);
        lemma_pending_concat(seq![Some(x)], t);
        lemma_pending_none(s.take(j));
        assert(seq![Some(x)].drop_last() =~= Seq::<Option<MeshPacket>>::empty());
        assert(seq![Some(x)].last() == Some(x));
        assert(pending_packets(Seq::<Option<MeshPacket>>::empty()) =~= Seq::<MeshPacket>::empty());
        assert(Seq::<MeshPacket>::empty().push(x) =~= seq![x]);
        assert(pending_packets(seq![Some(x)]) =~= seq![x]);
        assert(pending_packets(s) =~= seq![x] + pending_packets(t));
        assert((seq![x] + pending_packets(t)).drop_first() =~= pending_packets(t));
    } else {
        assert forall|i: int| 0 <= i < s.len() implies #[trigger] s[i] is None by {
            if s[i] is Some {
                assert(exists|i: int| 0 <= i < s.len() && #[trigger] s[i] is Some);
            }
        }
        lemma_pending_none(s);
    }
}

/// Taking packets one after another gives the pending packets in queue order and then
/// nothing, after which the queue is empty: `ss[0]` is the queue, and take `k` turns
/// `ss[k]` into `ss[k + 1]`, giving `rs[k]`.
pub proof fn lemma_takes_in_order(ss: Seq<Seq<Option<MeshPacket>>>, rs: Seq<Option<MeshPacket>>)
    requires
        ss.len() == rs.len() + 1,
        forall|k: int| 0 <= k < rs.len() ==> #[trigger] take_step(ss[k], ss[k + 1], rs[k]),
    ensures
        forall|k: int|
            0 <= k < rs.len() ==> #[trigger] rs[k] == if k < pending_packets(ss[0]).len() {
                Some(pending_packets(ss[0])[k])
            } else {
                None::<MeshPacket>
            },
        rs.len() > pending_packets(ss[0]).len() ==> ss.last().len() == 0,
    decreases rs.len(),
{
    if rs.len() > 0 {
        let n = rs.len() - 1;
        lemma_takes_in_order(ss.drop_last(), rs.drop_last());
        assert forall|k: int| 0 <= k < n implies #[trigger] rs[k] == if k < pending_packets(ss[0]).len() {
            Some(pending_packets(ss[0])[k])
        } else {
            None::<MeshPacket>
        } by {
            assert(rs.drop_last()[k] == rs[k]);
        }
        lemma_pending_after(ss, rs, n);
        assert(take_step(ss[n], ss[n + 1], rs[n]));
        lemma_take_gives_first(ss[n], ss[n + 1], rs[n]);
    }
}

/// After `k` takes the pending packets are those of the queue after its first `k`, and a
/// queue that had at most `k` pending packets has none.
proof fn lemma_pending_after(ss: Seq<Seq<Option<MeshPacket>>>, rs: Seq<Option<MeshPacket>>, k: int)
    requires
        ss.len() == rs.len() + 1,
        forall|j: int| 0 <= j < rs.len() ==> #[trigger] take_step(ss[j], ss[j + 1], rs[j]),
        0 <= k < ss.len(),
    ensures
        k <= pending_packets(ss[0]).len() ==> pending_packets(ss[k]) == pending_packets(ss[0]).skip(k),
        k >= pending_packets(ss[0]).len() ==> pending_packets(ss[k]).len() == 0,
        k > pending_packets(ss[0]).len() ==> ss[k].len() == 0,
    decreases k,
{
    if k == 0 {
        assert(pending_packets(ss[0]).skip(0) =~= pending_packets(ss[0]));
    } else {
        lemma_pending_after(ss, rs, k - 1);
        assert(take_step(ss[k - 1], ss[k - 1 + 1], rs[k - 1]));
        lemma_take_gives_first(ss[k - 1], ss[k], rs[k - 1]);
        if k <= pending_packets(ss[0]).len() {
            assert(pending_packets(ss[0]).skip(k - 1).drop_first() =~= pending_packets(ss[0]).skip(k));
        }
    }
}

/// Scheduling a packet adds it after the packets already pending, in a queue with room as
/// in a full one (whose oldest slot is dropped first).
pub proof fn lemma_schedule_appends(s: Seq<Option<MeshPacket>>, p: MeshPacket)
    ensures
        pending_packets(s.push(Some(p))) == pending_packets(s).push(p),
        s.len() > 0 ==> pending_packets(s.drop_first().push(Some(p))) == pending_packets(s.drop_first()).push(p),
{
    assert(s.push(Some(p)).drop_last() =~= s);
    if s.len() > 0 {
        assert(s.drop_first().push(Some(p)).drop_last() =~= s.drop_first());
    }
}

} // verus!
