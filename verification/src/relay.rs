//! What the dongle does with each mesh frame it receives: admission, peer tracking,
//! local telemetry, deduplication, the host line, the storage ring and the relay.
use vstd::prelude::*;
use crate::bytes::get_be4;
use crate::dedup::{filter_inserted, SlidingBloomFilter};
use crate::ble_gate::{BleAuthState, BleSecurityGate};
use crate::frame::{
    debug_telemetry_bytes, is_valid_network_tag, lemma_record_peer_laws, packet_bytes, recorded_slots, relay_jitter,
    valid_network_tag, ClosedTelemetry, DebugTelemetryPayload, DiagnosticEventCode, MeshHeader, MeshPacket, PeerTable,
    StorageModeStatus, TelemetryTier, CIPHERTEXT_LEN, DEFAULT_NETWORK_TAG, FLAG_ACK_REQ, FLAG_CLIPBOARD, FLAG_TELEMETRY,
    MIN_RELAY_LQI,
};
use crate::ieee802154::{
    lqi_of_rssi, overheard, rssi_to_lqi, scheduled, take_step, telemetry_scheduled, BackoffController, ReceivedMeshPacket,
};
use crate::sram_ring::{ring_pushed, SramRingBuffer};
use crate::transport::{format_pkt_line, pkt_line};

verus! {

/// The dongle's mesh state that reception works on.
pub struct RelayNode {
    /// Packets seen recently, for deduplication.
    pub filter: SlidingBloomFilter,
    /// Packets waiting to be sent.
    pub backoff: BackoffController,
    /// Packets kept for the host and the card.
    pub ring: SramRingBuffer,
    /// Recently heard peers.
    pub peers: PeerTable,
    /// The dongle's own counters.
    pub telemetry: ClosedTelemetry,
    /// How many beacons the button has sent (wrapping).
    pub beacon_seq: u32,
    /// The sequence number of the last telemetry frame sent (wrapping).
    pub telem_seq: u32,
    /// Time since the last telemetry frame, in ms (saturating).
    pub telem_elapsed_ms: u32,
    /// When the next telemetry frame is due, in ms after the last one.
    pub next_telem_interval_ms: u32,
}

impl RelayNode {
    /// The peer table has the shape `record_peer` keeps (see `slots_well_formed`).
    pub open spec fn well_formed(&self) -> bool {
        self.peers.well_formed()
    }

    /// A node that has seen, queued, kept and heard nothing yet; its first telemetry frame
    /// is due after `telemetry_interval(random_val)`.
    pub fn new(random_val: u32) -> (r: Self)
        ensures
            r.beacon_seq == 0 && r.telem_seq == 0 && r.telem_elapsed_ms == 0,
            r.next_telem_interval_ms == telemetry_interval(random_val),
            r.well_formed(),
            r.backoff.slots() == Seq::<Option<MeshPacket>>::empty(),
            r.ring@ == Seq::<MeshPacket>::empty(),
            r.telemetry == (ClosedTelemetry {
                uptime_secs: 0,
                rx_packet_count: 0,
                tx_packet_count: 0,
                dropped_count: 0,
                sram_ring_used: 0,
                storage_mode: StorageModeStatus::RamOnly,
                last_event: DiagnosticEventCode::Boot,
                last_rssi: 0,
            }),
    {
        RelayNode {
            filter: SlidingBloomFilter::new(),
            backoff: BackoffController::new(),
            ring: SramRingBuffer::new(),
            peers: PeerTable::new(),
            telemetry: ClosedTelemetry::new(),
            beacon_seq: 0,
            telem_seq: 0,
            telem_elapsed_ms: 0,
            next_telem_interval_ms: next_telemetry_interval(random_val),
        }
    }
}

/// The time from one telemetry frame of a development build to the next: 4.5 s and up
/// to 1 s more.
pub open spec fn telemetry_interval(random_val: u32) -> u32 {
    (4500 + random_val % 1001) as u32
}

/// The time until the next telemetry frame (see `telemetry_interval`).
pub fn next_telemetry_interval(random_val: u32) -> (r: u32)
    ensures
        r == telemetry_interval(random_val),
{
    4500 + random_val % 1001
}

/// `a + b` wrapped to 32 bits.
pub open spec fn wrapped_sum(a: u32, b: u32) -> u32 {
    if a + b > u32::MAX { (a + b - 0x1_0000_0000) as u32 } else { (a + b) as u32 }
}

/// `c + 1`, saturating at the top.
pub open spec fn saturated_inc(c: u32) -> u32 {
    if c == u32::MAX { u32::MAX } else { (c + 1) as u32 }
}

/// What became of a received frame.
pub enum ReceptionKind {
    /// Its admission tag is not the mesh's: dropped.
    WrongNetwork,
    /// A telemetry frame: used locally only.
    Telemetry,
    /// A frame already seen: it only cancels our queued copy of it.
    Duplicate,
    /// A new frame: kept, handed to the host and possibly relayed.
    New,
}

/// The result of taking in one frame.
pub struct ReceptionOutcome {
    pub kind: ReceptionKind,
    /// The node the frame came from, as far as it is known (0 when not).
    pub source: u32,
    /// Whether the frame carries clipboard data (the dongle shows a sync animation).
    pub clipboard: bool,
    /// The `#PKT#` line for the host, for a new frame.
    pub pkt_line: Option<String>,
    /// Whether a copy was queued for relay.
    pub relayed: bool,
}

/// The sender of a received frame: the radio's source address, or, when that is 0, the
/// node id in a debug telemetry payload (tier byte `0xDB` at offset 20, id in bytes
/// 28..32), else 0.
pub open spec fn effective_source(rx: ReceivedMeshPacket) -> u32 {
    if rx.src_node_id != 0 {
        rx.src_node_id
    } else if rx.packet.header.flags & FLAG_TELEMETRY != 0 && rx.packet.payload@[20] == 0xDBu8 {
        get_be4(rx.packet.payload@.subrange(24, 32), 4)
    } else {
        0
    }
}

/// The copy of a packet that is relayed: one hop less to live, one more taken (saturating).
pub open spec fn relayed_packet(p: MeshPacket) -> MeshPacket {
    MeshPacket {
        header: MeshHeader {
            ttl: (p.header.ttl - 1) as u8,
            hop_count: if p.header.hop_count == 255 { 255u8 } else { (p.header.hop_count + 1) as u8 },
            ..p.header
        },
        payload: p.payload,
    }
}

/// The counters after a frame was received: one more (saturating), the last event a good
/// reception, and its signal strength.
pub open spec fn counted_reception(t: ClosedTelemetry, rssi: i8) -> ClosedTelemetry {
    ClosedTelemetry {
        rx_packet_count: saturated_inc(t.rx_packet_count),
        last_event: DiagnosticEventCode::RadioRxOk,
        last_rssi: rssi,
        ..t
    }
}

/// The beacon, telemetry and timer state of two nodes agree.
pub open spec fn same_sequences(a: RelayNode, b: RelayNode) -> bool {
    &&& a.beacon_seq == b.beacon_seq
    &&& a.telem_seq == b.telem_seq
    &&& a.telem_elapsed_ms == b.telem_elapsed_ms
    &&& a.next_telem_interval_ms == b.next_telem_interval_ms
}

/// The sender of a received frame (see `effective_source`).
pub fn effective_source_of(rx: &ReceivedMeshPacket) -> (r: u32)
    ensures
        r == effective_source(*rx),
{
    if rx.src_node_id != 0 {
        rx.src_node_id
    } else if (rx.packet.header.flags & FLAG_TELEMETRY) != 0 && rx.packet.payload[20] == 0xDB {
        let dbg = DebugTelemetryPayload::deserialize(&rx.packet.payload);
        dbg.node_id()
    } else {
        0
    }
}

/// Takes in one received frame. A frame with a foreign admission tag is dropped and
/// counted as such. Otherwise its sender (when known and not this node) is recorded as a
/// peer. A telemetry frame is then only counted: it never touches the filter, the queue
/// or the ring. A frame already seen only cancels our queued copy of it. A new frame is
/// added to the filter, cancels our queued copy, gives the `#PKT#` line for the host, is
/// kept in the ring, is relayed with one hop less after the LQI-weighted jitter when the
/// link is good enough and a hop is left, and is counted.
pub fn on_mesh_reception(node: &mut RelayNode, rx: &ReceivedMeshPacket, local_node_id: u32, random_val: u16) -> (out:
    ReceptionOutcome)
    requires
        old(node).well_formed(),
    ensures
        final(node).well_formed(),
        same_sequences(*old(node), *final(node)),
        !valid_network_tag(rx.packet.header.network_tag) ==> {
            &&& out.kind is WrongNetwork
            &&& out.pkt_line is None && !out.relayed
            &&& final(node).filter == old(node).filter
            &&& final(node).backoff == old(node).backoff
            &&& final(node).ring == old(node).ring
            &&& final(node).peers == old(node).peers
            &&& final(node).telemetry == ClosedTelemetry {
                last_event: DiagnosticEventCode::RadioDroppedTagMismatch,
                ..old(node).telemetry
            }
        },
        valid_network_tag(rx.packet.header.network_tag) ==> {
            &&& out.source == effective_source(*rx)
            &&& out.clipboard == (rx.packet.header.flags & FLAG_CLIPBOARD != 0)
            &&& if out.source != 0 && out.source != local_node_id {
                final(node).peers.peers@ == recorded_slots(old(node).peers.peers@, out.source, rx.rssi, rx.lqi)
            } else {
                final(node).peers == old(node).peers
            }
        },
        valid_network_tag(rx.packet.header.network_tag) && rx.packet.header.flags & FLAG_TELEMETRY != 0 ==> {
            &&& out.kind is Telemetry
            &&& out.pkt_line is None && !out.relayed
            &&& final(node).filter == old(node).filter
            &&& final(node).backoff == old(node).backoff
            &&& final(node).ring == old(node).ring
            &&& final(node).telemetry == counted_reception(old(node).telemetry, rx.rssi)
        },
        valid_network_tag(rx.packet.header.network_tag) && rx.packet.header.flags & FLAG_TELEMETRY == 0
            && old(node).filter.may_contain(rx.packet.header.msg_id, rx.packet.header.chunk_idx) ==> {
            &&& out.kind is Duplicate
            &&& out.pkt_line is None && !out.relayed
            &&& final(node).filter == old(node).filter
            &&& overheard(old(node).backoff, final(node).backoff, rx.packet.header.msg_id, rx.packet.header.chunk_idx)
            &&& final(node).ring == old(node).ring
            &&& final(node).telemetry == old(node).telemetry
        },
        valid_network_tag(rx.packet.header.network_tag) && rx.packet.header.flags & FLAG_TELEMETRY == 0
            && !old(node).filter.may_contain(rx.packet.header.msg_id, rx.packet.header.chunk_idx) ==> {
            &&& out.kind is New
            &&& filter_inserted(old(node).filter, final(node).filter, rx.packet.header.msg_id, rx.packet.header.chunk_idx)
            &&& ring_pushed(old(node).ring, final(node).ring, rx.packet)
            &&& out.pkt_line matches Some(line) && line@ == pkt_line(rx.src_node_id, packet_bytes(rx.packet))
            &&& out.relayed == (rx.lqi >= MIN_RELAY_LQI && rx.packet.header.ttl > 0)
            &&& exists|mid: BackoffController|
                #[trigger] overheard(old(node).backoff, mid, rx.packet.header.msg_id, rx.packet.header.chunk_idx) && if out.relayed {
                    scheduled(mid, final(node).backoff, relayed_packet(rx.packet), relay_jitter(rx.lqi, random_val % 15) as u16)
                } else {
                    final(node).backoff == mid
                }
            &&& final(node).telemetry == counted_reception(old(node).telemetry, rx.rssi)
        },
{
    let packet = rx.packet;
    if !is_valid_network_tag(packet.header.network_tag) {
        node.telemetry.last_event = DiagnosticEventCode::RadioDroppedTagMismatch;
        return ReceptionOutcome { kind: ReceptionKind::WrongNetwork, source: 0, clipboard: false, pkt_line: None, relayed: false };
    }
    let source = effective_source_of(rx);
    if source != 0 && source != local_node_id {
        proof {
            lemma_record_peer_laws(node.peers.peers@, source, rx.rssi, rx.lqi);
        }
        node.peers.record_peer(source, rx.rssi, rx.lqi);
    }
    let clipboard = (packet.header.flags & FLAG_CLIPBOARD) != 0;
    if (packet.header.flags & FLAG_TELEMETRY) != 0 {
        node.telemetry.rx_packet_count = node.telemetry.rx_packet_count.saturating_add(1);
        node.telemetry.last_event = DiagnosticEventCode::RadioRxOk;
        node.telemetry.last_rssi = rx.rssi;
        return ReceptionOutcome { kind: ReceptionKind::Telemetry, source, clipboard, pkt_line: None, relayed: false };
    }
    let msg_id = packet.header.msg_id;
    let chunk_idx = packet.header.chunk_idx;
    if node.filter.contains(msg_id, chunk_idx) {
        node.backoff.on_overhear(msg_id, chunk_idx);
        return ReceptionOutcome { kind: ReceptionKind::Duplicate, source, clipboard, pkt_line: None, relayed: false };
    }
    node.filter.insert(msg_id, chunk_idx);
    node.backoff.on_overhear(msg_id, chunk_idx);
    let ghost mid = node.backoff;
    let line = format_pkt_line(rx.src_node_id, &packet);
    let _ = node.ring.push(packet);
    let mut fwd = packet;
    let relayed = if rx.lqi >= MIN_RELAY_LQI && fwd.decrement_ttl() {
        let jitter = BackoffController::calculate_lqi_relay_jitter(rx.lqi, random_val % 15);
        assert(fwd == relayed_packet(packet));
        node.backoff.schedule_tx(fwd, jitter);
        true
    } else {
        false
    };
    node.telemetry.rx_packet_count = node.telemetry.rx_packet_count.saturating_add(1);
    node.telemetry.last_event = DiagnosticEventCode::RadioRxOk;
    node.telemetry.last_rssi = rx.rssi;
    ReceptionOutcome { kind: ReceptionKind::New, source, clipboard, pkt_line: Some(line), relayed }
}

/// The result of taking in one packet from the host.
pub struct HostIntake {
    /// Whether the packet carries the mesh's admission tag and was taken.
    pub accepted: bool,
    /// Whether an accepted packet carries clipboard data (the dongle shows a sync animation).
    pub clipboard: bool,
}

/// Takes in one packet that the host framed over USB. A packet with a foreign admission
/// tag is ignored. Otherwise it is added to the filter (so that its echo from a peer is
/// not taken again), kept in the ring and queued for sending after 15 ms.
pub fn on_host_packet(node: &mut RelayNode, packet: &MeshPacket) -> (out: HostIntake)
    requires
        old(node).well_formed(),
    ensures
        final(node).well_formed(),
        same_sequences(*old(node), *final(node)),
        final(node).peers == old(node).peers,
        final(node).telemetry == old(node).telemetry,
        out.accepted == valid_network_tag(packet.header.network_tag),
        out.clipboard == (out.accepted && packet.header.flags & FLAG_CLIPBOARD != 0),
        !out.accepted ==> {
            &&& final(node).filter == old(node).filter
            &&& final(node).backoff == old(node).backoff
            &&& final(node).ring == old(node).ring
        },
        out.accepted ==> {
            &&& filter_inserted(old(node).filter, final(node).filter, packet.header.msg_id, packet.header.chunk_idx)
            &&& ring_pushed(old(node).ring, final(node).ring, *packet)
            &&& scheduled(old(node).backoff, final(node).backoff, *packet, 15)
        },
{
    if !is_valid_network_tag(packet.header.network_tag) {
        return HostIntake { accepted: false, clipboard: false };
    }
    node.filter.insert(packet.header.msg_id, packet.header.chunk_idx);
    let _ = node.ring.push(*packet);
    node.backoff.schedule_tx(*packet, 15);
    HostIntake { accepted: true, clipboard: (packet.header.flags & FLAG_CLIPBOARD) != 0 }
}

/// The header of the button's beacon `msg_id`: the mesh's tag, one chunk, three hops to
/// live, an acknowledgement asked for.
pub open spec fn beacon_header(msg_id: u32) -> MeshHeader {
    MeshHeader {
        network_tag: DEFAULT_NETWORK_TAG,
        msg_id,
        chunk_idx: 0,
        total_chunks: 1,
        ttl: 3,
        hop_count: 0,
        flags: FLAG_ACK_REQ,
    }
}

/// What a button press did.
pub struct ButtonOutcome {
    /// The beacon that was queued.
    pub beacon: MeshPacket,
    /// Whether the press authorized an open pairing prompt.
    pub authorized: bool,
}

/// A press of the dongle's button: the next beacon (id: this node's id plus the beacon
/// count, both wrapping) is added to the filter, so that its relayed copies are not taken
/// again, and queued after 15 ms; and an open pairing prompt is authorized.
pub fn on_button_press(node: &mut RelayNode, gate: &mut BleSecurityGate, local_node_id: u32) -> (out: ButtonOutcome)
    requires
        old(node).well_formed(),
    ensures
        final(node).well_formed(),
        final(node).beacon_seq == wrapped_sum(old(node).beacon_seq, 1),
        out.beacon.header == beacon_header(wrapped_sum(local_node_id, final(node).beacon_seq)),
        out.beacon.payload@ == Seq::new(96, |i: int| 0xAAu8),
        filter_inserted(old(node).filter, final(node).filter, out.beacon.header.msg_id, 0),
        scheduled(old(node).backoff, final(node).backoff, out.beacon, 15),
        final(node).ring == old(node).ring,
        final(node).peers == old(node).peers,
        final(node).telem_seq == old(node).telem_seq,
        final(node).telem_elapsed_ms == old(node).telem_elapsed_ms,
        final(node).next_telem_interval_ms == old(node).next_telem_interval_ms,
        out.authorized == (old(gate)@.0 is PairingRequested),
        out.authorized ==> final(gate)@ == (BleAuthState::Authorized, true),
        !out.authorized ==> final(gate)@ == old(gate)@,
        final(node).telemetry == if out.authorized {
            ClosedTelemetry { last_event: DiagnosticEventCode::BleAuthGranted, ..old(node).telemetry }
        } else {
            old(node).telemetry
        },
{
    node.beacon_seq = node.beacon_seq.wrapping_add(1);
    let msg_id = local_node_id.wrapping_add(node.beacon_seq);
    let header = MeshHeader {
        network_tag: DEFAULT_NETWORK_TAG,
        msg_id,
        chunk_idx: 0,
        total_chunks: 1,
        ttl: 3,
        hop_count: 0,
        flags: FLAG_ACK_REQ,
    };
    let beacon = MeshPacket { header, payload: [0xAAu8; 96] };
    assert(beacon.payload@ =~= Seq::new(96, |i: int| 0xAAu8));
    node.filter.insert(msg_id, 0);
    node.backoff.schedule_tx(beacon, 15);
    let authorized = gate.on_button_press();
    if authorized {
        node.telemetry.last_event = DiagnosticEventCode::BleAuthGranted;
    }
    ButtonOutcome { beacon, authorized }
}

/// One turn of the transmit service in the mesh slot, `delta_ms` after the last: the
/// backoff counts down, and once it has run out the oldest queued packet is taken for
/// the radio.
pub fn service_tx(node: &mut RelayNode, delta_ms: u16) -> (r: Option<MeshPacket>)
    requires
        old(node).well_formed(),
    ensures
        final(node).well_formed(),
        same_sequences(*old(node), *final(node)),
        final(node).filter == old(node).filter,
        final(node).ring == old(node).ring,
        final(node).peers == old(node).peers,
        final(node).telemetry == old(node).telemetry,
        old(node).backoff.slots().len() == 0 ==> {
            &&& r is None
            &&& final(node).backoff.slots() == old(node).backoff.slots()
            &&& final(node).backoff.backoff() == old(node).backoff.backoff()
        },
        old(node).backoff.slots().len() > 0 && delta_ms < old(node).backoff.backoff() ==> {
            &&& r is None
            &&& final(node).backoff.slots() == old(node).backoff.slots()
            &&& final(node).backoff.backoff() == old(node).backoff.backoff() - delta_ms
        },
        old(node).backoff.slots().len() > 0 && delta_ms >= old(node).backoff.backoff() ==> {
            &&& take_step(old(node).backoff.slots(), final(node).backoff.slots(), r)
            &&& final(node).backoff.backoff() == if old(node).backoff.slots().len() > 1 { 20u16 } else { 0u16 }
        },
{
    if node.backoff.tick(delta_ms) {
        node.backoff.take_pending()
    } else {
        None
    }
}

/// Counts a packet that the radio sent; a failed send changes nothing.
pub fn on_tx_result(node: &mut RelayNode, sent: bool)
    requires
        old(node).well_formed(),
    ensures
        final(node).well_formed(),
        same_sequences(*old(node), *final(node)),
        final(node).filter == old(node).filter,
        final(node).backoff == old(node).backoff,
        final(node).ring == old(node).ring,
        final(node).peers == old(node).peers,
        final(node).telemetry == if sent {
            ClosedTelemetry {
                tx_packet_count: saturated_inc(old(node).telemetry.tx_packet_count),
                last_event: DiagnosticEventCode::RadioTxOk,
                ..old(node).telemetry
            }
        } else {
            old(node).telemetry
        },
{
    if sent {
        node.telemetry.tx_packet_count = node.telemetry.tx_packet_count.saturating_add(1);
        node.telemetry.last_event = DiagnosticEventCode::RadioTxOk;
    }
}

/// The header of telemetry frame `seq`: the mesh's tag, one chunk, one hop to live (it is
/// used by the neighbours only), the telemetry flag.
pub open spec fn telemetry_header(seq: u32) -> MeshHeader {
    MeshHeader {
        network_tag: DEFAULT_NETWORK_TAG,
        msg_id: seq,
        chunk_idx: 0,
        total_chunks: 1,
        ttl: 1,
        hop_count: 0,
        flags: FLAG_TELEMETRY,
    }
}

/// The report of a development build: the node's counters, the ring's fill and drops, the
/// storage mode, the free heap and the MAC tail as given, the last event and signal, and
/// the link quality of that signal.
pub open spec fn debug_report_of(
    node: RelayNode,
    storage_mode: StorageModeStatus,
    free_heap_kb: u8,
    mac_tail: [u8; 8],
    d: DebugTelemetryPayload,
) -> bool {
    &&& d.uptime_secs == node.telemetry.uptime_secs
    &&& d.rx_count == node.telemetry.rx_packet_count
    &&& d.tx_count == node.telemetry.tx_packet_count
    &&& d.drop_count == node.ring.dropped()
    &&& d.sram_used == node.ring@.len()
    &&& d.storage_mode == storage_mode
    &&& d.last_event == node.telemetry.last_event
    &&& d.build_tier == TelemetryTier::Debug
    &&& d.free_heap_kb == free_heap_kb
    &&& d.last_rssi == node.telemetry.last_rssi
    &&& d.last_lqi == lqi_of_rssi(node.telemetry.last_rssi)
    &&& d.node_mac_tail@ == mac_tail@
    &&& d.diagnostic_reserve@ == Seq::new(64, |i: int| 0u8)
}

/// A telemetry frame that fell due.
pub struct TelemetryEmission {
    /// What it reports.
    pub report: DebugTelemetryPayload,
    /// The frame itself.
    pub packet: MeshPacket,
    /// Whether it was queued: it yields to any queued user traffic.
    pub queued: bool,
}

/// One turn of the telemetry timer in the mesh slot, `delta_ms` after the last. When the
/// interval has run out, the timer restarts with a new interval
/// (`telemetry_interval(random_interval)`) and the node's report goes out as the next
/// telemetry frame, queued after 15 to 60 ms unless user traffic waits.
pub fn on_telemetry_timer(
    node: &mut RelayNode,
    delta_ms: u32,
    storage_mode: StorageModeStatus,
    free_heap_kb: u8,
    mac_tail: [u8; 8],
    random_interval: u32,
    random_jitter: u32,
) -> (r: Option<TelemetryEmission>)
    requires
        old(node).well_formed(),
    ensures
        final(node).well_formed(),
        final(node).beacon_seq == old(node).beacon_seq,
        final(node).filter == old(node).filter,
        final(node).ring == old(node).ring,
        final(node).peers == old(node).peers,
        final(node).telemetry == old(node).telemetry,
        ({
            let elapsed = if old(node).telem_elapsed_ms + delta_ms > u32::MAX {
                u32::MAX
            } else {
                (old(node).telem_elapsed_ms + delta_ms) as u32
            };
            &&& elapsed < old(node).next_telem_interval_ms ==> {
                &&& r is None
                &&& final(node).telem_elapsed_ms == elapsed
                &&& final(node).next_telem_interval_ms == old(node).next_telem_interval_ms
                &&& final(node).telem_seq == old(node).telem_seq
                &&& final(node).backoff == old(node).backoff
            }
            &&& elapsed >= old(node).next_telem_interval_ms ==> {
                &&& final(node).telem_elapsed_ms == 0
                &&& final(node).next_telem_interval_ms == telemetry_interval(random_interval)
                &&& final(node).telem_seq == wrapped_sum(old(node).telem_seq, 1)
                &&& r matches Some(e) && {
                    &&& debug_report_of(*old(node), storage_mode, free_heap_kb, mac_tail, e.report)
                    &&& e.packet.header == telemetry_header(final(node).telem_seq)
                    &&& e.packet.payload@ == debug_telemetry_bytes(e.report)
                    &&& telemetry_scheduled(old(node).backoff, final(node).backoff, e.packet, (random_jitter % 46 + 15) as u16, e.queued)
                }
            }
        }),
{
    node.telem_elapsed_ms = node.telem_elapsed_ms.saturating_add(delta_ms);
    if node.telem_elapsed_ms < node.next_telem_interval_ms {
        return None;
    }
    node.telem_elapsed_ms = 0;
    node.next_telem_interval_ms = next_telemetry_interval(random_interval);
    node.telem_seq = node.telem_seq.wrapping_add(1);
    let mut report = DebugTelemetryPayload::new();
    report.uptime_secs = node.telemetry.uptime_secs;
    report.rx_count = node.telemetry.rx_packet_count;
    report.tx_count = node.telemetry.tx_packet_count;
    report.drop_count = node.ring.dropped_count();
    report.sram_used = node.ring.len() as u16;
    report.storage_mode = storage_mode;
    report.last_event = node.telemetry.last_event;
    report.build_tier = TelemetryTier::Debug;
    report.free_heap_kb = free_heap_kb;
    report.last_rssi = node.telemetry.last_rssi;
    report.last_lqi = rssi_to_lqi(node.telemetry.last_rssi);
    report.node_mac_tail = mac_tail;
    let mut payload = [0u8; CIPHERTEXT_LEN];
    report.serialize(&mut payload);
    let header = MeshHeader {
        network_tag: DEFAULT_NETWORK_TAG,
        msg_id: node.telem_seq,
        chunk_idx: 0,
        total_chunks: 1,
        ttl: 1,
        hop_count: 0,
        flags: FLAG_TELEMETRY,
    };
    let packet = MeshPacket { header, payload };
    let jitter = (random_jitter % 46) as u16 + 15;
    let queued = node.backoff.schedule_telemetry(packet, jitter);
    Some(TelemetryEmission { report, packet, queued })
}

/// The counters after main-loop turn `loop_tick` (the loop turns every 5 ms): every 200th
/// turn is another second of uptime (saturating), and every 50th turn the ring's fill and
/// drops and the storage mode are copied in.
pub open spec fn ticked_counters(t: ClosedTelemetry, ring: SramRingBuffer, loop_tick: u32, storage_mode: StorageModeStatus) -> ClosedTelemetry {
    let t1 = if loop_tick % 200 == 0 { ClosedTelemetry { uptime_secs: saturated_inc(t.uptime_secs), ..t } } else { t };
    if loop_tick % 50 == 0 {
        ClosedTelemetry {
            sram_ring_used: ring@.len() as u16,
            dropped_count: ring.dropped(),
            storage_mode,
            ..t1
        }
    } else {
        t1
    }
}

/// The bookkeeping of main-loop turn `loop_tick` (see `ticked_counters`).
pub fn on_loop_tick(node: &mut RelayNode, loop_tick: u32, storage_mode: StorageModeStatus)
    requires
        old(node).well_formed(),
    ensures
        final(node).well_formed(),
        same_sequences(*old(node), *final(node)),
        final(node).filter == old(node).filter,
        final(node).backoff == old(node).backoff,
        final(node).ring == old(node).ring,
        final(node).peers == old(node).peers,
        final(node).telemetry == ticked_counters(old(node).telemetry, old(node).ring, loop_tick, storage_mode),
{
    if loop_tick % 200 == 0 {
        node.telemetry.uptime_secs = node.telemetry.uptime_secs.saturating_add(1);
    }
    if loop_tick % 50 == 0 {
        node.telemetry.sram_ring_used = node.ring.len() as u16;
        node.telemetry.dropped_count = node.ring.dropped_count();
        node.telemetry.storage_mode = storage_mode;
    }
}

/// What the status LED shows.
pub enum LedIndication {
    /// The button was just pressed, or pairing is authorized.
    Green,
    /// A telemetry frame was just received.
    Magenta,
    /// A mesh frame was just received.
    Cyan,
    /// A pairing prompt is open.
    AmberPulse,
    /// Nothing else to show.
    IdleBlue,
}

/// The LED's indication: a recent button press first, then a recent telemetry frame, then
/// a recent mesh frame, else the pairing state.
pub fn led_indication(button_flash: bool, telemetry_flash: bool, rx_flash: bool, pairing: BleAuthState) -> (r:
    LedIndication)
    ensures
        button_flash ==> r is Green,
        !button_flash && telemetry_flash ==> r is Magenta,
        !button_flash && !telemetry_flash && rx_flash ==> r is Cyan,
        !button_flash && !telemetry_flash && !rx_flash ==> match pairing {
            BleAuthState::PairingRequested { .. } => r is AmberPulse,
            BleAuthState::Authorized => r is Green,
            _ => r is IdleBlue,
        },
{
    if button_flash {
        LedIndication::Green
    } else if telemetry_flash {
        LedIndication::Magenta
    } else if rx_flash {
        LedIndication::Cyan
    } else {
        match pairing {
            BleAuthState::PairingRequested { .. } => LedIndication::AmberPulse,
            BleAuthState::Authorized => LedIndication::Green,
            _ => LedIndication::IdleBlue,
        }
    }
}

} // verus!
