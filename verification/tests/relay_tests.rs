use gibberish::frame::{
    MeshHeader, MeshPacket, CIPHERTEXT_LEN, DEFAULT_NETWORK_TAG, FLAG_CLIPBOARD, FLAG_GROUP, FLAG_TELEMETRY,
};
use gibberish::ieee802154::ReceivedMeshPacket;
use gibberish::ble_gate::{BleAuthState, BleSecurityGate};
use gibberish::frame::{DiagnosticEventCode, StorageModeStatus, TelemetryTier, FLAG_ACK_REQ};
use gibberish::relay::{
    led_indication, next_telemetry_interval, on_button_press, on_loop_tick, on_host_packet, on_mesh_reception, on_telemetry_timer,
    on_tx_result, service_tx, LedIndication, ReceptionKind, RelayNode,
};

const LOCAL: u32 = 0x0A0B0C0D;

fn frame(msg_id: u32, chunk_idx: u8, ttl: u8, flags: u16, src: u32, lqi: u8) -> ReceivedMeshPacket {
    let header = MeshHeader {
        network_tag: DEFAULT_NETWORK_TAG,
        msg_id,
        chunk_idx,
        total_chunks: 2,
        ttl,
        hop_count: 0,
        flags,
    };
    ReceivedMeshPacket { packet: MeshPacket { header, payload: [0u8; CIPHERTEXT_LEN] }, src_node_id: src, rssi: -60, lqi }
}

#[test]
fn a_new_frame_is_kept_announced_and_relayed() {
    let mut node = RelayNode::new(0);
    let rx = frame(0x11, 0, 3, FLAG_GROUP, 0x1234, 200);
    let out = on_mesh_reception(&mut node, &rx, LOCAL, 7);
    assert!(matches!(out.kind, ReceptionKind::New));
    assert_eq!(out.source, 0x1234);
    assert!(out.relayed);
    assert!(!out.clipboard);
    let line = out.pkt_line.expect("a new frame gives a host line");
    assert!(line.starts_with("#PKT# 00001234 "));
    assert_eq!(line.len(), 6 + 8 + 1 + 228);
    assert_eq!(node.ring.len(), 1);
    let relayed = node.backoff.take_pending().expect("a relay copy is queued");
    assert_eq!(relayed.header.ttl, 2);
    assert_eq!(relayed.header.hop_count, 1);
    assert_eq!(node.telemetry.rx_packet_count, 1);
    assert_eq!(node.peers.primary_peer().map(|p| p.node_id), Some(0x1234));
}

#[test]
fn a_repeated_frame_is_only_a_duplicate() {
    let mut node = RelayNode::new(0);
    let rx = frame(0x11, 0, 3, FLAG_GROUP, 0x1234, 200);
    let _ = on_mesh_reception(&mut node, &rx, LOCAL, 7);
    let _ = node.backoff.take_pending();
    let out = on_mesh_reception(&mut node, &rx, LOCAL, 7);
    assert!(matches!(out.kind, ReceptionKind::Duplicate));
    assert!(out.pkt_line.is_none());
    assert!(!out.relayed);
    assert_eq!(node.ring.len(), 1);
    assert_eq!(node.telemetry.rx_packet_count, 1);
}

#[test]
fn hearing_a_peer_relay_our_queued_copy_cancels_it() {
    let mut node = RelayNode::new(0);
    let _ = on_mesh_reception(&mut node, &frame(0x22, 1, 3, FLAG_GROUP, 0x1234, 200), LOCAL, 0);
    assert!(node.backoff.has_pending());
    let out = on_mesh_reception(&mut node, &frame(0x22, 1, 2, FLAG_GROUP, 0x5678, 200), LOCAL, 0);
    assert!(matches!(out.kind, ReceptionKind::Duplicate));
    assert_eq!(node.backoff.take_pending(), None);
}

#[test]
fn weak_links_and_spent_frames_are_not_relayed() {
    let mut node = RelayNode::new(0);
    let out = on_mesh_reception(&mut node, &frame(0x33, 0, 3, FLAG_GROUP, 0x1234, 10), LOCAL, 0);
    assert!(matches!(out.kind, ReceptionKind::New));
    assert!(!out.relayed);
    let out = on_mesh_reception(&mut node, &frame(0x34, 0, 0, FLAG_GROUP, 0x1234, 200), LOCAL, 0);
    assert!(matches!(out.kind, ReceptionKind::New));
    assert!(!out.relayed);
    assert!(!node.backoff.has_pending());
    assert_eq!(node.ring.len(), 2);
}

#[test]
fn telemetry_frames_are_used_locally_only() {
    let mut node = RelayNode::new(0);
    let out = on_mesh_reception(&mut node, &frame(0x44, 0, 1, FLAG_TELEMETRY, 0x1234, 200), LOCAL, 0);
    assert!(matches!(out.kind, ReceptionKind::Telemetry));
    assert!(out.pkt_line.is_none());
    assert_eq!(node.ring.len(), 0);
    assert!(!node.backoff.has_pending());
    assert_eq!(node.telemetry.rx_packet_count, 1);
    // The filter was not touched: the same ids as a normal frame are new.
    let out = on_mesh_reception(&mut node, &frame(0x44, 0, 1, FLAG_GROUP, 0x1234, 200), LOCAL, 0);
    assert!(matches!(out.kind, ReceptionKind::New));
}

#[test]
fn foreign_frames_and_our_own_echo() {
    let mut node = RelayNode::new(0);
    let mut rx = frame(0x55, 0, 3, FLAG_GROUP | FLAG_CLIPBOARD, 0x1234, 200);
    rx.packet.header.network_tag = 0x1111;
    let out = on_mesh_reception(&mut node, &rx, LOCAL, 0);
    assert!(matches!(out.kind, ReceptionKind::WrongNetwork));
    assert_eq!(node.ring.len(), 0);
    assert_eq!(node.peers.primary_peer(), None);
    let out = on_mesh_reception(&mut node, &frame(0x56, 0, 3, FLAG_GROUP | FLAG_CLIPBOARD, LOCAL, 200), LOCAL, 0);
    assert!(out.clipboard);
    assert_eq!(node.peers.primary_peer(), None);
}

fn host_packet(msg_id: u32, network_tag: u64, flags: u16) -> MeshPacket {
    let header = MeshHeader { network_tag, msg_id, chunk_idx: 0, total_chunks: 1, ttl: 3, hop_count: 0, flags };
    MeshPacket { header, payload: [7u8; CIPHERTEXT_LEN] }
}

#[test]
fn a_host_packet_is_kept_queued_and_not_taken_again_from_the_air() {
    let mut node = RelayNode::new(0);
    let p = host_packet(0x77, DEFAULT_NETWORK_TAG, FLAG_CLIPBOARD);
    let out = on_host_packet(&mut node, &p);
    assert!(out.accepted);
    assert!(out.clipboard);
    assert_eq!(node.ring.len(), 1);
    assert!(node.backoff.has_pending());
    let echo = ReceivedMeshPacket { packet: p, src_node_id: 0x1234, rssi: -60, lqi: 200 };
    let heard = on_mesh_reception(&mut node, &echo, LOCAL, 0);
    assert!(matches!(heard.kind, ReceptionKind::Duplicate));
    assert!(node.backoff.take_pending().is_none());
}

#[test]
fn a_host_packet_of_another_mesh_is_ignored() {
    let mut node = RelayNode::new(0);
    let out = on_host_packet(&mut node, &host_packet(0x77, 0x1111, 0));
    assert!(!out.accepted);
    assert!(!out.clipboard);
    assert_eq!(node.ring.len(), 0);
    assert!(!node.backoff.has_pending());
}

#[test]
fn the_transmit_service_waits_out_the_backoff() {
    let mut node = RelayNode::new(0);
    assert!(service_tx(&mut node, 5).is_none());
    let p = host_packet(0x77, DEFAULT_NETWORK_TAG, 0);
    let _ = on_host_packet(&mut node, &p);
    assert!(service_tx(&mut node, 5).is_none());
    assert!(service_tx(&mut node, 5).is_none());
    let sent = service_tx(&mut node, 5).expect("15 ms have passed");
    assert_eq!(sent, p);
    assert!(!node.backoff.has_pending());
}

#[test]
fn only_a_good_send_is_counted() {
    let mut node = RelayNode::new(0);
    on_tx_result(&mut node, false);
    assert_eq!(node.telemetry.tx_packet_count, 0);
    assert_eq!(node.telemetry.last_event, DiagnosticEventCode::Boot);
    on_tx_result(&mut node, true);
    assert_eq!(node.telemetry.tx_packet_count, 1);
    assert_eq!(node.telemetry.last_event, DiagnosticEventCode::RadioTxOk);
}

#[test]
fn button_beacons_count_up_from_the_node_id() {
    let mut node = RelayNode::new(0);
    let mut gate = BleSecurityGate::new();
    let first = on_button_press(&mut node, &mut gate, LOCAL);
    assert!(!first.authorized);
    assert_eq!(first.beacon.header.msg_id, LOCAL + 1);
    assert_eq!(first.beacon.header.ttl, 3);
    assert_eq!(first.beacon.header.flags, FLAG_ACK_REQ);
    assert_eq!(first.beacon.payload, [0xAAu8; 96]);
    let second = on_button_press(&mut node, &mut gate, LOCAL);
    assert_eq!(second.beacon.header.msg_id, LOCAL + 2);
    assert_eq!(node.telemetry.last_event, DiagnosticEventCode::Boot);
    let echo = ReceivedMeshPacket { packet: first.beacon, src_node_id: 0x1234, rssi: -60, lqi: 200 };
    assert!(matches!(on_mesh_reception(&mut node, &echo, LOCAL, 0).kind, ReceptionKind::Duplicate));
}

#[test]
fn the_beacon_id_wraps_around() {
    let mut node = RelayNode::new(0);
    let mut gate = BleSecurityGate::new();
    let out = on_button_press(&mut node, &mut gate, u32::MAX);
    assert_eq!(out.beacon.header.msg_id, 0);
}

#[test]
fn a_button_press_authorizes_an_open_prompt() {
    let mut node = RelayNode::new(0);
    let mut gate = BleSecurityGate::new();
    let _ = gate.request_pairing(42);
    let out = on_button_press(&mut node, &mut gate, LOCAL);
    assert!(out.authorized);
    assert_eq!(gate.state(), BleAuthState::Authorized);
    assert!(gate.is_bonded());
    assert_eq!(node.telemetry.last_event, DiagnosticEventCode::BleAuthGranted);
}

#[test]
fn telemetry_intervals_are_four_and_a_half_to_five_and_a_half_seconds() {
    assert_eq!(next_telemetry_interval(0), 4500);
    assert_eq!(next_telemetry_interval(1000), 5500);
    assert_eq!(next_telemetry_interval(1001), 4500);
    assert_eq!(RelayNode::new(7).next_telem_interval_ms, 4507);
}

#[test]
fn telemetry_goes_out_when_its_interval_has_run_out() {
    let mut node = RelayNode::new(0);
    let mac = [1, 2, 3, 4, 0xBE, 0xBC, 0xE5, 0xB8];
    assert!(on_telemetry_timer(&mut node, 4495, StorageModeStatus::RamOnly, 50, mac, 1000, 0).is_none());
    let e = on_telemetry_timer(&mut node, 5, StorageModeStatus::MicroSdActive, 50, mac, 1000, 0).expect("due");
    assert!(e.queued);
    assert_eq!(e.packet.header.msg_id, 1);
    assert_eq!(e.packet.header.ttl, 1);
    assert_eq!(e.packet.header.flags, FLAG_TELEMETRY);
    assert_eq!(e.report.build_tier, TelemetryTier::Debug);
    assert_eq!(e.report.storage_mode, StorageModeStatus::MicroSdActive);
    assert_eq!(e.report.free_heap_kb, 50);
    assert_eq!(e.report.node_id(), 0xBEBCE5B8);
    assert_eq!(e.packet.payload[20], 0xDB);
    assert_eq!(node.telem_elapsed_ms, 0);
    assert_eq!(node.next_telem_interval_ms, 5500);
    assert!(node.backoff.is_pending_telemetry());
    let heard = ReceivedMeshPacket { packet: e.packet, src_node_id: 0, rssi: -50, lqi: 150 };
    let out = on_mesh_reception(&mut RelayNode::new(0), &heard, LOCAL, 0);
    assert!(matches!(out.kind, ReceptionKind::Telemetry));
    assert_eq!(out.source, 0xBEBCE5B8);
}

#[test]
fn telemetry_yields_to_queued_user_traffic() {
    let mut node = RelayNode::new(0);
    let _ = on_host_packet(&mut node, &host_packet(0x77, DEFAULT_NETWORK_TAG, 0));
    let e = on_telemetry_timer(&mut node, 4500, StorageModeStatus::RamOnly, 0, [0u8; 8], 0, 0).expect("due");
    assert!(!e.queued);
    assert!(!node.backoff.is_pending_telemetry());
    assert_eq!(node.telem_seq, 1);
}

#[test]
fn the_led_shows_the_most_recent_happening_first() {
    assert!(matches!(led_indication(true, true, true, BleAuthState::Idle), LedIndication::Green));
    assert!(matches!(led_indication(false, true, true, BleAuthState::Idle), LedIndication::Magenta));
    assert!(matches!(led_indication(false, false, true, BleAuthState::Idle), LedIndication::Cyan));
    let prompt = BleAuthState::PairingRequested { pin: 123456, remaining_ms: 1000 };
    assert!(matches!(led_indication(false, false, false, prompt), LedIndication::AmberPulse));
    assert!(matches!(led_indication(false, false, false, BleAuthState::Authorized), LedIndication::Green));
    assert!(matches!(led_indication(false, false, false, BleAuthState::Rejected), LedIndication::IdleBlue));
}

#[test]
fn the_loop_counts_seconds_and_refreshes_the_ring_counters() {
    let mut node = RelayNode::new(0);
    let _ = on_host_packet(&mut node, &host_packet(0x77, DEFAULT_NETWORK_TAG, 0));
    on_loop_tick(&mut node, 7, StorageModeStatus::MicroSdActive);
    assert_eq!(node.telemetry.uptime_secs, 0);
    assert_eq!(node.telemetry.sram_ring_used, 0);
    on_loop_tick(&mut node, 50, StorageModeStatus::MicroSdActive);
    assert_eq!(node.telemetry.uptime_secs, 0);
    assert_eq!(node.telemetry.sram_ring_used, 1);
    assert_eq!(node.telemetry.storage_mode, StorageModeStatus::MicroSdActive);
    on_loop_tick(&mut node, 200, StorageModeStatus::RamOnly);
    assert_eq!(node.telemetry.uptime_secs, 1);
    assert_eq!(node.telemetry.storage_mode, StorageModeStatus::RamOnly);
    on_loop_tick(&mut node, 0, StorageModeStatus::RamOnly);
    assert_eq!(node.telemetry.uptime_secs, 2);
}
