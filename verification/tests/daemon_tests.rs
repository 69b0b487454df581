use gibberish::daemon::{
    discovered_contact, packet_route, parse_daemon_args, received_message_id, received_record, station_alias_text,
    DongleReport, LinkState, PacketRoute, DEFAULT_NODE_ID,
};
use gibberish::frame::{MeshHeader, MeshPacket, CIPHERTEXT_LEN, FLAG_GROUP, FLAG_SACK};
use gibberish::ipc::telemetry_update_params;
use gibberish::ipc_client::{inbound_events, InboundMessage};
use gibberish::controller::UiEvent;
use gibberish::fleet::parse_telemetry_line;
use gibberish::schema::{MessageStatus, TrustState};
use gibberish::json::JsonValue;

fn args(v: &[&str]) -> Vec<String> {
    v.iter().map(|s| s.to_string()).collect()
}

#[test]
fn test_cli_defaults() {
    let o = parse_daemon_args(&args(&[]));
    assert!(o.ports.is_empty());
    assert_eq!(o.log_path, "/tmp/gibberish/daemon.log");
    assert_eq!(o.node_id, DEFAULT_NODE_ID);
    assert!(!o.node_id_given);
    assert!(o.auto_sync);
    assert_eq!(o.push_message, None);
    assert!(!o.check_status);
}

#[test]
fn test_cli_port_lists() {
    let o = parse_daemon_args(&args(&[
        "--port",
        " /dev/ttyACM0 , port=/dev/ttyACM1,,--port=/dev/ttyACM2",
        "--port=port=/dev/cu.usbmodem1, --port=x",
        "-p",
        "",
    ]));
    assert_eq!(
        o.ports,
        vec!["/dev/ttyACM0", "/dev/ttyACM1", "/dev/ttyACM2", "/dev/cu.usbmodem1", "--port=x"]
    );
}

#[test]
fn test_cli_options_and_commands() {
    let o = parse_daemon_args(&args(&[
        "--log-file", "/var/log/g.log", "--node-id", "0x0xC3A109F2", "--no-sync", "push", "hello mesh", "status",
    ]));
    assert_eq!(o.log_path, "/var/log/g.log");
    assert_eq!(o.node_id, 0xC3A109F2);
    assert!(o.node_id_given);
    assert!(!o.auto_sync);
    assert_eq!(o.push_message.as_deref(), Some("hello mesh"));
    assert!(o.check_status);
    // An unreadable node id is ignored; a trailing option word without its value ends the reading.
    let o = parse_daemon_args(&args(&["--node-id", "zz", "--auto-sync", "-l"]));
    assert_eq!(o.node_id, DEFAULT_NODE_ID);
    assert!(!o.node_id_given);
    assert!(o.auto_sync);
    assert_eq!(o.log_path, "/tmp/gibberish/daemon.log");
}

#[test]
fn test_station_alias_and_contact() {
    assert_eq!(station_alias_text(0xC3A109F2), "Station-09F2");
    assert_eq!(station_alias_text(0x12345), "Station-2345");
    let c = discovered_contact(0xC3A109F2, "Station-09F2".to_string(), 1700, -21, 240);
    assert_eq!(c.node_id, 0xC3A109F2);
    assert_eq!(c.pubkey, [0u8; 32]);
    assert_eq!(c.trust_state, TrustState::Unverified);
    assert_eq!(c.rssi, -21);
    assert_eq!(c.lqi, 240);
    assert_eq!(c.last_seen, 1700);
}

#[test]
fn test_received_message_id() {
    assert_eq!(received_message_id(1700000000, 3), "rx-1700000000-3");
    assert_eq!(received_message_id(-5, 0), "rx--5-0");
}

#[test]
fn test_link_state_adopts_primary_dongle_id() {
    let mut link = LinkState::new(DEFAULT_NODE_ID, false);
    assert!(link.is_self_echo(DEFAULT_NODE_ID));
    let (changed, report) = link.observe_line("Node ID: BEBD82B4 (MAC: [38, 44, BE, BD, 82, B4])", true);
    assert_eq!(changed, Some(0xBEBD82B4));
    assert!(matches!(report, DongleReport::Nothing));
    assert_eq!(link.local_node_id(), 0xBEBD82B4);
    assert!(link.is_self_echo(DEFAULT_NODE_ID));
    assert!(!link.is_self_echo(0x11111111));
    // A secondary dongle's id joins the host's ids without becoming the node id.
    let (changed, _) = link.observe_line("[Node 0000ABCD] Uptime: 5s", false);
    assert_eq!(changed, None);
    assert!(link.is_self_echo(0x0000ABCD));
    assert_eq!(link.local_node_id(), 0xBEBD82B4);
}

#[test]
fn test_link_state_keeps_given_node_id() {
    let mut link = LinkState::new(0x01020304, true);
    let (changed, _) = link.observe_line("Node ID: BEBD82B4 (MAC)", true);
    assert_eq!(changed, None);
    assert_eq!(link.local_node_id(), 0x01020304);
    assert!(link.is_self_echo(0xBEBD82B4));
}

#[test]
fn test_link_state_telemetry_reports() {
    let mut link = LinkState::new(0xBEBCE5B8, true);
    let own = "[Telemetry RX] Node: BEBCE5B8, Tier: Debug, Storage: RamOnly, Uptime: 862s, SRAM: 0/256, Drops: 0, RX: 904, TX: 68, RSSI: -19 dBm, LQI: 255";
    match link.observe_line(own, true).1 {
        DongleReport::Local(t) => {
            assert_eq!(t.storage_mode, "RAM ONLY");
            assert_eq!(t.rx_count, 904);
        }
        _ => panic!("expected own telemetry"),
    }
    // The reader upper-cases the id, so a `0x` prefix becomes `0X` and no longer reads as hexadecimal.
    let prefixed = "[Telemetry RX] Node: 0xC3A109F2, RX: 1";
    assert!(matches!(link.observe_line(prefixed, true).1, DongleReport::Nothing));
    let peer = "[Telemetry RX] Node: C3A109F2, Tier: Prod, Storage: MicroSdActive, Uptime: 8s, SRAM: 0/256, Drops: 0, RX: 1, TX: 2, RSSI: -70 dBm, LQI: 99";
    match link.observe_line(peer, true).1 {
        DongleReport::Peer { node_id, alias, telemetry } => {
            assert_eq!(node_id, 0xC3A109F2);
            assert_eq!(alias, "Station-09F2");
            assert_eq!(telemetry.rssi, -70);
            assert_eq!(telemetry.lqi, 99);
        }
        _ => panic!("expected peer telemetry"),
    }
    assert!(matches!(link.observe_line("[Telemetry RX] Node: XYZ, RX: 1", true).1, DongleReport::Nothing));
    assert!(matches!(link.observe_line("boot ok", true).1, DongleReport::Nothing));
}

#[test]
fn test_daemon_telemetry_is_shown_in_status_panel() {
    let t = parse_telemetry_line(
        "[Telemetry RX] Node: BEBCE5B8, Tier: Debug, Storage: RamOnly, Uptime: 862s, SRAM: 0/256, Drops: 0, RX: 904, TX: 68, RSSI: -19 dBm, LQI: 255",
    )
    .unwrap();
    let params = telemetry_update_params(0xBEBCE5B8, &t);
    let mut counter = 0u64;
    let events = inbound_events(
        &InboundMessage::Notification { method: "telemetry_update".to_string(), params },
        &mut counter,
    );
    assert_eq!(events.len(), 1);
    match &events[0] {
        UiEvent::TelemetryUpdated { node_id, storage_mode, tx, rx, avg_lqi, status, .. } => {
            assert_eq!(node_id, "0xBEBCE5B8");
            assert_eq!(storage_mode, "RAM ONLY");
            assert_eq!(*tx, 68);
            assert_eq!(*rx, 904);
            assert_eq!(*avg_lqi, 255);
            assert_eq!(status, "CONNECTED");
        }
        other => panic!("unexpected event {:?}", other),
    }
}

#[test]
fn test_status_answer_is_shown_in_status_panel() {
    let result = gibberish::ipc::status_result(0xBEBD82B4, "SD ACTIVE", false);
    let mut counter = 0u64;
    let events = inbound_events(&InboundMessage::Response { result: Some(result) }, &mut counter);
    assert_eq!(events.len(), 1);
    match &events[0] {
        UiEvent::TelemetryUpdated { node_id, storage_mode, status, .. } => {
            assert_eq!(node_id, "0xBEBD82B4");
            assert_eq!(storage_mode, "SD ACTIVE");
            assert_eq!(status, "NO DONGLE");
        }
        other => panic!("unexpected event {:?}", other),
    }
    let unknown = gibberish::ipc::status_result(0, "RAM_ONLY", true);
    let events = inbound_events(&InboundMessage::Response { result: Some(unknown) }, &mut counter);
    match &events[0] {
        UiEvent::TelemetryUpdated { node_id, status, .. } => {
            assert_eq!(node_id, "UNKNOWN");
            assert_eq!(status, "CONNECTED");
        }
        other => panic!("unexpected event {:?}", other),
    }
}

#[test]
fn test_rpc_answers() {
    let v = gibberish::ipc::version_result();
    assert_eq!(v.get("version"), Some(&JsonValue::Str("0.1.0".to_string())));
    assert_eq!(v.get("app"), Some(&JsonValue::Str("gibberishd".to_string())));
    let s = gibberish::ipc::send_result("dm-4", "queued");
    assert_eq!(s.get("message_id"), Some(&JsonValue::Str("dm-4".to_string())));
    assert_eq!(s.get("status"), Some(&JsonValue::Str("queued".to_string())));
    let r = gibberish::ipc::verify_result(0xC3A109F2, true, false);
    assert_eq!(r.get("verified"), Some(&JsonValue::Bool(true)));
    assert_eq!(r.get("updated"), Some(&JsonValue::Bool(false)));
    match r.get("node_id") {
        Some(JsonValue::Number(n)) => assert_eq!(n.as_u64, Some(0xC3A109F2)),
        other => panic!("unexpected {:?}", other),
    }
}

#[test]
fn packets_are_routed_by_the_sack_flag() {
    let header = MeshHeader { network_tag: 1, msg_id: 2, chunk_idx: 0, total_chunks: 1, ttl: 5, hop_count: 0, flags: FLAG_SACK };
    let sack = MeshPacket { header, payload: [0u8; CIPHERTEXT_LEN] };
    assert!(matches!(packet_route(&sack), PacketRoute::Sack));
    let chunk = MeshPacket { header: MeshHeader { flags: FLAG_GROUP, ..header }, payload: [0u8; CIPHERTEXT_LEN] };
    assert!(matches!(packet_route(&chunk), PacketRoute::Chunk));
}

#[test]
fn received_messages_are_recorded_unless_they_are_our_own() {
    assert!(received_record(true, "m".to_string(), 7, 100, "hi".to_string()).is_none());
    let rec = received_record(false, "m".to_string(), 7, 100, "hi".to_string()).unwrap();
    assert_eq!(rec.id, "m");
    assert_eq!(rec.convo_id, "#all");
    assert_eq!(rec.sender_node_id, 7);
    assert_eq!(rec.timestamp, 100);
    assert_eq!(rec.text, "hi");
    assert_eq!(rec.status, MessageStatus::Delivered);
}
