use gibberish::controller::UiEvent;
use gibberish::ipc_client::{inbound_events, link_status_event, InboundMessage};
use gibberish::json::{JsonMember, JsonNumber, JsonValue};

fn s(v: &str) -> JsonValue {
    JsonValue::Str(v.to_string())
}

fn num(v: i64) -> JsonValue {
    JsonValue::Number(JsonNumber { as_u64: if v >= 0 { Some(v as u64) } else { None }, as_i64: Some(v) })
}

fn obj(members: Vec<(&str, JsonValue)>) -> JsonValue {
    JsonValue::Object(members.into_iter().map(|(k, v)| JsonMember { key: k.to_string(), value: v }).collect())
}

fn notification(method: &str, params: JsonValue) -> InboundMessage {
    InboundMessage::Notification { method: method.to_string(), params }
}

#[test]
fn rx_message_becomes_a_chat_message() {
    let mut counter = 1u64;
    let evs = inbound_events(
        &notification(
            "rx_message",
            obj(vec![
                ("id", s("m-9")),
                ("convo_id", s("0xBEBD82B4")),
                ("sender_node_id", num(0xBEBD82B4)),
                ("text", s("hello")),
                ("timestamp", num(3661)),
                ("status", s("[OK]")),
            ]),
        ),
        &mut counter,
    );
    assert_eq!(evs.len(), 1);
    match &evs[0] {
        UiEvent::MessageReceived(m) => {
            assert_eq!(m.id, "m-9");
            assert_eq!(m.convo_id, "0xBEBD82B4");
            assert_eq!(m.sender, "0xBEBD82B4");
            assert_eq!(m.text, "hello");
            assert_eq!(m.timestamp, "01:01:01");
            assert_eq!(m.status, "[OK]");
            assert!(!m.is_outgoing);
        }
        other => panic!("unexpected {:?}", other),
    }
    assert_eq!(counter, 1);
}

#[test]
fn rx_message_defaults_and_fallback_id() {
    let mut counter = 5u64;
    let evs = inbound_events(&notification("rx_message", obj(vec![("timestamp", num(12))])), &mut counter);
    match &evs[0] {
        UiEvent::MessageReceived(m) => {
            assert_eq!(m.id, "m-12-5");
            assert_eq!(m.convo_id, "#all");
            assert_eq!(m.sender, "Me");
            assert_eq!(m.text, "");
            assert_eq!(m.status, "*");
            assert!(m.is_outgoing);
        }
        other => panic!("unexpected {:?}", other),
    }
    assert_eq!(counter, 6);
}

#[test]
fn node_discovery_and_acks() {
    let mut counter = 1u64;
    let evs = inbound_events(
        &notification(
            "node_discovered",
            obj(vec![("node_id", num(0xAB)), ("alias", s("Ann")), ("rssi", num(-61)), ("lqi", num(200))]),
        ),
        &mut counter,
    );
    match &evs[0] {
        UiEvent::StationDiscovered { node_id, alias, rssi, lqi, trust_state } => {
            assert_eq!(node_id, "0x000000AB");
            assert_eq!(alias, "Ann");
            assert_eq!(rssi, "-61 dBm");
            assert_eq!(lqi, "LQI 200");
            assert_eq!(trust_state, "unverified");
        }
        other => panic!("unexpected {:?}", other),
    }
    let evs = inbound_events(&notification("node_discovered", obj(vec![])), &mut counter);
    match &evs[0] {
        UiEvent::StationDiscovered { node_id, rssi, lqi, .. } => {
            assert_eq!(node_id, "0x00000000");
            assert_eq!(rssi, "-80 dBm");
            assert_eq!(lqi, "LQI 150");
        }
        other => panic!("unexpected {:?}", other),
    }
    let evs = inbound_events(&notification("delivery_ack", obj(vec![("message_id", s("dm-3"))])), &mut counter);
    match &evs[0] {
        UiEvent::MessageStatusUpdated { id, status } => {
            assert_eq!(id, "dm-3");
            assert_eq!(status, "[OK]");
        }
        other => panic!("unexpected {:?}", other),
    }
    assert!(inbound_events(&notification("something_else", obj(vec![])), &mut counter).is_empty());
}

#[test]
fn telemetry_and_status_answers() {
    let mut counter = 1u64;
    let evs = inbound_events(
        &notification("telemetry_update", obj(vec![("tx_packets", num(4)), ("rx_packets", num(9))])),
        &mut counter,
    );
    match &evs[0] {
        UiEvent::TelemetryUpdated { node_id, storage_mode, tx, rx, channel, avg_lqi, status, .. } => {
            assert_eq!(node_id, "0xBEBD82B4");
            assert_eq!(storage_mode, "SD ACTIVE");
            assert_eq!((*tx, *rx, *channel, *avg_lqi), (4, 9, 15, 200));
            assert_eq!(status, "CONNECTED");
        }
        other => panic!("unexpected {:?}", other),
    }
    let answer = InboundMessage::Response {
        result: Some(obj(vec![
            ("node_id", s("0x00000042")),
            ("dongle_mode", s("RAM_ONLY")),
            ("dongle_attached", JsonValue::Bool(false)),
        ])),
    };
    match &inbound_events(&answer, &mut counter)[0] {
        UiEvent::TelemetryUpdated { node_id, storage_mode, status, .. } => {
            assert_eq!(node_id, "0x00000042");
            assert_eq!(storage_mode, "RAM_ONLY");
            assert_eq!(status, "NO DONGLE");
        }
        other => panic!("unexpected {:?}", other),
    }
    let version = InboundMessage::Response { result: Some(obj(vec![("version", s("0.1.0"))])) };
    assert!(inbound_events(&version, &mut counter).is_empty());
    assert!(inbound_events(&InboundMessage::Unrecognized, &mut counter).is_empty());
}

#[test]
fn list_answers_become_rows_and_messages() {
    let mut counter = 1u64;
    let answer = InboundMessage::Response {
        result: Some(JsonValue::Array(vec![
            obj(vec![("node_id", num(1)), ("alias", s("One")), ("trust_state", s("verified"))]),
            obj(vec![("id", s("m1")), ("text", s("hey")), ("sender_node_id", num(0))]),
            obj(vec![("other", num(3))]),
        ])),
    };
    let evs = inbound_events(&answer, &mut counter);
    assert_eq!(evs.len(), 2);
    assert!(matches!(&evs[0], UiEvent::StationDiscovered { trust_state, .. } if trust_state == "verified"));
    assert!(matches!(&evs[1], UiEvent::MessageReceived(m) if m.id == "m1" && m.sender == "Me"));
}

#[test]
fn test_daemon_delivery_ack_is_shown_as_status_update() {
    let params = gibberish::ipc::delivery_ack_params("dm-test-ack-1", "delivered");
    let mut counter = 0u64;
    let events = inbound_events(&notification("delivery_ack", params), &mut counter);
    assert_eq!(events.len(), 1);
    match &events[0] {
        UiEvent::MessageStatusUpdated { id, status } => {
            assert_eq!(id, "dm-test-ack-1");
            assert_eq!(status, "delivered");
        }
        other => panic!("unexpected event {:?}", other),
    }
}

#[test]
fn test_daemon_rx_message_is_shown_as_message() {
    let params = gibberish::ipc::rx_message_params("swarm-7", "#all", 0xBEBD82B4, "hello mesh", 3723, "[OK]");
    let mut counter = 5u64;
    let events = inbound_events(&notification("rx_message", params), &mut counter);
    assert_eq!(counter, 5);
    assert_eq!(events.len(), 1);
    match &events[0] {
        UiEvent::MessageReceived(m) => {
            assert_eq!(m.id, "swarm-7");
            assert_eq!(m.convo_id, "#all");
            assert_eq!(m.sender, "0xBEBD82B4");
            assert_eq!(m.text, "hello mesh");
            assert_eq!(m.timestamp, "01:02:03");
            assert_eq!(m.status, "[OK]");
            assert!(!m.is_outgoing);
        }
        other => panic!("unexpected event {:?}", other),
    }
}

#[test]
fn test_daemon_node_discovered_is_shown_as_station() {
    let params = gibberish::ipc::node_discovered_params(0xC3A109F2, "Station-09F2", "unverified", -67, 180);
    let mut counter = 0u64;
    let events = inbound_events(&notification("node_discovered", params), &mut counter);
    assert_eq!(events.len(), 1);
    match &events[0] {
        UiEvent::StationDiscovered { node_id, alias, rssi, lqi, trust_state } => {
            assert_eq!(node_id, "0xC3A109F2");
            assert_eq!(alias, "Station-09F2");
            assert_eq!(rssi, "-67 dBm");
            assert_eq!(lqi, "LQI 180");
            assert_eq!(trust_state, "unverified");
        }
        other => panic!("unexpected event {:?}", other),
    }
}

#[test]
fn link_status_events_carry_the_link_state() {
    match link_status_event(true) {
        UiEvent::TelemetryUpdated { avg_lqi, status, channel, .. } => {
            assert_eq!(avg_lqi, 200);
            assert_eq!(status, "CONNECTED");
            assert_eq!(channel, 15);
        }
        _ => panic!("telemetry update expected"),
    }
    match link_status_event(false) {
        UiEvent::TelemetryUpdated { avg_lqi, status, .. } => {
            assert_eq!(avg_lqi, 0);
            assert_eq!(status, "DISCONNECTED");
        }
        _ => panic!("telemetry update expected"),
    }
}
